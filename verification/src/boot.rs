//! The decisions of the boot sequence: which disk and partition to use,
//! whether its file system is supported, and where the kernel starts.
use vstd::prelude::*;
use object::{Object, ObjectSegment};
use crate::engine::cfg::Config;
use crate::engine::fs::fat32::Fat32;
use crate::tool::text;

verus! {

/// Why the boot sequence stops.
#[derive(Debug, PartialEq, Eq, Structural)]
pub enum BootError {
    /// The disk GUID of the configuration is not a UUID.
    InvalidDiskGuid,
    /// The partition GUID of the configuration is not a UUID.
    InvalidPartitionGuid,
}

/// The 128-bit value (most significant byte first) of the UUID that
/// `uuid::Uuid::parse_str` reads from `s`, or `None` where it refuses `s`.
pub uninterp spec fn uuid_value(s: Seq<char>) -> Option<u128>;

/// Calls `uuid::Uuid::parse_str` and, on success, `Uuid::as_u128`; the
/// result is named by `uuid_value` and depends on `s` alone.
#[verifier::external_body]
fn parse_uuid(s: &str) -> (res: Option<u128>)
    ensures
        res == uuid_value(s@),
{
    match uuid::Uuid::parse_str(s) {
        Ok(u) => Some(u.as_u128()),
        Err(_) => None,
    }
}

/// The disk GUID and the partition GUID of the configuration, both of
/// which are UUIDs.
pub fn partition_guids(config: &Config) -> (res: (u128, u128))
    requires
        uuid_value(config.disk_guid@) is Some,
        uuid_value(config.partition_guid@) is Some,
    ensures
        res == (uuid_value(config.disk_guid@).unwrap(), uuid_value(config.partition_guid@).unwrap()),
{
    let disk = parse_uuid(config.disk_guid.as_str());
    let partition = parse_uuid(config.partition_guid.as_str());
    match (disk, partition) {
        (Some(d), Some(p)) => (d, p),
        _ => {
            proof {
                assert(false);
            }
            (0, 0)
        },
    }
}

/// The disk GUID and the partition GUID of the configuration, read in that
/// order; the first that is not a UUID is reported.
pub fn checked_partition_guids(config: &Config) -> (res: Result<(u128, u128), BootError>)
    ensures
        uuid_value(config.disk_guid@) is None ==> res == Err::<(u128, u128), BootError>(
            BootError::InvalidDiskGuid,
        ),
        uuid_value(config.disk_guid@) is Some && uuid_value(config.partition_guid@) is None
            ==> res == Err::<(u128, u128), BootError>(BootError::InvalidPartitionGuid),
        uuid_value(config.disk_guid@) is Some && uuid_value(config.partition_guid@) is Some
            ==> res == Ok::<(u128, u128), BootError>(
            (uuid_value(config.disk_guid@).unwrap(), uuid_value(config.partition_guid@).unwrap()),
        ),
{
    if parse_uuid(config.disk_guid.as_str()).is_none() {
        return Err(BootError::InvalidDiskGuid);
    }
    if parse_uuid(config.partition_guid.as_str()).is_none() {
        return Err(BootError::InvalidPartitionGuid);
    }
    Ok(partition_guids(config))
}

/// The character has the Unicode White_Space property.
pub open spec fn is_white_space(c: char) -> bool {
    let u = c as u32;
    ||| 0x09 <= u <= 0x0D
    ||| u == 0x20 || u == 0x85 || u == 0xA0 || u == 0x1680
    ||| 0x2000 <= u <= 0x200A
    ||| u == 0x2028 || u == 0x2029 || u == 0x202F || u == 0x205F || u == 0x3000
}

/// The number of white space characters at the start of `s`.
pub open spec fn leading_white_space(s: Seq<char>) -> nat
    decreases s.len(),
{
    if s.len() > 0 && is_white_space(s[0]) {
        1 + leading_white_space(s.drop_first())
    } else {
        0
    }
}

/// The number of white space characters at the end of `s`.
pub open spec fn trailing_white_space(s: Seq<char>) -> nat
    decreases s.len(),
{
    if s.len() > 0 && is_white_space(s.last()) {
        1 + trailing_white_space(s.drop_last())
    } else {
        0
    }
}

/// `s` with its leading and trailing white space removed.
pub open spec fn trimmed(s: Seq<char>) -> Seq<char> {
    let rest = s.skip(leading_white_space(s) as int);
    rest.take(rest.len() - trailing_white_space(rest))
}

/// `s` in upper case, as `str::to_uppercase` returns it.
pub uninterp spec fn uppercased(s: Seq<char>) -> Seq<char>;

/// The leading white space of `s` is its first characters up to the first
/// one that is not white space.
pub proof fn lemma_leading_white_space(s: Seq<char>)
    ensures
        leading_white_space(s) <= s.len(),
        forall|k: int| 0 <= k < leading_white_space(s) ==> is_white_space(#[trigger] s[k]),
        leading_white_space(s) < s.len() ==> !is_white_space(s[leading_white_space(s) as int]),
    decreases s.len(),
{
    if s.len() > 0 && is_white_space(s[0]) {
        let rest = s.drop_first();
        lemma_leading_white_space(rest);
        assert forall|k: int| 0 <= k < leading_white_space(s) implies is_white_space(#[trigger] s[k]) by {
            if k > 0 {
                assert(s[k] == rest[k - 1]);
            }
        }
    }
}

/// The trailing white space of `s` is its last characters back to the last
/// one that is not white space.
pub proof fn lemma_trailing_white_space(s: Seq<char>)
    ensures
        trailing_white_space(s) <= s.len(),
        forall|k: int| s.len() - trailing_white_space(s) <= k < s.len() ==> is_white_space(#[trigger] s[k]),
        trailing_white_space(s) < s.len() ==> !is_white_space(s[s.len() - 1 - trailing_white_space(s)]),
    decreases s.len(),
{
    if s.len() > 0 && is_white_space(s.last()) {
        let rest = s.drop_last();
        lemma_trailing_white_space(rest);
        assert forall|k: int| s.len() - trailing_white_space(s) <= k < s.len() implies is_white_space(
            #[trigger] s[k],
        ) by {
            if k < s.len() - 1 {
                assert(s[k] == rest[k]);
            }
        }
        if trailing_white_space(s) < s.len() {
            assert(s[s.len() - 1 - trailing_white_space(s)] == rest[rest.len() - 1
                - trailing_white_space(rest)]);
        }
    }
}

/// Trimming keeps a run of consecutive characters of `s`: everything before
/// it and after it is white space, and it neither starts nor ends with white space.
pub proof fn lemma_trimmed(s: Seq<char>)
    ensures
        exists|i: int, j: int|
            #![trigger s.subrange(i, j)]
            0 <= i <= j <= s.len() && trimmed(s) == s.subrange(i, j)
                && (forall|k: int| 0 <= k < i ==> is_white_space(#[trigger] s[k]))
                && (forall|k: int| j <= k < s.len() ==> is_white_space(#[trigger] s[k])),
        trimmed(s).len() > 0 ==> !is_white_space(trimmed(s)[0]) && !is_white_space(trimmed(s).last()),
{
    lemma_leading_white_space(s);
    let i = leading_white_space(s) as int;
    let rest = s.skip(i);
    lemma_trailing_white_space(rest);
    let t = trailing_white_space(rest) as int;
    let j = i + rest.len() - t;
    assert(trimmed(s) =~= s.subrange(i, j));
    assert forall|k: int| j <= k < s.len() implies is_white_space(#[trigger] s[k]) by {
        assert(s[k] == rest[k - i]);
    }
    if trimmed(s).len() > 0 {
        assert(trimmed(s)[0] == s[i]);
        assert(trimmed(s).last() == rest[rest.len() - 1 - t]);
    }
}

/// Calls `str::trim`, which removes the leading and trailing characters with
/// the Unicode White_Space property.
#[verifier::external_body]
fn trim_text(s: &str) -> (res: &str)
    ensures
        res@ == trimmed(s@),
{
    s.trim()
}

/// Calls `str::to_uppercase`; the result is named by `uppercased`.
#[verifier::external_body]
fn uppercase_text(s: &str) -> (res: String)
    ensures
        res@ == uppercased(s@),
{
    s.to_uppercase()
}

/// Whether a file system name, already trimmed and in upper case, names FAT32.
pub fn is_fat32_name(normalized: &str) -> (res: bool)
    ensures
        res == (normalized@ == "FAT32"@),
{
    let name = text(normalized);
    let fat32 = text("FAT32");
    name == fat32
}

/// Whether the configured file system is FAT32, the only one supported;
/// case and surrounding white space do not matter.
pub fn file_system_supported(file_system: &str) -> (res: bool)
    ensures
        res == (uppercased(trimmed(file_system@)) == "FAT32"@),
{
    let upper = uppercase_text(trim_text(file_system));
    is_fat32_name(upper.as_str())
}

/// The FAT32 file system on the blocks `begin_lba` to `end_lba` of the
/// disk, where the configured file system is FAT32.
pub fn fat32_partition(file_system: &str, begin_lba: u64, end_lba: u64) -> (f: Fat32)
    requires
        uppercased(trimmed(file_system@)) == "FAT32"@,
    ensures
        f == (Fat32 { begin_lba, end_lba }),
{
    Fat32 { begin_lba, end_lba }
}

/// The FAT32 file system on the blocks `begin_lba` to `end_lba`, or `None`
/// where the configured file system is not FAT32.
pub fn try_fat32_partition(file_system: &str, begin_lba: u64, end_lba: u64) -> (f: Option<Fat32>)
    ensures
        f is Some <==> uppercased(trimmed(file_system@)) == "FAT32"@,
        f matches Some(p) ==> p == (Fat32 { begin_lba, end_lba }),
{
    if file_system_supported(file_system) {
        Some(fat32_partition(file_system, begin_lba, end_lba))
    } else {
        None
    }
}

/// The name of a segment of the kernel image.
#[derive(Debug, Clone)]
pub enum SegmentName {
    /// The segment has this name.
    Named(String),
    /// The segment has no name.
    Unnamed,
    /// The name could not be read.
    Unreadable,
}

/// A segment of the kernel image: its name and the bytes of the file it occupies.
#[derive(Debug, Clone)]
pub struct SegmentInfo {
    /// The segment's name.
    pub name: SegmentName,
    /// Offset of the segment's bytes in the file.
    pub file_offset: u64,
    /// Number of the segment's bytes in the file.
    pub file_size: u64,
}

/// The file ranges (offset, size) of the segments that `object::File::parse`
/// finds in an image, in its order; `None` where it refuses the image.
pub uninterp spec fn elf_segment_ranges(data: Seq<u8>) -> Option<Seq<(u64, u64)>>;

/// Calls `object::File::parse` on the image and hands out its segments,
/// with `ObjectSegment::file_range` and `ObjectSegment::name`. Only ELF is
/// enabled, and an ELF segment has no name: the `object` source returns
/// `Ok(None)` from `name` for every ELF segment.
#[verifier::external_body]
fn elf_segments(data: &[u8]) -> (res: Option<Vec<SegmentInfo>>)
    ensures
        res is Some <==> elf_segment_ranges(data@) is Some,
        res matches Some(v) ==> {
            let ranges = elf_segment_ranges(data@).unwrap();
            &&& v@.len() == ranges.len()
            &&& forall|i: int| 0 <= i < v@.len() ==> (#[trigger] v@[i]).file_offset == ranges[i].0
                && v@[i].file_size == ranges[i].1 && v@[i].name is Unnamed
        },
{
    let file = match object::File::parse(data) {
        Ok(f) => f,
        Err(_) => return None,
    };
    let mut out = Vec::new();
    for seg in file.segments() {
        let (file_offset, file_size) = seg.file_range();
        let name = match seg.name() {
            Ok(Some(n)) => SegmentName::Named(n.to_string()),
            Ok(None) => SegmentName::Unnamed,
            Err(_) => SegmentName::Unreadable,
        };
        out.push(SegmentInfo { name, file_offset, file_size });
    }
    Some(out)
}

/// The name under which a segment is looked up: its own, or
/// "ERROR SEGMENTS NAME" where it has none or it cannot be read.
pub open spec fn segment_label(seg: SegmentInfo) -> Seq<char> {
    match seg.name {
        SegmentName::Named(s) => s@,
        _ => "ERROR SEGMENTS NAME"@,
    }
}

/// The segment is the one that holds the kernel's entry point.
pub open spec fn is_kernel_segment(seg: SegmentInfo) -> bool {
    segment_label(seg) == "kernel_start"@
}

/// Some segment of `segments` is labelled `kernel_start`.
pub open spec fn has_kernel(segments: Seq<SegmentInfo>) -> bool {
    exists|i: int| 0 <= i < segments.len() && is_kernel_segment(#[trigger] segments[i])
}

/// A segment is the kernel's entry segment exactly when it is named
/// `kernel_start`; a segment without a readable name never is.
pub proof fn lemma_kernel_segment_by_name(seg: SegmentInfo)
    ensures
        seg.name matches SegmentName::Named(s) ==> (is_kernel_segment(seg) <==> s@ == "kernel_start"@),
        !(seg.name is Named) ==> !is_kernel_segment(seg),
{
    reveal_strlit("ERROR SEGMENTS NAME");
    reveal_strlit("kernel_start");
    if !(seg.name is Named) {
        assert(segment_label(seg).len() != "kernel_start"@.len());
    }
}

/// No segment of an empty list is the entry segment; a list with one more
/// segment has an entry segment exactly when the list had one or the added
/// segment is one, wherever it stands.
pub proof fn lemma_has_kernel_grows(segments: Seq<SegmentInfo>, seg: SegmentInfo)
    ensures
        !has_kernel(Seq::<SegmentInfo>::empty()),
        has_kernel(segments.push(seg)) <==> has_kernel(segments) || is_kernel_segment(seg),
        has_kernel(seq![seg] + segments) <==> has_kernel(segments) || is_kernel_segment(seg),
{
    let pushed = segments.push(seg);
    if is_kernel_segment(seg) {
        assert(is_kernel_segment(pushed[segments.len() as int]));
    }
    if has_kernel(segments) {
        let i = choose|i: int| 0 <= i < segments.len() && is_kernel_segment(#[trigger] segments[i]);
        assert(is_kernel_segment(pushed[i]));
    }
    if has_kernel(pushed) {
        let i = choose|i: int| 0 <= i < pushed.len() && is_kernel_segment(#[trigger] pushed[i]);
        if i < segments.len() {
            assert(is_kernel_segment(segments[i]));
        }
    }
    let front = seq![seg] + segments;
    if is_kernel_segment(seg) {
        assert(is_kernel_segment(front[0]));
    }
    if has_kernel(segments) {
        let i = choose|i: int| 0 <= i < segments.len() && is_kernel_segment(#[trigger] segments[i]);
        assert(is_kernel_segment(front[i + 1]));
    }
    if has_kernel(front) {
        let i = choose|i: int| 0 <= i < front.len() && is_kernel_segment(#[trigger] front[i]);
        if i > 0 {
            assert(is_kernel_segment(segments[i - 1]));
        }
    }
}

/// The segments of the kernel image, or `None` where it is not an ELF image.
///
/// The kernel's entry segment is looked up by the name `kernel_start`, but
/// ELF segments carry no names and `object` names none of them, so no
/// segment of an image that parses is the entry segment, and the boot
/// sequence always stops there. That follows from how the lookup was
/// written, not from a design.
pub fn kernel_segments(kernel: &[u8]) -> (res: Option<Vec<SegmentInfo>>)
    ensures
        res is Some <==> elf_segment_ranges(kernel@) is Some,
        res matches Some(v) ==> {
            let ranges = elf_segment_ranges(kernel@).unwrap();
            &&& v@.len() == ranges.len()
            &&& forall|i: int| 0 <= i < v@.len() ==> (#[trigger] v@[i]).file_offset == ranges[i].0
                && v@[i].file_size == ranges[i].1 && v@[i].name is Unnamed
            &&& !has_kernel(v@)
        },
{
    let segments = elf_segments(kernel);
    proof {
        reveal_strlit("ERROR SEGMENTS NAME");
        reveal_strlit("kernel_start");
        if segments is Some {
            let v = segments->0@;
            assert forall|i: int| 0 <= i < v.len() implies !is_kernel_segment(#[trigger] v[i]) by {
                assert(segment_label(v[i]).len() != "kernel_start"@.len());
            }
        }
    }
    segments
}

/// Whether some segment is labelled `kernel_start`.
pub fn has_kernel_segment(segments: &Vec<SegmentInfo>) -> (res: bool)
    ensures
        res == has_kernel(segments@),
{
    let kernel_start = text("kernel_start");
    let mut i: usize = 0;
    while i < segments.len()
        invariant
            i <= segments@.len(),
            kernel_start@ == "kernel_start"@,
            forall|j: int| 0 <= j < i ==> !is_kernel_segment(#[trigger] segments@[j]),
        decreases segments@.len() - i,
    {
        let label = match &segments[i].name {
            SegmentName::Named(s) => s.clone(),
            _ => text("ERROR SEGMENTS NAME"),
        };
        assert(label@ == segment_label(segments@[i as int]));
        if label == kernel_start {
            assert(is_kernel_segment(segments@[i as int]));
            return true;
        }
        i = i + 1;
    }
    false
}

/// The file range (offset, size) of the last segment labelled `kernel_start`;
/// there is one.
pub fn find_kernel_range(segments: &Vec<SegmentInfo>) -> (res: (u64, u64))
    requires
        has_kernel(segments@),
    ensures
        exists|i: int|
            0 <= i < segments@.len() && is_kernel_segment(#[trigger] segments@[i])
                && res == (segments@[i].file_offset, segments@[i].file_size)
                && forall|j: int| i < j < segments@.len() ==> !is_kernel_segment(#[trigger] segments@[j]),
{
    let kernel_start = text("kernel_start");
    let mut found: Option<(u64, u64)> = None;
    let ghost mut at: int = -1;
    let mut i: usize = 0;
    while i < segments.len()
        invariant
            i <= segments@.len(),
            kernel_start@ == "kernel_start"@,
            found is None ==> forall|j: int| 0 <= j < i ==> !is_kernel_segment(#[trigger] segments@[j]),
            found matches Some(r) ==> 0 <= at < i && is_kernel_segment(segments@[at])
                && r == (segments@[at].file_offset, segments@[at].file_size)
                && forall|j: int| at < j < i ==> !is_kernel_segment(#[trigger] segments@[j]),
        decreases segments@.len() - i,
    {
        let seg = &segments[i];
        let label = match &seg.name {
            SegmentName::Named(s) => s.clone(),
            _ => text("ERROR SEGMENTS NAME"),
        };
        assert(label@ == segment_label(segments@[i as int]));
        if label == kernel_start {
            found = Some((seg.file_offset, seg.file_size));
            proof {
                at = i as int;
            }
        }
        i = i + 1;
    }
    match found {
        Some(r) => {
            assert(is_kernel_segment(segments@[at]));
            r
        },
        None => {
            proof {
                assert(false);
            }
            (0, 0)
        },
    }
}

} // verus!
