//! The GUID partition table: its header, its entries, and the scan that
//! walks the entry array block by block.
use vstd::prelude::*;
use crate::bytes::{
    byte_of, pow256, le_value, lemma_le_value_bound, lemma_le_value_bytes, lemma_pow256_values, read_u32_le,
    read_u64_le, read_u128_le,
};

verus! {

/// The number of bytes of a GPT header that are read.
pub const GPT_HEADER_LEN: usize = 92;

/// The only partition entry size that is supported.
pub const PARTITION_ITEM_SIZE: usize = 128;

/// The only GPT revision that is supported (1.0).
pub const GPT_REVISION: u32 = 0x0001_0000;

/// The GPT header, as stored on the second block of the disk.
#[derive(Debug, Clone)]
pub struct GptHeaderInfo {
    /// Signature ("EFI PART").
    pub signed: u64,
    /// Revision.
    pub version: u32,
    /// Header size.
    pub size: u32,
    /// Header CRC32.
    pub crc32: u32,
    /// Reserved, zero.
    pub keep: u32,
    /// The block that holds this header.
    pub my_lba: u64,
    /// The block that holds the backup header.
    pub backup_lba: u64,
    /// First block usable by partitions.
    pub partition_begin_lba: u64,
    /// Last block usable by partitions.
    pub partition_end_lba: u64,
    /// Disk GUID.
    pub disk_guid: u128,
    /// First block of the partition entry array.
    pub partition_item_lba: u64,
    /// Number of partition entries.
    pub partition_item_count: u32,
    /// Size of one partition entry.
    pub partition_item_size: u32,
    /// CRC32 of the partition entry array.
    pub partition_item_crc32: u32,
}

/// One entry of the partition entry array.
#[derive(Debug, Clone)]
pub struct PartitionItem {
    /// Partition type GUID; zero marks an unused entry.
    pub partition_type: u128,
    /// Unique partition GUID.
    pub partition_guid: u128,
    /// First block of the partition.
    pub begin_lba: u64,
    /// Last block of the partition.
    pub end_lba: u64,
    /// Attribute flags.
    pub attributes: u64,
    /// The partition name, decoded from its 36 UTF-16 code units.
    pub utf16_name: String,
}

/// The little-endian number stored in `width` bytes of `block` at `start`.
pub open spec fn le_at(block: Seq<u8>, start: int, width: int) -> nat {
    le_value(block.subrange(start, start + width))
}

/// `h` holds the fields of the GPT header stored at the start of `block`.
pub open spec fn gpt_header_layout(h: GptHeaderInfo, block: Seq<u8>) -> bool {
    &&& h.signed == le_at(block, 0, 8)
    &&& h.version == le_at(block, 8, 4)
    &&& h.size == le_at(block, 12, 4)
    &&& h.crc32 == le_at(block, 16, 4)
    &&& h.keep == le_at(block, 20, 4)
    &&& h.my_lba == le_at(block, 24, 8)
    &&& h.backup_lba == le_at(block, 32, 8)
    &&& h.partition_begin_lba == le_at(block, 40, 8)
    &&& h.partition_end_lba == le_at(block, 48, 8)
    &&& h.disk_guid == le_at(block, 56, 16)
    &&& h.partition_item_lba == le_at(block, 72, 8)
    &&& h.partition_item_count == le_at(block, 80, 4)
    &&& h.partition_item_size == le_at(block, 84, 4)
    &&& h.partition_item_crc32 == le_at(block, 88, 4)
}

/// The bytes `start .. start + width` of `block` are, in order, the bytes of
/// `v` from the least significant one up.
pub open spec fn holds_bytes(v: int, block: Seq<u8>, start: int, width: int) -> bool {
    forall|k: int| 0 <= k < width ==> #[trigger] byte_of(v, k as nat) == block[start + k]
}

/// A little-endian field read from `block` gives back each of its bytes.
pub proof fn lemma_le_at_holds_bytes(block: Seq<u8>, start: int, width: int)
    requires
        0 <= start,
        0 <= width,
        start + width <= block.len(),
    ensures
        holds_bytes(le_at(block, start, width) as int, block, start, width),
{
    let sub = block.subrange(start, start + width);
    lemma_le_value_bytes(sub);
    assert forall|k: int| 0 <= k < width implies #[trigger] byte_of(le_at(block, start, width) as int, k as nat)
        == block[start + k] by {
        assert(sub[k] == block[start + k]);
    }
}

/// Every field of a GPT header holds, least significant byte first, all of
/// the bytes of its place in the block: 8 bytes for the signature and the
/// block numbers, 4 for the revision, sizes, counts and checksums, 16 for the
/// disk GUID.
pub proof fn lemma_gpt_header_fields_hold_bytes(h: GptHeaderInfo, block: Seq<u8>)
    requires
        block.len() >= GPT_HEADER_LEN,
        gpt_header_layout(h, block),
    ensures
        holds_bytes(h.signed as int, block, 0, 8),
        holds_bytes(h.version as int, block, 8, 4),
        holds_bytes(h.size as int, block, 12, 4),
        holds_bytes(h.crc32 as int, block, 16, 4),
        holds_bytes(h.keep as int, block, 20, 4),
        holds_bytes(h.my_lba as int, block, 24, 8),
        holds_bytes(h.backup_lba as int, block, 32, 8),
        holds_bytes(h.partition_begin_lba as int, block, 40, 8),
        holds_bytes(h.partition_end_lba as int, block, 48, 8),
        holds_bytes(h.disk_guid as int, block, 56, 16),
        holds_bytes(h.partition_item_lba as int, block, 72, 8),
        holds_bytes(h.partition_item_count as int, block, 80, 4),
        holds_bytes(h.partition_item_size as int, block, 84, 4),
        holds_bytes(h.partition_item_crc32 as int, block, 88, 4),
{
    lemma_le_at_holds_bytes(block, 0, 8);
    lemma_le_at_holds_bytes(block, 8, 4);
    lemma_le_at_holds_bytes(block, 12, 4);
    lemma_le_at_holds_bytes(block, 16, 4);
    lemma_le_at_holds_bytes(block, 20, 4);
    lemma_le_at_holds_bytes(block, 24, 8);
    lemma_le_at_holds_bytes(block, 32, 8);
    lemma_le_at_holds_bytes(block, 40, 8);
    lemma_le_at_holds_bytes(block, 48, 8);
    lemma_le_at_holds_bytes(block, 56, 16);
    lemma_le_at_holds_bytes(block, 72, 8);
    lemma_le_at_holds_bytes(block, 80, 4);
    lemma_le_at_holds_bytes(block, 84, 4);
    lemma_le_at_holds_bytes(block, 88, 4);
}

/// A GPT header is read from the first 92 bytes of its block alone: blocks
/// that agree there hold the same header.
pub proof fn lemma_header_reads_prefix(h: GptHeaderInfo, a: Seq<u8>, b: Seq<u8>)
    requires
        a.len() >= GPT_HEADER_LEN,
        b.len() >= GPT_HEADER_LEN,
        a.subrange(0, 92) == b.subrange(0, 92),
    ensures
        gpt_header_layout(h, a) <==> gpt_header_layout(h, b),
{
    assert forall|lo: int, hi: int| 0 <= lo <= hi <= 92 implies #[trigger] a.subrange(lo, hi)
        == b.subrange(lo, hi) by {
        assert(a.subrange(lo, hi) =~= a.subrange(0, 92).subrange(lo, hi));
        assert(b.subrange(lo, hi) =~= b.subrange(0, 92).subrange(lo, hi));
    }
    assert(a.subrange(0, 8) == b.subrange(0, 8));
    assert(a.subrange(8, 12) == b.subrange(8, 12));
    assert(a.subrange(12, 16) == b.subrange(12, 16));
    assert(a.subrange(16, 20) == b.subrange(16, 20));
    assert(a.subrange(20, 24) == b.subrange(20, 24));
    assert(a.subrange(24, 32) == b.subrange(24, 32));
    assert(a.subrange(32, 40) == b.subrange(32, 40));
    assert(a.subrange(40, 48) == b.subrange(40, 48));
    assert(a.subrange(48, 56) == b.subrange(48, 56));
    assert(a.subrange(56, 72) == b.subrange(56, 72));
    assert(a.subrange(72, 80) == b.subrange(72, 80));
    assert(a.subrange(80, 84) == b.subrange(80, 84));
    assert(a.subrange(84, 88) == b.subrange(84, 88));
    assert(a.subrange(88, 92) == b.subrange(88, 92));
}

/// Reads the GPT header from the block that holds it, which must hold at
/// least the 92 bytes of a header.
pub fn parse_gpt_header(block: &[u8]) -> (h: GptHeaderInfo)
    requires
        block@.len() >= GPT_HEADER_LEN,
    ensures
        gpt_header_layout(h, block@),
{
    GptHeaderInfo {
        signed: read_u64_le(block, 0),
        version: read_u32_le(block, 8),
        size: read_u32_le(block, 12),
        crc32: read_u32_le(block, 16),
        keep: read_u32_le(block, 20),
        my_lba: read_u64_le(block, 24),
        backup_lba: read_u64_le(block, 32),
        partition_begin_lba: read_u64_le(block, 40),
        partition_end_lba: read_u64_le(block, 48),
        disk_guid: read_u128_le(block, 56),
        partition_item_lba: read_u64_le(block, 72),
        partition_item_count: read_u32_le(block, 80),
        partition_item_size: read_u32_le(block, 84),
        partition_item_crc32: read_u32_le(block, 88),
    }
}

/// The UTF-16 code units stored little-endian in `bytes`, two bytes each.
pub open spec fn utf16_units(bytes: Seq<u8>) -> Seq<u16> {
    Seq::new(bytes.len() / 2, |k: int| (bytes[2 * k] + 256 * bytes[2 * k + 1]) as u16)
}

/// Each UTF-16 code unit is made of two bytes, the low byte first.
pub proof fn lemma_utf16_units_bytes(bytes: Seq<u8>)
    ensures
        utf16_units(bytes).len() == bytes.len() / 2,
        forall|k: int| 0 <= k < bytes.len() / 2 ==> #[trigger] utf16_units(bytes)[k] % 256 == bytes[2 * k]
            && utf16_units(bytes)[k] / 256 == bytes[2 * k + 1],
{
    assert forall|k: int| 0 <= k < bytes.len() / 2 implies #[trigger] utf16_units(bytes)[k] % 256
        == bytes[2 * k] && utf16_units(bytes)[k] / 256 == bytes[2 * k + 1] by {
        let lo = bytes[2 * k] as int;
        let hi = bytes[2 * k + 1] as int;
        assert(utf16_units(bytes)[k] as int == hi * 256 + lo);
        vstd::arithmetic::div_mod::lemma_fundamental_div_mod_converse(hi * 256 + lo, 256, hi, lo);
    }
}

/// Splits the 72 name bytes of a partition entry into 36 UTF-16 code units.
pub fn convert_partition_utf16_name(raw: &[u8; 72]) -> (result: [u16; 36])
    ensures
        result@ == utf16_units(raw@),
{
    let mut result: [u16; 36] = [0u16; 36];
    let mut p: usize = 0;
    let mut p2: usize = 0;
    while p < 72
        invariant
            p == 2 * p2,
            p <= 72,
            result@.len() == 36,
            forall|k: int|
                0 <= k < p2 ==> result@[k] == (raw@[2 * k] + 256 * raw@[2 * k + 1]) as u16,
        decreases 72 - p,
    {
        let lo = raw[p] as u16;
        let hi = raw[p + 1] as u16;
        result[p2] = lo + hi * 256;
        p = p + 2;
        p2 = p2 + 1;
    }
    assert(result@ =~= utf16_units(raw@));
    result
}

/// The text that a run of UTF-16 code units encodes, or `None` where a
/// surrogate is unpaired.
pub open spec fn utf16_decode(units: Seq<u16>) -> Option<Seq<char>>
    decreases units.len(),
{
    if units.len() == 0 {
        Some(Seq::empty())
    } else if units[0] < 0xD800 || units[0] > 0xDFFF {
        match utf16_decode(units.drop_first()) {
            Some(rest) => Some(seq![units[0] as char] + rest),
            None => None,
        }
    } else if units[0] <= 0xDBFF && units.len() >= 2 && 0xDC00 <= units[1] <= 0xDFFF {
        match utf16_decode(units.skip(2)) {
            Some(rest) => Some(
                seq![(0x10000 + (units[0] - 0xD800) * 0x400 + (units[1] - 0xDC00)) as char] + rest,
            ),
            None => None,
        }
    } else {
        None
    }
}

/// Code units that are not surrogates each decode to the character of
/// the same number.
pub proof fn lemma_utf16_without_surrogates(units: Seq<u16>)
    requires
        forall|i: int| 0 <= i < units.len() ==> #[trigger] units[i] < 0xD800 || units[i] > 0xDFFF,
    ensures
        utf16_decode(units) == Some(units.map_values(|u: u16| u as char)),
    decreases units.len(),
{
    if units.len() > 0 {
        let rest = units.drop_first();
        assert forall|i: int| 0 <= i < rest.len() implies #[trigger] rest[i] < 0xD800 || rest[i] > 0xDFFF by {
            assert(rest[i] == units[i + 1]);
        }
        lemma_utf16_without_surrogates(rest);
        assert(units.map_values(|u: u16| u as char) =~= seq![units[0] as char] + rest.map_values(
            |u: u16| u as char,
        ));
    } else {
        assert(units.map_values(|u: u16| u as char) =~= Seq::<char>::empty());
    }
}

/// Calls `String::from_utf16`, which decodes UTF-16 and fails exactly where
/// a surrogate is unpaired; the contract states that decoding.
#[verifier::external_body]
fn string_from_utf16(units: &[u16]) -> (res: Option<String>)
    ensures
        res is Some <==> utf16_decode(units@) is Some,
        res matches Some(s) ==> s@ == utf16_decode(units@).unwrap(),
{
    String::from_utf16(units).ok()
}

/// `item` holds the fields of the partition entry stored in `block` at `offset`.
pub open spec fn partition_item_layout(item: PartitionItem, block: Seq<u8>, offset: int) -> bool {
    &&& item.partition_type == le_at(block, offset, 16)
    &&& item.partition_guid == le_at(block, offset + 16, 16)
    &&& item.begin_lba == le_at(block, offset + 32, 8)
    &&& item.end_lba == le_at(block, offset + 40, 8)
    &&& item.attributes == le_at(block, offset + 48, 8)
    &&& utf16_decode(utf16_units(block.subrange(offset + 56, offset + 128))) == Some(
        item.utf16_name@,
    )
}

/// Every number of a partition entry holds, least significant byte first,
/// all of the bytes of its place in the block (16 for each GUID, 8 for the
/// block numbers and the attributes); and a name without surrogates is its
/// 36 code units, each made of two bytes, low byte first.
pub proof fn lemma_partition_item_fields_hold_bytes(item: PartitionItem, block: Seq<u8>, offset: int)
    requires
        0 <= offset,
        offset + PARTITION_ITEM_SIZE <= block.len(),
        partition_item_layout(item, block, offset),
    ensures
        holds_bytes(item.partition_type as int, block, offset, 16),
        holds_bytes(item.partition_guid as int, block, offset + 16, 16),
        holds_bytes(item.begin_lba as int, block, offset + 32, 8),
        holds_bytes(item.end_lba as int, block, offset + 40, 8),
        holds_bytes(item.attributes as int, block, offset + 48, 8),
        (forall|k: int| 0 <= k < 36 ==> {
            let unit = #[trigger] block[offset + 56 + 2 * k] + 256 * block[offset + 57 + 2 * k];
            unit < 0xD800 || unit > 0xDFFF
        }) ==> {
            &&& item.utf16_name@.len() == 36
            &&& forall|k: int| 0 <= k < 36 ==> #[trigger] item.utf16_name@[k] as int
                == block[offset + 56 + 2 * k] + 256 * block[offset + 57 + 2 * k]
        },
{
    lemma_le_at_holds_bytes(block, offset, 16);
    lemma_le_at_holds_bytes(block, offset + 16, 16);
    lemma_le_at_holds_bytes(block, offset + 32, 8);
    lemma_le_at_holds_bytes(block, offset + 40, 8);
    lemma_le_at_holds_bytes(block, offset + 48, 8);
    let raw = block.subrange(offset + 56, offset + 128);
    let units = utf16_units(raw);
    assert(units.len() == 36);
    assert forall|k: int| 0 <= k < 36 implies units[k] == block[offset + 56 + 2 * k] + 256 * block[
        offset + 57 + 2 * k] by {
        assert(raw[2 * k] == block[offset + 56 + 2 * k]);
        assert(raw[2 * k + 1] == block[offset + 57 + 2 * k]);
    }
    if forall|k: int| 0 <= k < 36 ==> {
        let unit = #[trigger] block[offset + 56 + 2 * k] + 256 * block[offset + 57 + 2 * k];
        unit < 0xD800 || unit > 0xDFFF
    } {
        assert forall|i: int| 0 <= i < units.len() implies #[trigger] units[i] < 0xD800 || units[i]
            > 0xDFFF by {
            assert(units[i] == block[offset + 56 + 2 * i] + 256 * block[offset + 57 + 2 * i]);
        }
        lemma_utf16_without_surrogates(units);
        assert forall|k: int| 0 <= k < 36 implies #[trigger] item.utf16_name@[k] as int == block[offset
            + 56 + 2 * k] + 256 * block[offset + 57 + 2 * k] by {
            assert(units[k] == block[offset + 56 + 2 * k] + 256 * block[offset + 57 + 2 * k]);
            assert(item.utf16_name@[k] == units[k] as char);
        }
    }
}

/// The name of the entry at `offset` decodes as UTF-16.
pub open spec fn partition_name_valid(block: Seq<u8>, offset: int) -> bool {
    utf16_decode(utf16_units(block.subrange(offset + 56, offset + 128))) is Some
}

/// Reads the partition entry stored in `block` at byte `offset`; the entry
/// lies within the block and its name is valid UTF-16.
pub fn parse_partition_item(block: &[u8], offset: usize) -> (item: PartitionItem)
    requires
        offset + PARTITION_ITEM_SIZE <= block@.len(),
        partition_name_valid(block@, offset as int),
    ensures
        partition_item_layout(item, block@, offset as int),
{
    let n = block.len();
    assert(offset + 128 <= n);
    let raw = name_bytes(block, offset);
    let units = convert_partition_utf16_name(&raw);
    let name = string_from_utf16(units.as_slice());
    match name {
        Some(utf16_name) => PartitionItem {
            partition_type: read_u128_le(block, offset),
            partition_guid: read_u128_le(block, offset + 16),
            begin_lba: read_u64_le(block, offset + 32),
            end_lba: read_u64_le(block, offset + 40),
            attributes: read_u64_le(block, offset + 48),
            utf16_name,
        },
        None => {
            proof {
                assert(false);
            }
            PartitionItem {
                partition_type: 0,
                partition_guid: 0,
                begin_lba: 0,
                end_lba: 0,
                attributes: 0,
                utf16_name: String::new(),
            }
        },
    }
}

/// Whether the name of the entry stored in `block` at byte `offset` is valid
/// UTF-16; the entry lies within the block.
pub fn partition_name_ok(block: &[u8], offset: usize) -> (ok: bool)
    requires
        offset + PARTITION_ITEM_SIZE <= block@.len(),
    ensures
        ok == partition_name_valid(block@, offset as int),
{
    let raw = name_bytes(block, offset);
    let units = convert_partition_utf16_name(&raw);
    string_from_utf16(units.as_slice()).is_some()
}

/// The 72 name bytes of the entry stored in `block` at byte `offset`.
fn name_bytes(block: &[u8], offset: usize) -> (raw: [u8; 72])
    requires
        offset + PARTITION_ITEM_SIZE <= block@.len(),
    ensures
        raw@ == block@.subrange(offset + 56, offset + 128),
{
    let n = block.len();
    let mut raw: [u8; 72] = [0u8; 72];
    let mut i: usize = 0;
    while i < 72
        invariant
            i <= 72,
            n == block@.len(),
            offset + 128 <= n,
            raw@.len() == 72,
            forall|k: int| 0 <= k < i ==> raw@[k] == block@[offset + 56 + k],
        decreases 72 - i,
    {
        raw[i] = block[offset + 56 + i];
        i = i + 1;
    }
    assert(raw@ =~= block@.subrange(offset + 56, offset + 128));
    raw
}

/// Where the partition entry array is walked to, one entry at a time.
///
/// The entry array is read one block at a time: the entry that follows the
/// last one of a block is taken from offset 0 of the next block.
#[derive(Debug, PartialEq, Eq, Structural)]
pub struct PartitionScan {
    /// First block of the entry array.
    pub start_lba: u64,
    /// The block that holds the current position.
    pub lba: u64,
    /// Byte offset of the current position within its block.
    pub offset: usize,
    /// Size of a disk block in bytes.
    pub block_size: usize,
    /// Number of entries to read.
    pub count: usize,
    /// Number of entries read so far.
    pub done: usize,
}

/// Block, counted from the start of the entry array, that holds entry `k`
/// when a block holds `per` entries.
pub open spec fn entry_block(per: int, k: int) -> int {
    k / per
}

/// Byte offset within its block of entry `k` when a block holds `per` entries.
pub open spec fn entry_offset(per: int, k: int) -> int {
    (k % per) * 128
}

impl PartitionScan {
    /// The position lies within the block and no more entries were read than asked for.
    pub open spec fn wf(&self) -> bool {
        &&& self.offset <= self.block_size
        &&& self.done <= self.count
    }

    /// A block holds a whole, positive number of entries.
    pub open spec fn aligned(&self) -> bool {
        &&& self.block_size > 0
        &&& self.block_size % 128 == 0
    }

    /// Entries per block.
    pub open spec fn per_block(&self) -> int {
        self.block_size as int / 128
    }

    /// The position is at the start of entry `k`.
    pub open spec fn at_entry(&self, k: int) -> bool {
        &&& self.lba == self.start_lba + entry_block(self.per_block(), k)
        &&& self.offset == entry_offset(self.per_block(), k)
    }

    /// The position is just past entry `k`.
    pub open spec fn past_entry(&self, k: int) -> bool {
        &&& self.lba == self.start_lba + entry_block(self.per_block(), k)
        &&& self.offset == entry_offset(self.per_block(), k) + 128
    }

    /// The position is where entry `done` starts, or just past entry `done - 1`.
    pub open spec fn tracks_entries(&self) -> bool {
        &&& self.aligned()
        &&& self.at_entry(self.done as int) || (self.done > 0 && self.past_entry(
            self.done - 1,
        ))
    }

    /// Picks the block that holds the next entry, moving on to the next block
    /// once the current one is used up. `None` once every entry was read.
    /// Moving on needs a next block number.
    pub fn next_block(&mut self) -> (res: Option<u64>)
        requires
            old(self).wf(),
            old(self).done < old(self).count && old(self).offset == old(self).block_size
                ==> old(self).lba < u64::MAX,
        ensures
            final(self).wf(),
            old(self).done == old(self).count ==> res == None::<u64> && *final(self) == *old(self),
            old(self).done < old(self).count && old(self).offset != old(self).block_size ==> res
                == Some(old(self).lba) && *final(self) == *old(self),
            old(self).done < old(self).count && old(self).offset == old(self).block_size ==> res
                == Some((old(self).lba + 1) as u64) && *final(self) == (PartitionScan {
                lba: (old(self).lba + 1) as u64,
                offset: 0,
                ..*old(self)
            }),
            old(self).tracks_entries() ==> final(self).tracks_entries(),
            old(self).tracks_entries() ==> (res matches Some(l) ==> {
                &&& l == old(self).start_lba + entry_block(old(self).per_block(), old(self).done as int)
                &&& final(self).at_entry(old(self).done as int)
            }),
    {
        if self.done == self.count {
            return None;
        }
        if self.offset == self.block_size {
            proof {
                if self.tracks_entries() {
                    let per = self.per_block();
                    let k = self.done as int;
                    assert(per * 128 == self.block_size);
                    if self.at_entry(k) {
                        lemma_index_step(k, per);
                        assert(false);
                    }
                    lemma_index_step(k - 1, per);
                }
            }
            self.lba = self.lba + 1;
            self.offset = 0;
        } else {
            proof {
                if self.tracks_entries() {
                    let per = self.per_block();
                    let k = self.done as int;
                    assert(per * 128 == self.block_size);
                    if !self.at_entry(k) {
                        lemma_index_step(k - 1, per);
                    }
                }
            }
        }
        Some(self.lba)
    }

    /// Reads the entry at the current position of `block` (the block that
    /// `next_block` named) and moves past it. The entry lies within the block
    /// and its name is valid UTF-16.
    pub fn accept(&mut self, block: &[u8]) -> (item: PartitionItem)
        requires
            old(self).wf(),
            old(self).done < old(self).count,
            block@.len() == old(self).block_size,
            old(self).offset + PARTITION_ITEM_SIZE <= block@.len(),
            partition_name_valid(block@, old(self).offset as int),
        ensures
            final(self).wf(),
            partition_item_layout(item, block@, old(self).offset as int),
            *final(self) == (PartitionScan {
                offset: (old(self).offset + PARTITION_ITEM_SIZE) as usize,
                done: (old(self).done + 1) as usize,
                ..*old(self)
            }),
            old(self).tracks_entries() && old(self).at_entry(old(self).done as int) ==> {
                &&& final(self).tracks_entries()
                &&& partition_item_layout(
                    item,
                    block@,
                    entry_offset(old(self).per_block(), old(self).done as int),
                )
            },
    {
        let item = parse_partition_item(block, self.offset);
        self.offset = self.offset + PARTITION_ITEM_SIZE;
        self.done = self.done + 1;
        item
    }
}

/// Moving from entry `k` to entry `k + 1` either stays in the same block,
/// one entry further, or starts the next block at its first entry.
proof fn lemma_index_step(k: int, per: int)
    requires
        per > 0,
        k >= 0,
    ensures
        0 <= k % per < per,
        k % per + 1 < per ==> (k + 1) % per == k % per + 1 && (k + 1) / per == k / per,
        k % per + 1 == per ==> (k + 1) % per == 0 && (k + 1) / per == k / per + 1,
{
    vstd::arithmetic::div_mod::lemma_fundamental_div_mod(k, per);
    vstd::arithmetic::div_mod::lemma_mod_pos_bound(k, per);
    let q = k / per;
    let r = k % per;
    assert(k == q * per + r) by (nonlinear_arith)
        requires
            k == per * q + r,
    ;
    if r + 1 < per {
        vstd::arithmetic::div_mod::lemma_fundamental_div_mod_converse(k + 1, per, q, r + 1);
    } else {
        assert(k + 1 == (q + 1) * per + 0) by (nonlinear_arith)
            requires
                k == q * per + r,
                r + 1 == per,
        ;
        vstd::arithmetic::div_mod::lemma_fundamental_div_mod_converse(k + 1, per, q + 1, 0);
    }
}

/// Walking the entry array block by block reads it contiguously: entry `k`
/// starts `k * 128` bytes after the start of the array, inside its block.
pub proof fn lemma_entry_position(per: int, k: int)
    requires
        per > 0,
        k >= 0,
    ensures
        entry_block(per, k) * (per * 128) + entry_offset(per, k) == k * 128,
        0 <= entry_offset(per, k),
        entry_offset(per, k) + 128 <= per * 128,
{
    vstd::arithmetic::div_mod::lemma_fundamental_div_mod(k, per);
    vstd::arithmetic::div_mod::lemma_mod_pos_bound(k, per);
    let q = k / per;
    let r = k % per;
    assert(q * (per * 128) + r * 128 == k * 128) by (nonlinear_arith)
        requires
            k == per * q + r,
    ;
}

/// Starts the walk at the first entry of the entry array. Only entries of
/// 128 bytes and GPT revision 1.0 are supported.
pub fn start_partition_scan(header: &GptHeaderInfo, block_size: u32) -> (scan: PartitionScan)
    requires
        header.partition_item_size == PARTITION_ITEM_SIZE,
        header.version == GPT_REVISION,
    ensures
        scan == (PartitionScan {
            start_lba: header.partition_item_lba,
            lba: header.partition_item_lba,
            offset: 0,
            block_size: block_size as usize,
            count: header.partition_item_count as usize,
            done: 0,
        }),
        scan.wf(),
        scan.aligned() ==> scan.tracks_entries(),
{
    let scan = PartitionScan {
        start_lba: header.partition_item_lba,
        lba: header.partition_item_lba,
        offset: 0,
        block_size: block_size as usize,
        count: header.partition_item_count as usize,
        done: 0,
    };
    proof {
        if scan.aligned() {
            lemma_index_step(0, scan.per_block());
        }
    }
    scan
}

/// Indices, in order, of the entries that are in use (non-zero type GUID).
pub fn used_partitions(items: &Vec<PartitionItem>) -> (res: Vec<usize>)
    ensures
        forall|j: int|
            #![trigger res@[j]]
            0 <= j < res@.len() ==> res@[j] < items@.len() && items@[res@[j] as int].partition_type != 0,
        forall|j: int, k: int| 0 <= j < k < res@.len() ==> res@[j] < res@[k],
        forall|i: int| 0 <= i < items@.len() && items@[i].partition_type != 0 ==> res@.contains(i as usize),
{
    let mut res: Vec<usize> = Vec::new();
    let mut i: usize = 0;
    while i < items.len()
        invariant
            i <= items@.len(),
            forall|j: int|
                #![trigger res@[j]]
                0 <= j < res@.len() ==> res@[j] < i && items@[res@[j] as int].partition_type != 0,
            forall|j: int, k: int| 0 <= j < k < res@.len() ==> res@[j] < res@[k],
            forall|m: int| 0 <= m < i && items@[m].partition_type != 0 ==> res@.contains(m as usize),
        decreases items@.len() - i,
    {
        let ghost before = res@;
        if items[i].partition_type != 0 {
            res.push(i);
            assert(res@[res@.len() - 1] == i);
        }
        assert forall|m: int| 0 <= m < i && items@[m].partition_type != 0 implies res@.contains(
            m as usize,
        ) by {
            let j = choose|j: int| 0 <= j < before.len() && before[j] == m as usize;
            assert(res@[j] == before[j]);
        }
        i = i + 1;
    }
    res
}

/// The 16 bytes of a GUID in the order in which its text writes them, from
/// its 128-bit value with the most significant byte first.
pub open spec fn guid_text_bytes(v: u128) -> Seq<u8> {
    Seq::new(16, |k: int| ((v >> (8 * (15 - k)) as u128) & 0xff) as u8)
}

/// The order in which GPT stores the bytes of a GUID: its first three
/// fields (4, 2 and 2 bytes) little-endian, the last 8 bytes as written.
pub open spec fn gpt_byte_order(b: Seq<u8>) -> Seq<u8> {
    seq![b[3], b[2], b[1], b[0], b[5], b[4], b[7], b[6]] + b.subrange(8, 16)
}

/// The value that `parse_partition_item` and `parse_gpt_header` read from
/// disk for the GUID whose text value (most significant byte first) is `text_value`.
pub open spec fn gpt_guid(text_value: u128) -> u128 {
    le_value(gpt_byte_order(guid_text_bytes(text_value))) as u128
}

/// Byte `m` (from the least significant) of `v`, picked out by a shift and a mask.
proof fn lemma_shifted_byte(v: u128, m: int)
    requires
        0 <= m < 16,
    ensures
        ((v >> (8 * m) as u128) & 0xff) as int == byte_of(v as int, m as nat),
{
    reveal_with_fuel(crate::bytes::pow256, 17);
    if m == 0 {
        assert((v >> 0u128) & 0xff == (v / 0x1) % 0x100) by (bit_vector);
        assert(pow256(0) == 0x1);
        assert((8 * m) as u128 == 0u128);
    } else if m == 1 {
        assert((v >> 8u128) & 0xff == (v / 0x100) % 0x100) by (bit_vector);
        assert(pow256(1) == 0x100);
        assert((8 * m) as u128 == 8u128);
    } else if m == 2 {
        assert((v >> 16u128) & 0xff == (v / 0x10000) % 0x100) by (bit_vector);
        assert(pow256(2) == 0x10000);
        assert((8 * m) as u128 == 16u128);
    } else if m == 3 {
        assert((v >> 24u128) & 0xff == (v / 0x1000000) % 0x100) by (bit_vector);
        assert(pow256(3) == 0x1000000);
        assert((8 * m) as u128 == 24u128);
    } else if m == 4 {
        assert((v >> 32u128) & 0xff == (v / 0x100000000) % 0x100) by (bit_vector);
        assert(pow256(4) == 0x100000000);
        assert((8 * m) as u128 == 32u128);
    } else if m == 5 {
        assert((v >> 40u128) & 0xff == (v / 0x10000000000) % 0x100) by (bit_vector);
        assert(pow256(5) == 0x10000000000);
        assert((8 * m) as u128 == 40u128);
    } else if m == 6 {
        assert((v >> 48u128) & 0xff == (v / 0x1000000000000) % 0x100) by (bit_vector);
        assert(pow256(6) == 0x1000000000000);
        assert((8 * m) as u128 == 48u128);
    } else if m == 7 {
        assert((v >> 56u128) & 0xff == (v / 0x100000000000000) % 0x100) by (bit_vector);
        assert(pow256(7) == 0x100000000000000);
        assert((8 * m) as u128 == 56u128);
    } else if m == 8 {
        assert((v >> 64u128) & 0xff == (v / 0x10000000000000000) % 0x100) by (bit_vector);
        assert(pow256(8) == 0x10000000000000000);
        assert((8 * m) as u128 == 64u128);
    } else if m == 9 {
        assert((v >> 72u128) & 0xff == (v / 0x1000000000000000000) % 0x100) by (bit_vector);
        assert(pow256(9) == 0x1000000000000000000);
        assert((8 * m) as u128 == 72u128);
    } else if m == 10 {
        assert((v >> 80u128) & 0xff == (v / 0x100000000000000000000) % 0x100) by (bit_vector);
        assert(pow256(10) == 0x100000000000000000000);
        assert((8 * m) as u128 == 80u128);
    } else if m == 11 {
        assert((v >> 88u128) & 0xff == (v / 0x10000000000000000000000) % 0x100) by (bit_vector);
        assert(pow256(11) == 0x10000000000000000000000);
        assert((8 * m) as u128 == 88u128);
    } else if m == 12 {
        assert((v >> 96u128) & 0xff == (v / 0x1000000000000000000000000) % 0x100) by (bit_vector);
        assert(pow256(12) == 0x1000000000000000000000000);
        assert((8 * m) as u128 == 96u128);
    } else if m == 13 {
        assert((v >> 104u128) & 0xff == (v / 0x100000000000000000000000000) % 0x100) by (bit_vector);
        assert(pow256(13) == 0x100000000000000000000000000);
        assert((8 * m) as u128 == 104u128);
    } else if m == 14 {
        assert((v >> 112u128) & 0xff == (v / 0x10000000000000000000000000000) % 0x100) by (bit_vector);
        assert(pow256(14) == 0x10000000000000000000000000000);
        assert((8 * m) as u128 == 112u128);
    } else {
        assert((v >> 120u128) & 0xff == (v / 0x1000000000000000000000000000000) % 0x100) by (bit_vector);
        assert(pow256(15) == 0x1000000000000000000000000000000);
        assert((8 * m) as u128 == 120u128);
    }
}

/// The GPT form of a GUID keeps the values of its first three fields (4, 2
/// and 2 bytes) and stores its last 8 bytes in text order: byte `k` of the
/// form read from disk is byte `src` of the text value, where `src` is
/// 12 + k, 6 + k, 2 + k or 15 - k for k in 0..4, 4..6, 6..8, 8..16.
pub proof fn lemma_gpt_guid_bytes(v: u128)
    ensures
        forall|k: int| 0 <= k < 4 ==> #[trigger] byte_of(gpt_guid(v) as int, k as nat) == byte_of(v as int, (12 + k) as nat),
        forall|k: int| 4 <= k < 6 ==> #[trigger] byte_of(gpt_guid(v) as int, k as nat) == byte_of(v as int, (6 + k) as nat),
        forall|k: int| 6 <= k < 8 ==> #[trigger] byte_of(gpt_guid(v) as int, k as nat) == byte_of(v as int, (2 + k) as nat),
        forall|k: int| 8 <= k < 16 ==> #[trigger] byte_of(gpt_guid(v) as int, k as nat) == byte_of(v as int, (15 - k) as nat),
{
    let t = guid_text_bytes(v);
    let d = gpt_byte_order(t);
    assert(d.len() == 16);
    lemma_le_value_bytes(d);
    lemma_le_value_bound(d);
    lemma_pow256_values();
    assert(gpt_guid(v) as int == le_value(d) as int);
    assert forall|j: int| 0 <= j < 16 implies #[trigger] t[j] as int == byte_of(v as int, (15 - j) as nat) by {
        lemma_shifted_byte(v, 15 - j);
    }
    assert forall|k: int| 0 <= k < 16 implies #[trigger] byte_of(gpt_guid(v) as int, k as nat) == d[k] by {}
    assert(d[0] == t[3] && d[1] == t[2] && d[2] == t[1] && d[3] == t[0]);
    assert(d[4] == t[5] && d[5] == t[4] && d[6] == t[7] && d[7] == t[6]);
    assert forall|k: int| 8 <= k < 16 implies d[k] == t[k] by {}
}

/// Converts a GUID from its text value to the value read from disk.
pub fn guid_to_gpt(text_value: u128) -> (r: u128)
    ensures
        r == gpt_guid(text_value),
{
    let mut b: Vec<u8> = Vec::new();
    let mut k: u32 = 0;
    while k < 16
        invariant
            k <= 16,
            b@.len() == k,
            forall|j: int| 0 <= j < k ==> b@[j] == guid_text_bytes(text_value)[j],
        decreases 16 - k,
    {
        let byte = ((text_value >> (8 * (15 - k))) & 0xff) as u8;
        b.push(byte);
        k = k + 1;
    }
    assert(b@ =~= guid_text_bytes(text_value));
    let d: Vec<u8> = vec![
        b[3], b[2], b[1], b[0], b[5], b[4], b[7], b[6],
        b[8], b[9], b[10], b[11], b[12], b[13], b[14], b[15],
    ];
    assert(d@ =~= gpt_byte_order(b@));
    assert(d@.subrange(0, 16) =~= d@);
    let r = read_u128_le(d.as_slice(), 0);
    proof {
        lemma_le_value_bound(d@);
        lemma_pow256_values();
    }
    r
}

/// The range (first block, last block) of the partition whose GUID is
/// `partition_guid`, on the disk whose GUID is `disk_guid`; both GUIDs are
/// given by their text value. `None` where the disk is another one or no
/// entry has that GUID.
pub fn find_partition(
    header: &GptHeaderInfo,
    items: &Vec<PartitionItem>,
    disk_guid: u128,
    partition_guid: u128,
) -> (res: Option<(u64, u64)>)
    ensures
        res is Some <==> header.disk_guid == gpt_guid(disk_guid) && exists|i: int|
            0 <= i < items@.len() && #[trigger] items@[i].partition_guid == gpt_guid(partition_guid),
        res matches Some(r) ==> exists|i: int|
            #![trigger items@[i]]
            0 <= i < items@.len() && items@[i].partition_guid == gpt_guid(partition_guid) && r == (
                items@[i].begin_lba,
                items@[i].end_lba,
            ) && forall|j: int| 0 <= j < i ==> #[trigger] items@[j].partition_guid != gpt_guid(
                partition_guid,
            ),
{
    let disk = guid_to_gpt(disk_guid);
    if header.disk_guid != disk {
        return None;
    }
    let wanted = guid_to_gpt(partition_guid);
    let mut i: usize = 0;
    while i < items.len()
        invariant
            i <= items@.len(),
            wanted == gpt_guid(partition_guid),
            header.disk_guid == gpt_guid(disk_guid),
            forall|j: int| 0 <= j < i ==> #[trigger] items@[j].partition_guid != wanted,
        decreases items@.len() - i,
    {
        if items[i].partition_guid == wanted {
            let r = (items[i].begin_lba, items[i].end_lba);
            assert(items@[i as int].partition_guid == wanted);
            return Some(r);
        }
        i = i + 1;
    }
    None
}

} // verus!
