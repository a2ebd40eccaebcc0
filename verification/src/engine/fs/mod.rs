//! Disks and file systems.
pub mod disk;
pub mod fat32;

use vstd::prelude::*;
#[allow(unused_imports)]
use vstd::utf8::{decode_utf8, valid_utf8};

verus! {

/// Path of the configuration file on the boot volume.
pub const CONFIG_PATH: &'static str = "\\starting\\config.json";

/// Calls `core::str::from_utf8`, which accepts exactly the valid UTF-8
/// byte strings and reads them as text.
#[verifier::external_body]
fn str_from_utf8(bytes: &[u8]) -> (res: Option<&str>)
    ensures
        res is Some <==> valid_utf8(bytes@),
        res matches Some(s) ==> s@ == decode_utf8(bytes@),
{
    core::str::from_utf8(bytes).ok()
}

/// Whether the bytes of a file are valid UTF-8.
pub fn is_utf8(bytes: &[u8]) -> (ok: bool)
    ensures
        ok == valid_utf8(bytes@),
{
    str_from_utf8(bytes).is_some()
}

/// The text of a file read from the boot volume, whose bytes are UTF-8.
pub fn file_text(bytes: &[u8]) -> (text: String)
    requires
        valid_utf8(bytes@),
    ensures
        text@ == decode_utf8(bytes@),
{
    match str_from_utf8(bytes) {
        Some(s) => crate::tool::text(s),
        None => {
            proof {
                assert(false);
            }
            String::new()
        },
    }
}

} // verus!
