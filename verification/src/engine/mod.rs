//! The boot engine: memory, watchdog, configuration, file systems and graphics.
pub mod cfg;
pub mod fs;
pub mod gop;

use vstd::prelude::*;
use crate::tool::{decimal, push_decimal, push_text};

verus! {

/// The firmware memory allocator. It takes its memory from the boot
/// services' pool, as loader data.
#[derive(Debug, Clone, Copy)]
pub struct UefiAllocator;

/// A call of the boot services' `SetWatchdogTimer`.
#[derive(Debug, PartialEq, Eq, Structural)]
pub struct WatchdogRequest {
    /// Seconds before the watchdog fires; zero disables it.
    pub timeout: usize,
    /// The code logged when it fires; 0 to 0xffff are reserved by the firmware.
    pub watchdog_code: u64,
}

/// The watchdog setting: disabled, with the first code that the firmware
/// does not reserve.
pub fn set_watchdog_timer() -> (r: WatchdogRequest)
    ensures
        r.timeout == 0,
        r.watchdog_code == 0xffff + 1,
{
    WatchdogRequest { timeout: 0, watchdog_code: 0xffff + 1 }
}

/// What the boot loader does to the firmware before anything else: it
/// disables the watchdog.
pub fn init_system() -> (r: WatchdogRequest)
    ensures
        r == (WatchdogRequest { timeout: 0, watchdog_code: 0x10000 }),
{
    set_watchdog_timer()
}

/// The text of the panic raised when an allocation fails.
pub open spec fn alloc_error_text(size: nat, align: nat) -> Seq<char> {
    "Couldn't alloc memory! Size:"@ + decimal(size) + " Align:"@ + decimal(align)
}

/// The message with which a failed allocation of `size` bytes aligned to
/// `align` stops the boot loader.
pub fn alloc_error_catch(size: usize, align: usize) -> (msg: String)
    ensures
        msg@ == alloc_error_text(size as nat, align as nat),
{
    let mut msg = String::new();
    push_text(&mut msg, "Couldn't alloc memory! Size:");
    push_decimal(&mut msg, size as u64);
    push_text(&mut msg, " Align:");
    push_decimal(&mut msg, align as u64);
    msg
}

} // verus!
