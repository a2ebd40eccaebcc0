use starting::engine::fs::{file_text, is_utf8};
use starting::engine::{alloc_error_catch, init_system, WatchdogRequest};
use starting::panic::panic_report;
use starting::tool::{push_decimal, text};

#[test]
fn alloc_error_message_names_size_and_alignment() {
    assert_eq!(alloc_error_catch(4096, 8), "Couldn't alloc memory! Size:4096 Align:8");
    assert_eq!(alloc_error_catch(0, 1), "Couldn't alloc memory! Size:0 Align:1");
}

#[test]
fn decimal_numbers() {
    for n in [0u64, 7, 10, 99, 100, 1234567890, u64::MAX] {
        let mut s = text("n=");
        push_decimal(&mut s, n);
        assert_eq!(s, format!("n={}", n));
    }
}

#[test]
fn watchdog_is_disabled() {
    assert_eq!(init_system(), WatchdogRequest { timeout: 0, watchdog_code: 0x10000 });
}

#[test]
fn panic_report_with_everything() {
    let r = panic_report(Some("boom"), Some("bad value 3"), Some(("src/main.rs", 42)));
    assert_eq!(
        r,
        "Starting panic!\nboom\nbad value 3\nAt file `src/main.rs` lines 42\nStarting stop working. Try reboot?\n"
    );
}

#[test]
fn panic_report_with_nothing() {
    assert_eq!(
        panic_report(None, None, None),
        "Starting panic!\nStarting stop working. Try reboot?\n"
    );
    assert_eq!(
        panic_report(None, Some("m"), None),
        "Starting panic!\nm\nStarting stop working. Try reboot?\n"
    );
}

#[test]
fn config_text_must_be_utf8() {
    assert_eq!(file_text(b"{\"EnableGop\":true}"), "{\"EnableGop\":true}");
    assert_eq!(file_text("héllo".as_bytes()), "héllo");
    assert!(is_utf8("héllo".as_bytes()));
    assert!(!is_utf8(&[0x66, 0xff, 0x66]));
    assert!(!is_utf8(&[0xed, 0xa0, 0x80]));
    assert!(is_utf8(&[]));
    assert_eq!(file_text(&[]), "");
}
