//! The report printed when the boot loader panics.
use vstd::prelude::*;
use crate::tool::{decimal, push_decimal, push_text};

verus! {

/// `t` followed by a line break, or nothing.
pub open spec fn line_or_nothing(t: Option<Seq<char>>) -> Seq<char> {
    match t {
        Some(s) => s + "\n"@,
        None => Seq::empty(),
    }
}

/// The line that names where the panic was raised, or nothing.
pub open spec fn location_line(location: Option<(Seq<char>, u32)>) -> Seq<char> {
    match location {
        Some((file, line)) => "At file `"@ + file + "` lines "@ + decimal(line as nat) + "\n"@,
        None => Seq::empty(),
    }
}

/// The whole panic report: a heading, the payload, the message, the place,
/// and a request to reboot.
pub open spec fn panic_report_text(
    payload: Option<Seq<char>>,
    message: Option<Seq<char>>,
    location: Option<(Seq<char>, u32)>,
) -> Seq<char> {
    "Starting panic!\n"@ + line_or_nothing(payload) + line_or_nothing(message) + location_line(
        location,
    ) + "Starting stop working. Try reboot?\n"@
}

/// The view of an optional text.
pub open spec fn opt_view(t: Option<&str>) -> Option<Seq<char>> {
    match t {
        Some(s) => Some(s@),
        None => None,
    }
}

/// The view of an optional place in the source.
pub open spec fn location_view(location: Option<(&str, u32)>) -> Option<(Seq<char>, u32)> {
    match location {
        Some((file, line)) => Some((file@, line)),
        None => None,
    }
}

/// The text printed when the boot loader panics: `payload` is the panic's
/// text payload, `message` its formatted message, `location` the file and
/// line that raised it.
pub fn panic_report(payload: Option<&str>, message: Option<&str>, location: Option<(&str, u32)>) -> (report: String)
    ensures
        report@ == panic_report_text(opt_view(payload), opt_view(message), location_view(location)),
{
    let mut report = String::new();
    push_text(&mut report, "Starting panic!\n");
    let ghost heading = report@;
    match payload {
        Some(p) => {
            push_text(&mut report, p);
            push_text(&mut report, "\n");
        },
        None => {},
    }
    assert(report@ =~= heading + line_or_nothing(opt_view(payload)));
    let ghost with_payload = report@;
    match message {
        Some(m) => {
            push_text(&mut report, m);
            push_text(&mut report, "\n");
        },
        None => {},
    }
    assert(report@ =~= with_payload + line_or_nothing(opt_view(message)));
    let ghost with_message = report@;
    match location {
        Some((file, line)) => {
            push_text(&mut report, "At file `");
            push_text(&mut report, file);
            push_text(&mut report, "` lines ");
            push_decimal(&mut report, line as u64);
            push_text(&mut report, "\n");
        },
        None => {},
    }
    assert(report@ =~= with_message + location_line(location_view(location)));
    push_text(&mut report, "Starting stop working. Try reboot?\n");
    report
}

} // verus!
