//! How a session of the two processes ends: whose exit is reported, and
//! the exit code passed on.
//!
//! A process's exit is its exit code, or `None` when a signal ended it;
//! it succeeded when the code is 0.

use vstd::prelude::*;

verus! {

/// Whose exit ended the session abnormally.
#[derive(Debug, Clone, Copy, PartialEq, Eq, Structural)]
pub enum Blame {
    /// Both halves ended well, or Lem was killed after the display ended
    /// the session successfully.
    Nobody,
    /// The display exited unsuccessfully.
    Display,
    /// The display succeeded but Lem exited unsuccessfully.
    Lem,
}

/// The exit code passed on for a process's exit: its own code when that
/// fits in a byte and is not 0, else 1.
pub open spec fn spec_code(status: Option<i32>) -> u8 {
    match status {
        Some(c) => if 1 <= c <= 255 {
            c as u8
        } else {
            1
        },
        None => 1,
    }
}

/// The exit code to pass on for `status`, which on Unix has none when a
/// signal ended it.
pub fn code(status: Option<i32>) -> (r: u8)
    ensures
        r == spec_code(status),
{
    match status {
        Some(c) => if c >= 1 && c <= 255 {
            c as u8
        } else {
            1
        },
        None => 1,
    }
}

/// Who is blamed and the exit code, given the display's exit and Lem's
/// (`None` when Lem outlived the display and was killed).
pub open spec fn spec_report(display: Option<i32>, lem: Option<Option<i32>>) -> (Blame, u8) {
    if display != Some(0i32) {
        (Blame::Display, spec_code(display))
    } else {
        match lem {
            Some(status) => if status != Some(0i32) {
                (Blame::Lem, spec_code(status))
            } else {
                (Blame::Nobody, 0)
            },
            None => (Blame::Nobody, 0),
        }
    }
}

/// Choose what to report, after both halves are gone, and the exit code.
pub fn report(display: Option<i32>, lem: Option<Option<i32>>) -> (r: (Blame, u8))
    ensures
        r == spec_report(display, lem),
{
    let display_ok = match display {
        Some(c) => c == 0,
        None => false,
    };
    if !display_ok {
        return (Blame::Display, code(display));
    }
    match lem {
        Some(status) => {
            let ok = match status {
                Some(c) => c == 0,
                None => false,
            };
            if !ok {
                (Blame::Lem, code(status))
            } else {
                (Blame::Nobody, 0)
            }
        },
        None => (Blame::Nobody, 0),
    }
}

/// A failure is never passed on as success: the code passed on for an
/// exit is never 0, it is the exit's own code when that is a failure code
/// that fits in a byte, and 1 otherwise.
pub proof fn lemma_code_is_a_failure(status: Option<i32>)
    ensures
        spec_code(status) != 0,
        forall|c: i32| status == Some(c) && 1 <= c <= 255 ==> spec_code(status) == c,
        forall|c: i32| status == Some(c) && !(1 <= c <= 255) ==> spec_code(status) == 1,
        status is None ==> spec_code(status) == 1,
{
}

/// The session succeeds exactly when the display exited with 0 and Lem
/// did too or was killed after it. A display that did not exit with 0 is
/// blamed and its code passed on, whatever Lem did; Lem is blamed only
/// after a clean display exit.
pub proof fn lemma_report_blames_the_display_first(display: Option<i32>, lem: Option<Option<i32>>)
    ensures
        (spec_report(display, lem).1 == 0) <==> (display == Some(0i32) && (lem is None || lem
            == Some(Some(0i32)))),
        (spec_report(display, lem).0 == Blame::Nobody) <==> (spec_report(display, lem).1 == 0),
        display != Some(0i32) ==> spec_report(display, lem).0 == Blame::Display,
        forall|c: i32|
            display == Some(c) && 1 <= c <= 255 ==> spec_report(display, lem).1 == c,
        display == Some(0i32) && lem is Some && lem->0 != Some(0i32) ==> spec_report(
            display,
            lem,
        ).0 == Blame::Lem,
        forall|c: i32|
            display == Some(0i32) && lem == Some(Some(c)) && 1 <= c <= 255 ==> spec_report(
                display,
                lem,
            ) == (Blame::Lem, c as u8),
{
    lemma_code_is_a_failure(display);
    match lem {
        Some(status) => lemma_code_is_a_failure(status),
        None => {},
    }
}

} // verus!
