use lem_ratatui::exit::{code, report, Blame};

#[test]
fn an_exit_code_is_passed_on_when_it_fits_a_byte() {
    assert_eq!(code(Some(3)), 3);
    assert_eq!(code(Some(255)), 255);
    assert_eq!(code(Some(256)), 1, "too large");
    assert_eq!(code(Some(-1)), 1, "negative");
    assert_eq!(code(Some(0)), 1, "zero is not a failure code");
    assert_eq!(code(None), 1, "ended by a signal");
}

#[test]
fn the_display_is_blamed_first() {
    assert_eq!(report(Some(2), Some(Some(5))), (Blame::Display, 2));
    assert_eq!(report(None, None), (Blame::Display, 1));
}

#[test]
fn lem_is_blamed_only_after_a_clean_display_exit() {
    assert_eq!(report(Some(0), Some(Some(7))), (Blame::Lem, 7));
    assert_eq!(report(Some(0), Some(None)), (Blame::Lem, 1));
    assert_eq!(report(Some(0), Some(Some(0))), (Blame::Nobody, 0));
    assert_eq!(report(Some(0), None), (Blame::Nobody, 0), "killed after the display ended");
}
