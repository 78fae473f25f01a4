use lem_ratatui::input::{KeyCode, KeyEvent, KeyModifiers};
use lem_ratatui::protocol::{Instruction, View, ViewKind, ViewType};
use lem_ratatui::session::{display_size, Action, Event, Session, HEADLESS_HEIGHT, HEADLESS_WIDTH};

fn done() -> Instruction {
    Instruction::Other { method: "update-display".to_string() }
}

fn make_view(id: u64) -> Instruction {
    Instruction::MakeView(View {
        id,
        x: 0,
        y: 0,
        width: 2,
        height: 1,
        use_modeline: None,
        kind: ViewKind::Tile,
        content_type: ViewType::Editor,
        border: None,
        border_shape: None,
    })
}

#[test]
fn the_headless_size_is_eighty_by_twenty_four() {
    assert_eq!((HEADLESS_WIDTH, HEADLESS_HEIGHT), (80, 24));
    assert_eq!(display_size(None), (80, 24));
    assert_eq!(display_size(Some((120, 40))), (120, 40));
}

#[test]
fn login_is_answered_with_one_redraw() {
    let mut session = Session::new(true, (100, 30));
    assert!(matches!(session.step(Event::Response), Action::Redraw(100, 30)));
    assert!(matches!(session.step(Event::Response), Action::Wait));
}

#[test]
fn a_resize_is_passed_on_and_remembered() {
    let mut session = Session::new(true, (80, 24));
    assert!(matches!(session.step(Event::Resize(90, 33)), Action::Redraw(90, 33)));
    assert_eq!(session.size(), (90, 33));
    assert!(matches!(session.step(Event::Response), Action::Redraw(90, 33)));
}

#[test]
fn keys_are_forwarded_when_lem_has_a_sym() {
    let mut session = Session::new(true, (80, 24));
    match session.step(Event::Key(KeyEvent::new(KeyCode::Char('q'), KeyModifiers::CONTROL))) {
        Action::SendKey(payload) => {
            assert_eq!(payload.key, "q");
            assert!(payload.ctrl);
        }
        _ => panic!("expected a key to send"),
    }
    assert!(matches!(
        session.step(Event::Key(KeyEvent::new(KeyCode::Null, KeyModifiers::NONE))),
        Action::Wait
    ));
}

#[test]
fn a_complete_frame_is_drawn_and_counted() {
    let mut session = Session::new(true, (80, 24));
    let event = Event::Bulk(vec![make_view(1)], 40, 1_000);
    assert!(session.is_ready_for(&event));
    assert!(matches!(session.step(event), Action::Wait));
    assert_eq!(session.frames(), 0);
    assert!(matches!(session.step(Event::Bulk(vec![done()], 60, 3_000)), Action::Draw));
    assert_eq!(session.frames(), 1);
    assert_eq!(session.registry().len(), 1);
    assert_eq!(
        session.metrics().report(),
        "2 frames, 100 B total, avg 50 B, max 60 B, avg decode 2us"
    );
}

#[test]
fn without_a_terminal_the_first_complete_frame_finishes() {
    let mut session = Session::new(false, (80, 24));
    assert!(matches!(session.step(Event::Bulk(vec![make_view(1), done()], 10, 0)), Action::Finish));
    assert_eq!(session.frames(), 1);
}

#[test]
fn the_clipboard_is_read_and_written_for_lem() {
    let mut session = Session::new(true, (80, 24));
    assert!(matches!(session.step(Event::ClipboardWanted), Action::ReplyClipboard));
    match session.step(Event::ClipboardOffered(Some("copied".to_string()))) {
        Action::SetClipboard(text) => assert_eq!(text, "copied"),
        _ => panic!("expected the clipboard to be set"),
    }
    assert!(matches!(session.step(Event::ClipboardOffered(None)), Action::Wait));
    assert!(matches!(session.step(Event::Notification), Action::Wait));
}

#[test]
fn a_frame_that_overflows_the_metrics_is_refused_up_front() {
    let session = Session::new(true, (80, 24));
    let event = Event::Bulk(vec![], 0, lem_ratatui::metrics::MAX_DURATION_NANOS + 1);
    assert!(!session.is_ready_for(&event));
    assert!(session.is_ready_for(&Event::Response));
}
