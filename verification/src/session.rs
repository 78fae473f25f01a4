//! The display loop's decisions.
//!
//! The loop itself waits on the terminal and on Lem, sends messages and
//! draws; all of that is outside the library. What it decides is here: a
//! session takes one event at a time, updates the views, the metrics and
//! its own state, and says what the loop must do next.

use vstd::prelude::*;

use crate::frame::{apply_all, apply_frame, is_update_display};
use crate::input::{convert, payload_for, payload_view, KeyEvent, KeyPayload};
use crate::metrics::Frames;
use crate::protocol::Instruction;
use crate::views::{Registry, ViewModel};

verus! {

/// The width reported when there is no terminal to measure.
pub const HEADLESS_WIDTH: u16 = 80;

/// The height reported when there is no terminal to measure.
pub const HEADLESS_HEIGHT: u16 = 24;

/// The size to tell Lem: the terminal's, when it could be measured, else
/// the headless size.
pub fn display_size(measured: Option<(u16, u16)>) -> (r: (u16, u16))
    ensures
        r == match measured {
            Some(size) => size,
            None => (HEADLESS_WIDTH, HEADLESS_HEIGHT),
        },
{
    match measured {
        Some(size) => size,
        None => (HEADLESS_WIDTH, HEADLESS_HEIGHT),
    }
}

/// Something the loop saw.
pub enum Event {
    /// A key was pressed.
    Key(KeyEvent),
    /// The terminal now has this many columns and rows.
    Resize(u16, u16),
    /// Lem answered a request.
    Response,
    /// A `bulk` notification: its instructions, the size of its framed
    /// body in bytes, and the nanoseconds spent decoding it.
    Bulk(Vec<Instruction>, usize, u128),
    /// Lem asks for the clipboard's text (`get-clipboard-text`).
    ClipboardWanted,
    /// Lem offers text for the clipboard (`set-clipboard-text`); `None`
    /// when the notification carries no text.
    ClipboardOffered(Option<String>),
    /// Any other notification.
    Notification,
}

/// What the loop must do next.
pub enum Action {
    /// Nothing: wait for the next event.
    Wait,
    /// Send Lem an `input` notification of kind `key` with this value.
    SendKey(KeyPayload),
    /// Send Lem a `redraw` notification with this size.
    Redraw(u16, u16),
    /// Composite the views onto the terminal.
    Draw,
    /// Answer `got-clipboard-text` with the clipboard's text.
    ReplyClipboard,
    /// Put this text on the clipboard.
    SetClipboard(String),
    /// A frame is complete and there is no terminal to draw it on: report
    /// it and end the session.
    Finish,
}

/// A frame that ends with the signal to draw.
pub open spec fn completes(bulk: Seq<Instruction>) -> bool {
    exists|i: int| 0 <= i < bulk.len() && is_update_display(#[trigger] bulk[i])
}

/// The state of one display session.
pub struct Session {
    registry: Registry,
    metrics: Frames,
    interactive: bool,
    logged_in: bool,
    frames: usize,
    width: u16,
    height: u16,
}

impl Session {
    /// The views, in insertion order.
    pub closed spec fn views(&self) -> Seq<ViewModel> {
        self.registry.models()
    }

    /// The views' buffers are all grids.
    pub closed spec fn well_formed(&self) -> bool {
        self.registry.shaped()
    }

    /// The totals recorded so far.
    pub closed spec fn recorded(&self) -> Frames {
        self.metrics
    }

    /// Whether there is a terminal to draw on.
    pub closed spec fn spec_interactive(&self) -> bool {
        self.interactive
    }

    /// Whether Lem has answered the login request.
    pub closed spec fn spec_logged_in(&self) -> bool {
        self.logged_in
    }

    /// How many complete frames have arrived.
    pub closed spec fn spec_frames(&self) -> usize {
        self.frames
    }

    /// The size last told to Lem.
    pub closed spec fn spec_size(&self) -> (u16, u16) {
        (self.width, self.height)
    }

    /// What handling `event` needs: a frame's totals must fit the metrics,
    /// and a complete frame must fit the frame count.
    pub open spec fn ready_for(&self, event: &Event) -> bool {
        match event {
            Event::Bulk(bulk, bytes, nanos) => {
                &&& self.recorded().spec_can_record(*bytes, *nanos)
                &&& completes(bulk@) ==> self.spec_frames() < usize::MAX
            },
            _ => true,
        }
    }

    /// A session before login, with no views.
    pub fn new(interactive: bool, size: (u16, u16)) -> (s: Self)
        ensures
            s.well_formed(),
            s.views() == Seq::<ViewModel>::empty(),
            s.recorded().count() == 0,
            s.recorded().bytes() == 0,
            s.recorded().max_bytes() == 0,
            s.recorded().decode_nanos() == 0,
            s.spec_interactive() == interactive,
            !s.spec_logged_in(),
            s.spec_frames() == 0,
            s.spec_size() == size,
    {
        Session {
            registry: Registry::default(),
            metrics: Frames::default(),
            interactive,
            logged_in: false,
            frames: 0,
            width: size.0,
            height: size.1,
        }
    }

    /// The views, for drawing.
    pub fn registry(&self) -> (r: &Registry)
        ensures
            r.models() == self.views(),
            r.shaped() == self.well_formed(),
    {
        &self.registry
    }

    /// The totals recorded so far, for reporting.
    pub fn metrics(&self) -> (r: &Frames)
        ensures
            *r == self.recorded(),
    {
        &self.metrics
    }

    /// How many complete frames have arrived.
    #[verifier::when_used_as_spec(spec_frames)]
    pub fn frames(&self) -> (r: usize)
        ensures
            r == self.spec_frames(),
    {
        self.frames
    }

    /// The size last told to Lem.
    #[verifier::when_used_as_spec(spec_size)]
    pub fn size(&self) -> (r: (u16, u16))
        ensures
            r == self.spec_size(),
    {
        (self.width, self.height)
    }

    /// Whether [`Session::step`] can take `event`.
    pub fn is_ready_for(&self, event: &Event) -> (r: bool)
        ensures
            r == self.ready_for(event),
    {
        match event {
            Event::Bulk(bulk, bytes, nanos) => {
                if !self.metrics.can_record(*bytes, *nanos) {
                    return false;
                }
                if self.frames < usize::MAX {
                    return true;
                }
                let mut i: usize = 0;
                while i < bulk.len()
                    invariant
                        i <= bulk@.len(),
                        *event == Event::Bulk(*bulk, *bytes, *nanos),
                        self.recorded().spec_can_record(*bytes, *nanos),
                        self.spec_frames() == usize::MAX,
                        forall|j: int| 0 <= j < i ==> !is_update_display(#[trigger] bulk@[j]),
                    decreases bulk.len() - i,
                {
                    if let Instruction::Other { method } = &bulk[i] {
                        proof {
                            reveal_strlit("update-display");
                            assert("update-display"@ =~= seq![
                                'u',
                                'p',
                                'd',
                                'a',
                                't',
                                'e',
                                '-',
                                'd',
                                'i',
                                's',
                                'p',
                                'l',
                                'a',
                                'y',
                            ]);
                        }
                        if crate::protocol::str_eq(method.as_str(), "update-display") {
                            assert(bulk@[i as int] == Instruction::Other { method: *method });
                            assert(is_update_display(bulk@[i as int]));
                            assert(completes(bulk@));
                            return false;
                        }
                    }
                    i = i + 1;
                }
                true
            },
            _ => true,
        }
    }

    /// Handle one event.
    ///
    /// A key press is forwarded when Lem has a sym for it. A resize is
    /// passed on as `redraw`, which is what makes Lem reflow. The first
    /// response is the answer to login, after which Lem is asked to draw
    /// at the current size. A `bulk` frame is counted and applied, and
    /// once it is complete it is drawn, or, without a terminal, reported
    /// as the end of the session. The clipboard is read or written for
    /// Lem.
    pub fn step(&mut self, event: Event) -> (action: Action)
        requires
            old(self).well_formed(),
            old(self).ready_for(&event),
        ensures
            final(self).well_formed(),
            final(self).spec_interactive() == old(self).spec_interactive(),
            final(self).views() == match event {
                Event::Bulk(bulk, _, _) => apply_all(old(self).views(), bulk@),
                _ => old(self).views(),
            },
            match event {
                Event::Bulk(_, bytes, nanos) => {
                    &&& final(self).recorded().count() == old(self).recorded().count() + 1
                    &&& final(self).recorded().bytes() == old(self).recorded().bytes() + bytes
                    &&& final(self).recorded().max_bytes() == if bytes > old(self).recorded().max_bytes() {
                        bytes as nat
                    } else {
                        old(self).recorded().max_bytes()
                    }
                    &&& final(self).recorded().decode_nanos() == old(self).recorded().decode_nanos()
                        + nanos
                },
                _ => final(self).recorded() == old(self).recorded(),
            },
            final(self).spec_logged_in() == (old(self).spec_logged_in() || event is Response),
            final(self).spec_size() == match event {
                Event::Resize(columns, rows) => (columns, rows),
                _ => old(self).spec_size(),
            },
            final(self).spec_frames() == if event matches Event::Bulk(bulk, _, _) && completes(
                bulk@,
            ) {
                (old(self).spec_frames() + 1) as usize
            } else {
                old(self).spec_frames()
            },
            match event {
                Event::Key(key) => match payload_for(key) {
                    Some(payload) => action matches Action::SendKey(p) && payload_view(p)
                        == payload,
                    None => action is Wait,
                },
                Event::Resize(columns, rows) => action == Action::Redraw(columns, rows),
                Event::Response => if old(self).spec_logged_in() {
                    action is Wait
                } else {
                    action == Action::Redraw(old(self).spec_size().0, old(self).spec_size().1)
                },
                Event::Bulk(bulk, _, _) => if !completes(bulk@) {
                    action is Wait
                } else if old(self).spec_interactive() {
                    action is Draw
                } else {
                    action is Finish
                },
                Event::ClipboardWanted => action is ReplyClipboard,
                Event::ClipboardOffered(text) => match text {
                    Some(t) => action == Action::SetClipboard(t),
                    None => action is Wait,
                },
                Event::Notification => action is Wait,
            },
    {
        match event {
            Event::Key(key) => match convert(key) {
                Some(payload) => Action::SendKey(payload),
                None => Action::Wait,
            },
            Event::Resize(columns, rows) => {
                self.width = columns;
                self.height = rows;
                Action::Redraw(columns, rows)
            },
            Event::Response => {
                if self.logged_in {
                    Action::Wait
                } else {
                    self.logged_in = true;
                    Action::Redraw(self.width, self.height)
                }
            },
            Event::Bulk(bulk, bytes, nanos) => {
                self.metrics.record(bytes, nanos);
                let complete = apply_frame(&mut self.registry, bulk);
                if !complete {
                    Action::Wait
                } else {
                    self.frames = self.frames + 1;
                    if self.interactive {
                        Action::Draw
                    } else {
                        Action::Finish
                    }
                }
            },
            Event::ClipboardWanted => Action::ReplyClipboard,
            Event::ClipboardOffered(text) => match text {
                Some(t) => Action::SetClipboard(t),
                None => Action::Wait,
            },
            Event::Notification => Action::Wait,
        }
    }
}

} // verus!
