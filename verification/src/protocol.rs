//! Types for the `lem-server` JSON-RPC display protocol.
//!
//! These are the shapes the display half acts on. Decoding them from JSON
//! is done outside the library, which hands over the typed values; what a
//! method name means is decided here ([`method_named`]).

use vstd::prelude::*;
use vstd::view::View as _;

verus! {

broadcast use vstd::seq_lib::group_seq_properties;

/// A view's identity, as carried by hot-path messages.
#[derive(Debug, Clone, Copy, PartialEq, Eq, Structural)]
pub struct ViewInfo {
    pub id: u64,
}

/// Underline is tri-state on the wire: absent, on, or on-in-this-colour.
#[derive(Debug, Clone, PartialEq, Eq)]
pub enum Underline {
    On(bool),
    Color(String),
}

/// How a run of cells should be styled. Colours arrive as `"#RRGGBB"`.
#[derive(Debug, Clone, PartialEq, Eq, Default)]
pub struct Attribute {
    pub foreground: Option<String>,
    pub background: Option<String>,
    pub reverse: bool,
    pub bold: bool,
    pub underline: Option<Underline>,
    pub cursor: bool,
}

/// Paint a run of text at a cell position. `text_width` is precomputed by
/// Lem, so the display half never measures strings itself.
#[derive(Debug, Clone, PartialEq, Eq)]
pub struct Put {
    pub view_info: ViewInfo,
    pub x: u16,
    pub y: u16,
    pub text: String,
    pub text_width: u16,
    pub attribute: Option<Attribute>,
}

/// Where Lem last printed its cursor.
#[derive(Debug, Clone, Copy, PartialEq, Eq, Structural)]
pub struct MoveCursor {
    pub view_info: ViewInfo,
    pub x: u16,
    pub y: u16,
}

/// Which layer a view composites into.
#[derive(Debug, Clone, Copy, PartialEq, Eq, Structural)]
pub enum ViewKind {
    Tile,
    Header,
    Floating,
}

/// What a view contains. `Html` views (Lem's tabbar is one) cannot be
/// painted by a terminal: they are tracked but never composited.
#[derive(Debug, Clone, Copy, PartialEq, Eq, Structural, Default)]
pub enum ViewType {
    #[default]
    Editor,
    Html,
}

/// How a floating window's border is drawn; absent means a full box.
#[derive(Debug, Clone, Copy, PartialEq, Eq, Structural)]
pub enum BorderShape {
    /// A box whose top corners join what sits above it.
    DropCurtain,
    /// A single rule down the left edge, no box.
    LeftBorder,
}

/// A window, positioned in character cells by Lem.
#[derive(Debug, Clone, Copy, PartialEq, Eq, Structural)]
pub struct View {
    pub id: u64,
    pub x: u16,
    pub y: u16,
    pub width: u16,
    pub height: u16,
    /// `null` on the wire for views that have no modeline.
    pub use_modeline: Option<bool>,
    pub kind: ViewKind,
    pub content_type: ViewType,
    /// Border thickness in cells.
    pub border: Option<u16>,
    pub border_shape: Option<BorderShape>,
}

impl View {
    /// Whether the view has a modeline, an extra row below it. A `null`
    /// on the wire means it does not.
    pub open spec fn spec_has_modeline(&self) -> bool {
        self.use_modeline == Some(true)
    }

    /// Whether this view reserves a row for a modeline.
    #[verifier::when_used_as_spec(spec_has_modeline)]
    pub fn has_modeline(&self) -> (r: bool)
        ensures
            r == self.spec_has_modeline(),
    {
        match self.use_modeline {
            Some(b) => b,
            None => false,
        }
    }
}

/// Argument of `resize-view`: dimensions only.
#[derive(Debug, Clone, Copy, PartialEq, Eq, Structural)]
pub struct ResizeView {
    pub view_info: ViewInfo,
    pub width: u16,
    pub height: u16,
}

/// Argument of `move-view`: position only.
#[derive(Debug, Clone, Copy, PartialEq, Eq, Structural)]
pub struct MoveView {
    pub view_info: ViewInfo,
    pub x: u16,
    pub y: u16,
}

/// Argument of `clear`, `clear-eol` and `clear-eob`; absent coordinates
/// are 0.
#[derive(Debug, Clone, Copy, PartialEq, Eq, Structural)]
pub struct Clear {
    pub view_info: ViewInfo,
    pub x: u16,
    pub y: u16,
}

/// Argument of messages carrying nothing but a view reference.
#[derive(Debug, Clone, Copy, PartialEq, Eq, Structural)]
pub struct ViewInfoArg {
    pub view_info: ViewInfo,
}

/// A recognised instruction, or a record that one was skipped.
#[derive(Debug, Clone, PartialEq, Eq)]
pub enum Instruction {
    Put(Put),
    ModelinePut(Put),
    MakeView(View),
    DeleteView(ViewInfoArg),
    Clear(Clear),
    ClearEol(Clear),
    ClearEob(Clear),
    ResizeView(ResizeView),
    MoveView(MoveView),
    MoveCursor(MoveCursor),
    /// A method this display half does not implement.
    Other { method: String },
}

/// The methods whose argument this display half decodes, and so the
/// variant of [`Instruction`] each becomes.
#[derive(Debug, Clone, Copy, PartialEq, Eq, Structural)]
pub enum Method {
    Put,
    ModelinePut,
    MakeView,
    DeleteView,
    Clear,
    ClearEol,
    ClearEob,
    ResizeView,
    MoveView,
    MoveCursor,
}

/// The method a wire name stands for. Every other name is left alone:
/// `redraw-view-after`, `change-view` and `update-display` carry nothing a
/// terminal acts on beyond their arrival, and the browser-only ones
/// (`load-css`, `js-eval`, `set-font`) must not fail the frame.
pub open spec fn method_named(name: Seq<char>) -> Option<Method> {
    if name == seq!['p', 'u', 't'] {
        Some(Method::Put)
    } else if name == seq!['m', 'o', 'd', 'e', 'l', 'i', 'n', 'e', '-', 'p', 'u', 't'] {
        Some(Method::ModelinePut)
    } else if name == seq!['m', 'a', 'k', 'e', '-', 'v', 'i', 'e', 'w'] {
        Some(Method::MakeView)
    } else if name == seq!['d', 'e', 'l', 'e', 't', 'e', '-', 'v', 'i', 'e', 'w'] {
        Some(Method::DeleteView)
    } else if name == seq!['c', 'l', 'e', 'a', 'r'] {
        Some(Method::Clear)
    } else if name == seq!['c', 'l', 'e', 'a', 'r', '-', 'e', 'o', 'l'] {
        Some(Method::ClearEol)
    } else if name == seq!['c', 'l', 'e', 'a', 'r', '-', 'e', 'o', 'b'] {
        Some(Method::ClearEob)
    } else if name == seq!['r', 'e', 's', 'i', 'z', 'e', '-', 'v', 'i', 'e', 'w'] {
        Some(Method::ResizeView)
    } else if name == seq!['m', 'o', 'v', 'e', '-', 'v', 'i', 'e', 'w'] {
        Some(Method::MoveView)
    } else if name == seq!['m', 'o', 'v', 'e', '-', 'c', 'u', 'r', 's', 'o', 'r'] {
        Some(Method::MoveCursor)
    } else {
        None
    }
}

/// Whether two strings are equal, compared byte by byte.
pub fn str_eq(a: &str, b: &str) -> (r: bool)
    ensures
        r == (a@ == b@),
{
    let x = a.as_bytes();
    let y = b.as_bytes();
    proof {
        vstd::utf8::encode_utf8_decode_utf8(a@);
        vstd::utf8::encode_utf8_decode_utf8(b@);
    }
    if x.len() != y.len() {
        return false;
    }
    let mut i: usize = 0;
    while i < x.len()
        invariant
            x@.len() == y@.len(),
            x@ == vstd::utf8::encode_utf8(a@),
            y@ == vstd::utf8::encode_utf8(b@),
            i <= x@.len(),
            forall|j: int| 0 <= j < i ==> x@[j] == y@[j],
        decreases x.len() - i,
    {
        if x[i] != y[i] {
            return false;
        }
        i = i + 1;
    }
    assert(x@ =~= y@);
    true
}

/// The method a wire name stands for, if this display half decodes it.
pub fn method_of(name: &str) -> (r: Option<Method>)
    ensures
        r == method_named(name@),
{
    proof {
        reveal_strlit("put");
        reveal_strlit("modeline-put");
        reveal_strlit("make-view");
        reveal_strlit("delete-view");
        reveal_strlit("clear");
        reveal_strlit("clear-eol");
        reveal_strlit("clear-eob");
        reveal_strlit("resize-view");
        reveal_strlit("move-view");
        reveal_strlit("move-cursor");
    }
    if str_eq(name, "put") {
        assert("put"@ =~= seq!['p', 'u', 't']);
        Some(Method::Put)
    } else if str_eq(name, "modeline-put") {
        assert("modeline-put"@ =~= seq!['m', 'o', 'd', 'e', 'l', 'i', 'n', 'e', '-', 'p', 'u', 't']);
        Some(Method::ModelinePut)
    } else if str_eq(name, "make-view") {
        assert("make-view"@ =~= seq!['m', 'a', 'k', 'e', '-', 'v', 'i', 'e', 'w']);
        Some(Method::MakeView)
    } else if str_eq(name, "delete-view") {
        assert("delete-view"@ =~= seq!['d', 'e', 'l', 'e', 't', 'e', '-', 'v', 'i', 'e', 'w']);
        Some(Method::DeleteView)
    } else if str_eq(name, "clear") {
        assert("clear"@ =~= seq!['c', 'l', 'e', 'a', 'r']);
        Some(Method::Clear)
    } else if str_eq(name, "clear-eol") {
        assert("clear-eol"@ =~= seq!['c', 'l', 'e', 'a', 'r', '-', 'e', 'o', 'l']);
        Some(Method::ClearEol)
    } else if str_eq(name, "clear-eob") {
        assert("clear-eob"@ =~= seq!['c', 'l', 'e', 'a', 'r', '-', 'e', 'o', 'b']);
        Some(Method::ClearEob)
    } else if str_eq(name, "resize-view") {
        assert("resize-view"@ =~= seq!['r', 'e', 's', 'i', 'z', 'e', '-', 'v', 'i', 'e', 'w']);
        Some(Method::ResizeView)
    } else if str_eq(name, "move-view") {
        assert("move-view"@ =~= seq!['m', 'o', 'v', 'e', '-', 'v', 'i', 'e', 'w']);
        Some(Method::MoveView)
    } else if str_eq(name, "move-cursor") {
        assert("move-cursor"@ =~= seq!['m', 'o', 'v', 'e', '-', 'c', 'u', 'r', 's', 'o', 'r']);
        Some(Method::MoveCursor)
    } else {
        assert("put"@ =~= seq!['p', 'u', 't']);
        assert("modeline-put"@ =~= seq!['m', 'o', 'd', 'e', 'l', 'i', 'n', 'e', '-', 'p', 'u', 't']);
        assert("make-view"@ =~= seq!['m', 'a', 'k', 'e', '-', 'v', 'i', 'e', 'w']);
        assert("delete-view"@ =~= seq!['d', 'e', 'l', 'e', 't', 'e', '-', 'v', 'i', 'e', 'w']);
        assert("clear"@ =~= seq!['c', 'l', 'e', 'a', 'r']);
        assert("clear-eol"@ =~= seq!['c', 'l', 'e', 'a', 'r', '-', 'e', 'o', 'l']);
        assert("clear-eob"@ =~= seq!['c', 'l', 'e', 'a', 'r', '-', 'e', 'o', 'b']);
        assert("resize-view"@ =~= seq!['r', 'e', 's', 'i', 'z', 'e', '-', 'v', 'i', 'e', 'w']);
        assert("move-view"@ =~= seq!['m', 'o', 'v', 'e', '-', 'v', 'i', 'e', 'w']);
        assert("move-cursor"@ =~= seq!['m', 'o', 'v', 'e', '-', 'c', 'u', 'r', 's', 'o', 'r']);
        None
    }
}

/// Each decoded method has exactly one wire name: two names that decode to
/// the same method are the same name.
pub proof fn lemma_method_names_are_distinct(a: Seq<char>, b: Seq<char>)
    requires
        method_named(a) is Some,
        method_named(a) == method_named(b),
    ensures
        a == b,
{
}

} // verus!
