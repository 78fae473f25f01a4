//! Applying one `bulk` frame of instructions to the views.

use vstd::prelude::*;
use vstd::view::View as _;

use crate::cells::blank_cell;
use crate::paint::{clear_eob, clear_eob_grid, clear_eol, clear_eol_grid, modeline_put, put, put_grid};
use crate::protocol::{str_eq, Instruction, MoveView, ResizeView, View, ViewInfoArg};
use crate::views::{find_view, fresh_view, moved, resized, without, Registry, ViewModel};

verus! {

/// The views after `f` changes the first with `id`; unchanged when there
/// is none.
pub open spec fn at_view(views: Seq<ViewModel>, id: u64, f: spec_fn(ViewModel) -> ViewModel) -> Seq<
    ViewModel,
> {
    if find_view(views, id) >= 0 {
        views.update(find_view(views, id), f(views[find_view(views, id)]))
    } else {
        views
    }
}

/// What one instruction does to the views. Paint commands for a view that
/// does not exist are dropped; moving the cursor paints nothing.
pub open spec fn apply_instruction(views: Seq<ViewModel>, ins: Instruction) -> Seq<ViewModel> {
    match ins {
        Instruction::MakeView(v) => without(views, v.id).push(fresh_view(v)),
        Instruction::DeleteView(a) => without(views, a.view_info.id),
        Instruction::ResizeView(r) => at_view(
            views,
            r.view_info.id,
            |m: ViewModel| resized(m, r.width, r.height),
        ),
        Instruction::MoveView(mv) => at_view(
            views,
            mv.view_info.id,
            |m: ViewModel| moved(m, mv.x, mv.y),
        ),
        Instruction::Put(p) => at_view(
            views,
            p.view_info.id,
            |m: ViewModel| ViewModel { buffer: put_grid(m.buffer, p), ..m },
        ),
        Instruction::ModelinePut(p) => at_view(
            views,
            p.view_info.id,
            |m: ViewModel| ViewModel { modeline: put_grid(m.modeline, p), ..m },
        ),
        Instruction::ClearEol(c) => at_view(
            views,
            c.view_info.id,
            |m: ViewModel| ViewModel { buffer: clear_eol_grid(m.buffer, c.x, c.y), ..m },
        ),
        Instruction::Clear(c) => at_view(
            views,
            c.view_info.id,
            |m: ViewModel| ViewModel { buffer: clear_eob_grid(m.buffer, c.y), ..m },
        ),
        Instruction::ClearEob(c) => at_view(
            views,
            c.view_info.id,
            |m: ViewModel| ViewModel { buffer: clear_eob_grid(m.buffer, c.y), ..m },
        ),
        Instruction::MoveCursor(_) => views,
        Instruction::Other { .. } => views,
    }
}

/// Every instruction of a frame, in order.
pub open spec fn apply_all(views: Seq<ViewModel>, bulk: Seq<Instruction>) -> Seq<ViewModel>
    decreases bulk.len(),
{
    if bulk.len() == 0 {
        views
    } else {
        apply_instruction(apply_all(views, bulk.drop_last()), bulk.last())
    }
}

/// The instruction is `update-display`, which ends a frame.
pub open spec fn is_update_display(ins: Instruction) -> bool {
    ins matches Instruction::Other { method } && method@ == seq![
        'u',
        'p',
        'd',
        'a',
        't',
        'e',
        '-',
        'd',
        'i',
        's',
        'p',
        'l',
        'a',
        'y',
    ]
}

/// Apply one `bulk` frame to the registry. Returns whether the frame is
/// complete: every bulk ends with `update-display`, the signal to
/// composite and draw.
pub fn apply_frame(registry: &mut Registry, bulk: Vec<Instruction>) -> (complete: bool)
    requires
        old(registry).shaped(),
    ensures
        final(registry).shaped(),
        final(registry).models() == apply_all(old(registry).models(), bulk@),
        complete == exists|i: int| 0 <= i < bulk@.len() && is_update_display(#[trigger] bulk@[i]),
{
    let mut complete = false;
    let n = bulk.len();
    let mut i: usize = 0;
    assert(bulk@.take(0) =~= Seq::<Instruction>::empty());
    while i < n
        invariant
            n == bulk@.len(),
            i <= n,
                registry.shaped(),
            registry.models() == apply_all(old(registry).models(), bulk@.take(i as int)),
            complete == exists|j: int| 0 <= j < i && is_update_display(#[trigger] bulk@[j]),
        decreases n - i,
    {
        let ghost before = registry.models();
        assert(bulk@.take(i + 1).drop_last() =~= bulk@.take(i as int));
        match &bulk[i] {
            Instruction::MakeView(view) => registry.insert(*view),
            Instruction::DeleteView(arg) => registry.remove(arg.view_info.id),
            Instruction::ResizeView(r) => registry.resize(r.view_info.id, r.width, r.height),
            Instruction::MoveView(m) => registry.move_to(m.view_info.id, m.x, m.y),
            Instruction::Put(p) => {
                if let Some(vb) = registry.get_mut(p.view_info.id) {
                    put(vb, p);
                }
            },
            Instruction::ModelinePut(p) => {
                if let Some(vb) = registry.get_mut(p.view_info.id) {
                    modeline_put(vb, p);
                }
            },
            Instruction::ClearEol(c) => {
                if let Some(vb) = registry.get_mut(c.view_info.id) {
                    clear_eol(vb, c.x, c.y);
                }
            },
            Instruction::Clear(c) => {
                if let Some(vb) = registry.get_mut(c.view_info.id) {
                    clear_eob(vb, c.y);
                }
            },
            Instruction::ClearEob(c) => {
                if let Some(vb) = registry.get_mut(c.view_info.id) {
                    clear_eob(vb, c.y);
                }
            },
            Instruction::MoveCursor(_) => {},
            Instruction::Other { method } => {
                proof {
                    reveal_strlit("update-display");
                    assert("update-display"@ =~= seq![
                        'u',
                        'p',
                        'd',
                        'a',
                        't',
                        'e',
                        '-',
                        'd',
                        'i',
                        's',
                        'p',
                        'l',
                        'a',
                        'y',
                    ]);
                }
                if str_eq(method.as_str(), "update-display") {
                    complete = true;
                }
            },
        }
        proof {
            assert(registry.models() =~= apply_instruction(before, bulk@[i as int]));
        }
        i = i + 1;
    }
    assert(bulk@.take(n as int) =~= bulk@);
    complete
}

/// No two views share an id.
pub open spec fn ids_distinct(views: Seq<ViewModel>) -> bool {
    forall|i: int, j: int| 0 <= i < j < views.len() ==> views[i].view.id != views[j].view.id
}

/// What `without` keeps are views of `s`, none with `id`.
proof fn lemma_without_from(s: Seq<ViewModel>, id: u64)
    ensures
        forall|k: int|
            0 <= k < without(s, id).len() ==> without(s, id)[k].view.id != id && exists|j: int|
                #![trigger s[j]]
                0 <= j < s.len() && s[j].view.id == without(s, id)[k].view.id,
    decreases s.len(),
{
    if s.len() > 0 {
        let t = s.drop_last();
        lemma_without_from(t, id);
        let w = without(s, id);
        assert forall|k: int| 0 <= k < w.len() implies w[k].view.id != id && exists|j: int|
            #![trigger s[j]]
            0 <= j < s.len() && s[j].view.id == w[k].view.id by {
            if s.last().view.id == id || k < w.len() - 1 {
                assert(w[k] == without(t, id)[k]);
                let j = choose|j: int| #![trigger t[j]] 0 <= j < t.len() && t[j].view.id == w[k].view.id;
                assert(s[j] == t[j]);
            } else {
                assert(s[s.len() - 1].view.id == w[k].view.id);
            }
        }
    }
}

/// Removing views keeps the rest one to an id.
proof fn lemma_without_distinct(s: Seq<ViewModel>, id: u64)
    requires
        ids_distinct(s),
    ensures
        ids_distinct(without(s, id)),
    decreases s.len(),
{
    if s.len() > 0 {
        let t = s.drop_last();
        assert(ids_distinct(t)) by {
            assert forall|i: int, j: int| 0 <= i < j < t.len() implies t[i].view.id != t[j].view.id by {
                assert(t[i] == s[i] && t[j] == s[j]);
            }
        }
        lemma_without_distinct(t, id);
        if s.last().view.id != id {
            lemma_without_from(t, id);
            let w = without(s, id);
            let u = without(t, id);
            assert forall|i: int, j: int| 0 <= i < j < w.len() implies w[i].view.id != w[j].view.id by {
                assert(w[i] == u[i]);
                if j == w.len() - 1 {
                    let k = choose|k: int| #![trigger t[k]] 0 <= k < t.len() && t[k].view.id == u[i].view.id;
                    assert(s[k] == t[k]);
                } else {
                    assert(w[j] == u[j]);
                }
            }
        }
    }
}

proof fn lemma_find_bounds(s: Seq<ViewModel>, id: u64)
    ensures
        -1 <= find_view(s, id) < s.len(),
    decreases s.len(),
{
    if s.len() > 0 {
        lemma_find_bounds(s.drop_last(), id);
    }
}

/// Changing one view in a way that keeps its id keeps every id.
proof fn lemma_at_view_ids(views: Seq<ViewModel>, id: u64, f: spec_fn(ViewModel) -> ViewModel)
    requires
        ids_distinct(views),
        forall|m: ViewModel| #[trigger] f(m).view.id == m.view.id,
    ensures
        ids_distinct(at_view(views, id, f)),
{
    let r = at_view(views, id, f);
    lemma_find_bounds(views, id);
    assert(r.len() == views.len());
    assert forall|i: int| 0 <= i < r.len() implies #[trigger] r[i].view.id == views[i].view.id by {
        let k = find_view(views, id);
        if k >= 0 {
            assert(r == views.update(k, f(views[k])));
            if i == k {
                assert(r[i] == f(views[i]));
                assert(f(views[i]).view.id == views[i].view.id);
            } else {
                assert(r[i] == views[i]);
            }
        } else {
            assert(r == views);
        }
    }
    assert forall|i: int, j: int| 0 <= i < j < r.len() implies r[i].view.id != r[j].view.id by {
        assert(r[i].view.id == views[i].view.id);
        assert(r[j].view.id == views[j].view.id);
    }
}

proof fn lemma_instruction_keeps_ids_distinct(views: Seq<ViewModel>, ins: Instruction)
    requires
        ids_distinct(views),
    ensures
        ids_distinct(apply_instruction(views, ins)),
{
    match ins {
        Instruction::MakeView(v) => {
            lemma_without_distinct(views, v.id);
            lemma_without_from(views, v.id);
            let w = without(views, v.id);
            let r = w.push(fresh_view(v));
            assert forall|i: int, j: int| 0 <= i < j < r.len() implies r[i].view.id != r[j].view.id by {
                assert(r[i] == w[i]);
                if j < w.len() {
                    assert(r[j] == w[j]);
                }
            }
        },
        Instruction::DeleteView(a) => lemma_without_distinct(views, a.view_info.id),
        Instruction::ResizeView(rv) => lemma_at_view_ids(
            views,
            rv.view_info.id,
            |m: ViewModel| resized(m, rv.width, rv.height),
        ),
        Instruction::MoveView(mv) => lemma_at_view_ids(
            views,
            mv.view_info.id,
            |m: ViewModel| moved(m, mv.x, mv.y),
        ),
        Instruction::Put(p) => lemma_at_view_ids(
            views,
            p.view_info.id,
            |m: ViewModel| ViewModel { buffer: put_grid(m.buffer, p), ..m },
        ),
        Instruction::ModelinePut(p) => lemma_at_view_ids(
            views,
            p.view_info.id,
            |m: ViewModel| ViewModel { modeline: put_grid(m.modeline, p), ..m },
        ),
        Instruction::ClearEol(c) => lemma_at_view_ids(
            views,
            c.view_info.id,
            |m: ViewModel| ViewModel { buffer: clear_eol_grid(m.buffer, c.x, c.y), ..m },
        ),
        Instruction::Clear(c) => lemma_at_view_ids(
            views,
            c.view_info.id,
            |m: ViewModel| ViewModel { buffer: clear_eob_grid(m.buffer, c.y), ..m },
        ),
        Instruction::ClearEob(c) => lemma_at_view_ids(
            views,
            c.view_info.id,
            |m: ViewModel| ViewModel { buffer: clear_eob_grid(m.buffer, c.y), ..m },
        ),
        _ => {},
    }
}

/// Views stay one to an id: making a view replaces any other with its
/// id, and nothing else a frame does changes an id, so a frame applied to
/// views with distinct ids leaves them distinct.
pub proof fn lemma_ids_stay_distinct(views: Seq<ViewModel>, bulk: Seq<Instruction>)
    requires
        ids_distinct(views),
    ensures
        ids_distinct(apply_all(views, bulk)),
    decreases bulk.len(),
{
    if bulk.len() > 0 {
        lemma_ids_stay_distinct(views, bulk.drop_last());
        lemma_instruction_keeps_ids_distinct(apply_all(views, bulk.drop_last()), bulk.last());
    }
}

/// `without` keeps exactly the views with other ids, in order.
proof fn lemma_without_is_filter(s: Seq<ViewModel>, id: u64)
    ensures
        without(s, id) == s.filter(|m: ViewModel| m.view.id != id),
    decreases s.len(),
{
    reveal(Seq::filter);
    if s.len() > 0 {
        lemma_without_is_filter(s.drop_last(), id);
    }
}

/// Deleting a view removes every view with its id and keeps the others,
/// in order; no view with that id is left.
pub proof fn lemma_delete_view_removes_it(views: Seq<ViewModel>, arg: ViewInfoArg)
    ensures
        apply_instruction(views, Instruction::DeleteView(arg)) == views.filter(
            |m: ViewModel| m.view.id != arg.view_info.id,
        ),
        forall|k: int|
            0 <= k < apply_instruction(views, Instruction::DeleteView(arg)).len() ==> (
            #[trigger] apply_instruction(views, Instruction::DeleteView(arg))[k]).view.id
                != arg.view_info.id,
{
    lemma_without_is_filter(views, arg.view_info.id);
    lemma_without_from(views, arg.view_info.id);
}

/// Making a view drops any view with its id, keeps the others in order,
/// and adds the new one last, exactly as sent and with blank buffers of
/// its size and a one-row modeline as wide.
pub proof fn lemma_make_view_adds_it_last(views: Seq<ViewModel>, v: View)
    ensures
        ({
            let r = apply_instruction(views, Instruction::MakeView(v));
            &&& r.drop_last() == views.filter(|m: ViewModel| m.view.id != v.id)
            &&& r.last().view == v
            &&& r.last().buffer.width == v.width && r.last().buffer.height == v.height
            &&& r.last().modeline.width == v.width && r.last().modeline.height == 1
            &&& forall|p: (int, int)|
                0 <= p.0 < v.width && 0 <= p.1 < v.height <==> #[trigger] r.last().buffer.cells.dom().contains(p)
            &&& forall|p: (int, int)|
                #[trigger] r.last().buffer.cells.dom().contains(p) ==> r.last().buffer.cells[p] == blank_cell()
            &&& forall|p: (int, int)|
                #[trigger] r.last().modeline.cells.dom().contains(p) ==> r.last().modeline.cells[p] == blank_cell()
            &&& forall|k: int| 0 <= k < r.len() - 1 ==> (#[trigger] r[k]).view.id != v.id
        }),
{
    lemma_without_is_filter(views, v.id);
    lemma_without_from(views, v.id);
    let r = apply_instruction(views, Instruction::MakeView(v));
    assert(r.drop_last() =~= without(views, v.id));
    assert forall|k: int| 0 <= k < r.len() - 1 implies (#[trigger] r[k]).view.id != v.id by {
        assert(r[k] == without(views, v.id)[k]);
    }
}

/// Resizing a view keeps its id and position, takes the new size, and
/// blanks its buffers; moving one keeps everything but its position.
/// Either leaves every other view, and the number of views, as it was.
pub proof fn lemma_resize_and_move_touch_one_view(views: Seq<ViewModel>, rv: ResizeView, mv: MoveView)
    ensures
        ({
            let r = apply_instruction(views, Instruction::ResizeView(rv));
            let i = find_view(views, rv.view_info.id);
            &&& r.len() == views.len()
            &&& forall|k: int| 0 <= k < views.len() && k != i ==> #[trigger] r[k] == views[k]
            &&& (forall|k: int| 0 <= k < views.len() ==> #[trigger] views[k].view.id != rv.view_info.id) ==> r == views
            &&& 0 <= i ==> {
                &&& r[i].view == View { width: rv.width, height: rv.height, ..views[i].view }
                &&& r[i].buffer.width == rv.width && r[i].buffer.height == rv.height
                &&& forall|p: (int, int)| #[trigger] r[i].buffer.cells.dom().contains(p) ==> r[i].buffer.cells[p] == blank_cell()
            }
        }),
        ({
            let r = apply_instruction(views, Instruction::MoveView(mv));
            let i = find_view(views, mv.view_info.id);
            &&& r.len() == views.len()
            &&& forall|k: int| 0 <= k < views.len() && k != i ==> #[trigger] r[k] == views[k]
            &&& (forall|k: int| 0 <= k < views.len() ==> #[trigger] views[k].view.id != mv.view_info.id) ==> r == views
            &&& 0 <= i ==> {
                &&& r[i].view == View { x: mv.x, y: mv.y, ..views[i].view }
                &&& r[i].buffer == views[i].buffer
                &&& r[i].modeline == views[i].modeline
            }
        }),
{
    lemma_find_bounds(views, rv.view_info.id);
    lemma_find_bounds(views, mv.view_info.id);
    lemma_find_is_first(views, rv.view_info.id);
    lemma_find_is_first(views, mv.view_info.id);
}

/// `find_view` finds a view with the id whenever one exists.
proof fn lemma_find_is_first(s: Seq<ViewModel>, id: u64)
    ensures
        find_view(s, id) >= 0 ==> s[find_view(s, id)].view.id == id,
        (forall|k: int| 0 <= k < s.len() ==> #[trigger] s[k].view.id != id) ==> find_view(s, id) < 0,
        (exists|k: int| 0 <= k < s.len() && #[trigger] s[k].view.id == id) ==> find_view(s, id) >= 0,
    decreases s.len(),
{
    if s.len() > 0 {
        lemma_find_is_first(s.drop_last(), id);
        lemma_find_bounds(s.drop_last(), id);
        if exists|k: int| 0 <= k < s.len() && #[trigger] s[k].view.id == id {
            let k = choose|k: int| 0 <= k < s.len() && #[trigger] s[k].view.id == id;
            if k < s.len() - 1 {
                assert(s.drop_last()[k].view.id == id);
            }
        }
        if find_view(s, id) >= 0 && find_view(s.drop_last(), id) >= 0 {
            assert(s[find_view(s, id)] == s.drop_last()[find_view(s, id)]);
        }
        assert forall|k: int| 0 <= k < s.drop_last().len() && (forall|j: int| 0 <= j < s.len() ==> #[trigger] s[j].view.id != id) implies #[trigger] s.drop_last()[k].view.id != id by {
            assert(s.drop_last()[k] == s[k]);
        }
    }
}

/// Paint commands change only the view they name, and only the buffer
/// they address: `put`, `clear`, `clear-eol` and `clear-eob` the view's
/// buffer, `modeline-put` its modeline. A command for a view that does
/// not exist, moving the cursor, and any other method change nothing.
pub proof fn lemma_paint_touches_only_its_view(views: Seq<ViewModel>, ins: Instruction)
    requires
        !(ins is MakeView || ins is DeleteView || ins is ResizeView || ins is MoveView),
    ensures
        ({
            let r = apply_instruction(views, ins);
            let id = match ins {
                Instruction::Put(p) => p.view_info.id,
                Instruction::ModelinePut(p) => p.view_info.id,
                Instruction::Clear(c) => c.view_info.id,
                Instruction::ClearEol(c) => c.view_info.id,
                Instruction::ClearEob(c) => c.view_info.id,
                _ => 0,
            };
            let i = find_view(views, id);
            &&& r.len() == views.len()
            &&& (ins is MoveCursor || ins is Other) ==> r == views
            &&& forall|k: int| 0 <= k < views.len() && k != i ==> #[trigger] r[k] == views[k]
            &&& 0 <= i ==> r[i].view == views[i].view
            &&& 0 <= i && ins is ModelinePut ==> r[i].buffer == views[i].buffer
            &&& 0 <= i && !(ins is ModelinePut) ==> r[i].modeline == views[i].modeline
            &&& (forall|k: int| 0 <= k < views.len() ==> #[trigger] views[k].view.id != id) ==> r
                == views
        }),
{
    let id = match ins {
        Instruction::Put(p) => p.view_info.id,
        Instruction::ModelinePut(p) => p.view_info.id,
        Instruction::Clear(c) => c.view_info.id,
        Instruction::ClearEol(c) => c.view_info.id,
        Instruction::ClearEob(c) => c.view_info.id,
        _ => 0,
    };
    lemma_find_bounds(views, id);
    lemma_find_is_first(views, id);
}

} // verus!
