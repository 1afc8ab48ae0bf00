//! Event dispatch through a widget tree.
//!
//! The dispatcher walks the tree, decides which widget receives which
//! event and keeps the control-flow flags of the widgets.  What a widget
//! does with an event is up to the application, which implements
//! [WidgetEvents]; the application also decides, from the widget's
//! rectangle, whether the pointer of the current event is inside a widget.
//!
//! Every call that the dispatcher makes to the application is listed, in
//! order and with the answer the application gave, in the trace that the
//! `emit_*` functions return.  The contracts state the trace and the new
//! tree exactly, as functions of the old tree and of the answers.  They
//! also state that the trace is what the application received: for an
//! application that keeps a log of its calls ([WidgetEvents::received]),
//! each `emit_*` appends exactly the returned trace to that log.

use vstd::prelude::*;
use crate::ids::WidgetId;
use crate::state_flags::{
    StateFlags, is_flag, lemma_with, INIT_FLAGS, SELF_UPDATE, CHILDREN_UPDATE, SELF_DRAW, CHILDREN_DRAW,
    SELF_DELETE, CHILDREN_DELETE, IS_VISIBLE, IS_ENABLED, IS_OVER, HAS_MOUSE_TRACKING,
};
use crate::widget_base::{
    WidgetBase, WidgetModel, Runtime, model, lemma_model, clamp_btn, find, find_kids, edit_at,
    NodeEdit, request_at,
};
use crate::input::MouseState;
use std::time::Duration;

verus! {

/// The state of a widget's life that it is told about.
#[derive(PartialEq, Eq, Structural, Copy, Clone, Debug)]
pub enum LifecycleState {
    /// A new runtime was set into the widget.
    RuntimeSet,
    /// The widget is going to be destroyed; `unexpected` is `true` when the
    /// destruction is not a regular one.
    Destroy { unexpected: bool },
}

/// What a layout event carries.
pub struct LayoutEventCtx {}

/// One call of the dispatcher to the application, with its answer where
/// the call has one.
#[derive(PartialEq, Eq, Structural, Copy, Clone, Debug)]
pub enum Call {
    /// Whether the pointer of the current event is inside the widget.
    Hit(WidgetId, bool),
    Lifecycle(WidgetId, LifecycleState),
    Layout(WidgetId),
    Update(WidgetId),
    Draw(WidgetId),
    /// The pointer entered (`true`) or left the widget.
    MouseCross(WidgetId, bool),
    /// Mouse move delivered; whether the widget accepted it.
    MouseMove(WidgetId, bool),
    /// Mouse button delivered; whether the widget accepted it.
    MouseButton(WidgetId, bool),
    /// Mouse wheel delivered; whether the widget accepted it.
    MouseWheel(WidgetId, bool),
    /// Keyboard input delivered; whether the widget accepted it.
    Keyboard(WidgetId, bool),
}

/// What the application does with the events of its widgets.
///
/// The dispatcher hands every event to the widget it chose by its id.
/// The pointer event being dispatched is known to the application, which
/// answers `is_inside` from the widget's rectangle.
pub trait WidgetEvents {
    /// Whether the application keeps, in [Self::received], the log of the
    /// calls it receives. An application that does not say so claims
    /// nothing of that log.
    open spec fn records_calls() -> bool {
        false
    }

    /// The calls received so far, oldest first, where
    /// [Self::records_calls] holds.
    open spec fn received(&self) -> Seq<Call> {
        Seq::empty()
    }

    /// Whether the pointer of the current event is inside the widget.
    fn is_inside(&mut self, id: WidgetId) -> (inside: bool)
        ensures
            Self::records_calls() ==> final(self).received() == old(self).received().push(Call::Hit(id, inside)),
    ;

    fn on_lifecycle(&mut self, id: WidgetId, state: LifecycleState)
        ensures
            Self::records_calls() ==> final(self).received() == old(self).received().push(Call::Lifecycle(id, state)),
    ;

    fn on_layout(&mut self, id: WidgetId, event: &LayoutEventCtx)
        ensures
            Self::records_calls() ==> final(self).received() == old(self).received().push(Call::Layout(id)),
    ;

    fn on_update(&mut self, id: WidgetId)
        ensures
            Self::records_calls() ==> final(self).received() == old(self).received().push(Call::Update(id)),
    ;

    fn on_draw(&mut self, id: WidgetId)
        ensures
            Self::records_calls() ==> final(self).received() == old(self).received().push(Call::Draw(id)),
    ;

    /// The pointer entered (`enter == true`) or left the widget.
    fn on_mouse_cross(&mut self, id: WidgetId, enter: bool)
        ensures
            Self::records_calls() ==> final(self).received() == old(self).received().push(Call::MouseCross(id, enter)),
    ;

    /// Returns whether the widget accepted the event.
    fn on_mouse_move(&mut self, id: WidgetId) -> (accepted: bool)
        ensures
            Self::records_calls() ==> final(self).received() == old(self).received().push(Call::MouseMove(id, accepted)),
    ;

    /// Returns whether the widget accepted the event.
    fn on_mouse_button(&mut self, id: WidgetId) -> (accepted: bool)
        ensures
            Self::records_calls() ==> final(self).received() == old(self).received().push(Call::MouseButton(id, accepted)),
    ;

    /// Returns whether the widget accepted the event.
    fn on_mouse_wheel(&mut self, id: WidgetId) -> (accepted: bool)
        ensures
            Self::records_calls() ==> final(self).received() == old(self).received().push(Call::MouseWheel(id, accepted)),
    ;

    /// Returns whether the widget accepted the event.
    fn on_keyboard(&mut self, id: WidgetId) -> (accepted: bool)
        ensures
            Self::records_calls() ==> final(self).received() == old(self).received().push(Call::Keyboard(id, accepted)),
    ;
}

// ---------------------------------------------------------------------------
// Calls that record themselves in the trace.

fn call_lifecycle<H: WidgetEvents>(
    h: &mut H,
    id: WidgetId,
    state: LifecycleState,
    trace: &mut Vec<Call>,
)
    ensures
        final(trace)@ == old(trace)@.push(Call::Lifecycle(id, state)),
        H::records_calls() ==> final(h).received() == old(h).received().push(Call::Lifecycle(id, state)),
{
    h.on_lifecycle(id, state);
    trace.push(Call::Lifecycle(id, state));
}

fn call_layout<H: WidgetEvents>(
    h: &mut H,
    id: WidgetId,
    event: &LayoutEventCtx,
    trace: &mut Vec<Call>,
)
    ensures
        final(trace)@ == old(trace)@.push(Call::Layout(id)),
        H::records_calls() ==> final(h).received() == old(h).received().push(Call::Layout(id)),
{
    h.on_layout(id, event);
    trace.push(Call::Layout(id));
}

fn call_update<H: WidgetEvents>(h: &mut H, id: WidgetId, trace: &mut Vec<Call>)
    ensures
        final(trace)@ == old(trace)@.push(Call::Update(id)),
        H::records_calls() ==> final(h).received() == old(h).received().push(Call::Update(id)),
{
    h.on_update(id);
    trace.push(Call::Update(id));
}

fn call_draw<H: WidgetEvents>(h: &mut H, id: WidgetId, trace: &mut Vec<Call>)
    ensures
        final(trace)@ == old(trace)@.push(Call::Draw(id)),
        H::records_calls() ==> final(h).received() == old(h).received().push(Call::Draw(id)),
{
    h.on_draw(id);
    trace.push(Call::Draw(id));
}

fn call_mouse_cross<H: WidgetEvents>(h: &mut H, id: WidgetId, enter: bool, trace: &mut Vec<Call>)
    ensures
        final(trace)@ == old(trace)@.push(Call::MouseCross(id, enter)),
        H::records_calls() ==> final(h).received() == old(h).received().push(Call::MouseCross(id, enter)),
{
    h.on_mouse_cross(id, enter);
    trace.push(Call::MouseCross(id, enter));
}

fn ask_hit<H: WidgetEvents>(h: &mut H, id: WidgetId, trace: &mut Vec<Call>) -> (a: bool)
    ensures
        final(trace)@ == old(trace)@.push(Call::Hit(id, a)),
        H::records_calls() ==> final(h).received() == old(h).received().push(Call::Hit(id, a)),
{
    let a = h.is_inside(id);
    trace.push(Call::Hit(id, a));
    a
}

fn ask_mouse_move<H: WidgetEvents>(h: &mut H, id: WidgetId, trace: &mut Vec<Call>) -> (a: bool)
    ensures
        final(trace)@ == old(trace)@.push(Call::MouseMove(id, a)),
        H::records_calls() ==> final(h).received() == old(h).received().push(Call::MouseMove(id, a)),
{
    let a = h.on_mouse_move(id);
    trace.push(Call::MouseMove(id, a));
    a
}

fn ask_mouse_button<H: WidgetEvents>(h: &mut H, id: WidgetId, trace: &mut Vec<Call>) -> (a: bool)
    ensures
        final(trace)@ == old(trace)@.push(Call::MouseButton(id, a)),
        H::records_calls() ==> final(h).received() == old(h).received().push(Call::MouseButton(id, a)),
{
    let a = h.on_mouse_button(id);
    trace.push(Call::MouseButton(id, a));
    a
}

fn ask_mouse_wheel<H: WidgetEvents>(h: &mut H, id: WidgetId, trace: &mut Vec<Call>) -> (a: bool)
    ensures
        final(trace)@ == old(trace)@.push(Call::MouseWheel(id, a)),
        H::records_calls() ==> final(h).received() == old(h).received().push(Call::MouseWheel(id, a)),
{
    let a = h.on_mouse_wheel(id);
    trace.push(Call::MouseWheel(id, a));
    a
}

fn ask_keyboard<H: WidgetEvents>(h: &mut H, id: WidgetId, trace: &mut Vec<Call>) -> (a: bool)
    ensures
        final(trace)@ == old(trace)@.push(Call::Keyboard(id, a)),
        H::records_calls() ==> final(h).received() == old(h).received().push(Call::Keyboard(id, a)),
{
    let a = h.on_keyboard(id);
    trace.push(Call::Keyboard(id, a));
    a
}

// ---------------------------------------------------------------------------
// Lifecycle: children first, then the widget itself.

/// The lifecycle calls for a subtree: each widget after its children.
pub open spec fn lifecycle_calls(n: WidgetModel, st: LifecycleState) -> Seq<Call>
    decreases n, n.children.len() + 1,
{
    lifecycle_kids(n, n.children.len() as int, st).push(Call::Lifecycle(n.id, st))
}

pub open spec fn lifecycle_kids(n: WidgetModel, k: int, st: LifecycleState) -> Seq<Call>
    decreases n, k,
{
    if k <= 0 || k > n.children.len() {
        seq![]
    } else {
        lifecycle_kids(n, k - 1, st) + lifecycle_calls(n.children[k - 1], st)
    }
}

fn emit_inner_lifecycle<H: WidgetEvents>(
    node: &WidgetBase,
    st: LifecycleState,
    h: &mut H,
    trace: &mut Vec<Call>,
)
    ensures
        final(trace)@ == old(trace)@ + lifecycle_calls(node@, st),
        H::records_calls() ==> final(h).received() == old(h).received() + lifecycle_calls(node@, st),
    decreases node,
{
    proof {
        lemma_model(*node);
    }
    let len = node.children.len();
    let mut i: usize = 0;
    while i < len
        invariant
            len == node.children@.len(),
            i <= len,
            node@.children.len() == len,
            forall|j: int| 0 <= j < len ==> #[trigger] node@.children[j] == model(node.children@[j]),
            trace@ == old(trace)@ + lifecycle_kids(node@, i as int, st),
            H::records_calls() ==> h.received() == old(h).received() + lifecycle_kids(node@, i as int, st),
        decreases len - i,
    {
        proof {
            assert(decreases_to!(node => node.children));
        }
        emit_inner_lifecycle(&node.children[i], st, h, trace);
        proof {
            assert(trace@ =~= old(trace)@ + lifecycle_kids(node@, i + 1, st));
            assert(H::records_calls() ==> h.received() =~= old(h).received() + lifecycle_kids(node@, i + 1, st));
        }
        i = i + 1;
    }
    call_lifecycle(h, node.id, st, trace);
    proof {
        assert(trace@ =~= old(trace)@ + lifecycle_calls(node@, st));
        assert(H::records_calls() ==> h.received() =~= old(h).received() + lifecycle_calls(node@, st));
    }
}

// ---------------------------------------------------------------------------
// Layout: the widget first, then its children.

/// The layout calls for a subtree: each widget before its children.
pub open spec fn layout_calls(n: WidgetModel) -> Seq<Call>
    decreases n, n.children.len() + 1,
{
    seq![Call::Layout(n.id)] + layout_kids(n, n.children.len() as int)
}

pub open spec fn layout_kids(n: WidgetModel, k: int) -> Seq<Call>
    decreases n, k,
{
    if k <= 0 || k > n.children.len() {
        seq![]
    } else {
        layout_kids(n, k - 1) + layout_calls(n.children[k - 1])
    }
}

fn emit_inner_layout<H: WidgetEvents>(
    node: &WidgetBase,
    event: &LayoutEventCtx,
    h: &mut H,
    trace: &mut Vec<Call>,
)
    ensures
        final(trace)@ == old(trace)@ + layout_calls(node@),
        H::records_calls() ==> final(h).received() == old(h).received() + layout_calls(node@),
    decreases node,
{
    proof {
        lemma_model(*node);
    }
    call_layout(h, node.id, event, trace);
    let ghost start = trace@;
    let ghost hstart = h.received();
    let len = node.children.len();
    let mut i: usize = 0;
    while i < len
        invariant
            len == node.children@.len(),
            i <= len,
            node@.children.len() == len,
            forall|j: int| 0 <= j < len ==> #[trigger] node@.children[j] == model(node.children@[j]),
            start == old(trace)@.push(Call::Layout(node.id)),
            H::records_calls() ==> hstart == old(h).received().push(Call::Layout(node.id)),
            trace@ == start + layout_kids(node@, i as int),
            H::records_calls() ==> h.received() == hstart + layout_kids(node@, i as int),
        decreases len - i,
    {
        proof {
            assert(decreases_to!(node => node.children));
        }
        emit_inner_layout(&node.children[i], event, h, trace);
        proof {
            assert(trace@ =~= start + layout_kids(node@, i + 1));
            assert(H::records_calls() ==> h.received() =~= hstart + layout_kids(node@, i + 1));
        }
        i = i + 1;
    }
    proof {
        assert(trace@ =~= old(trace)@ + layout_calls(node@));
        assert(H::records_calls() ==> h.received() =~= old(h).received() + layout_calls(node@));
    }
}

} // verus!

verus! {

// ---------------------------------------------------------------------------
// Runtime: every widget of the subtree gets the runtime.

/// The subtree with the runtime set into every widget.
pub open spec fn with_runtime(n: WidgetModel, rt: Runtime) -> WidgetModel
    decreases n, n.children.len() + 1,
{
    WidgetModel { runtime: Some(rt), children: runtime_kids(n, n.children.len() as int, rt), ..n }
}

pub open spec fn runtime_kids(n: WidgetModel, k: int, rt: Runtime) -> Seq<WidgetModel>
    decreases n, k,
{
    if k <= 0 || k > n.children.len() {
        seq![]
    } else {
        runtime_kids(n, k - 1, rt).push(with_runtime(n.children[k - 1], rt))
    }
}

pub(crate) proof fn lemma_runtime_kids(n: WidgetModel, k: int, rt: Runtime)
    requires
        0 <= k <= n.children.len(),
    ensures
        runtime_kids(n, k, rt).len() == k,
        forall|j: int|
            0 <= j < k ==> #[trigger] runtime_kids(n, k, rt)[j] == with_runtime(n.children[j], rt),
    decreases k,
{
    if k > 0 {
        lemma_runtime_kids(n, k - 1, rt);
    }
}

fn set_runtime_to_widget_inner(node: &mut WidgetBase, rt: Runtime)
    ensures
        final(node)@ == with_runtime(old(node)@, rt),
    decreases *old(node),
{
    proof {
        lemma_model(*old(node));
    }
    node.runtime = Some(rt);
    let ghost pre = *node;
    let len = node.children.len();
    let mut i: usize = 0;
    while i < len
        invariant
            len == node.children@.len(),
            len == pre.children@.len(),
            i <= len,
            pre.children == old(node).children,
            *node == (WidgetBase { children: node.children, ..pre }),
            forall|j: int| i <= j < len ==> node.children@[j] == pre.children@[j],
            forall|j: int|
                0 <= j < i ==> #[trigger] model(node.children@[j]) == with_runtime(
                    model(pre.children@[j]),
                    rt,
                ),
        decreases len - i,
    {
        proof {
            assert(decreases_to!(*old(node) => old(node).children));
            assert(node.children@[i as int] == old(node).children@[i as int]);
        }
        set_runtime_to_widget_inner(&mut node.children[i], rt);
        i = i + 1;
    }
    proof {
        lemma_model(*node);
        lemma_runtime_kids(old(node)@, len as int, rt);
        assert(node@.children =~= with_runtime(old(node)@, rt).children);
        assert(node@ =~= with_runtime(old(node)@, rt));
    }
}

// ---------------------------------------------------------------------------
// Update: widgets that asked for it get the update event; the flags are
// cleared on the way.

/// The subtree after an update pass, and the calls made.
pub open spec fn update_node(n: WidgetModel) -> (WidgetModel, Seq<Call>)
    decreases n, n.children.len() + 1,
{
    let su = n.has(SELF_UPDATE);
    let cu = n.has(CHILDREN_UPDATE);
    if !(su || cu) {
        (n, seq![])
    } else {
        let own = if su {
            seq![Call::Update(n.id)]
        } else {
            seq![]
        };
        let kids = if cu {
            update_kids(n, n.children.len() as int)
        } else {
            (n.children, seq![])
        };
        (
            n.with_flag(SELF_UPDATE, false).with_flag(CHILDREN_UPDATE, false).with_children(
                kids.0,
            ),
            own + kids.1,
        )
    }
}

pub open spec fn update_kids(n: WidgetModel, k: int) -> (Seq<WidgetModel>, Seq<Call>)
    decreases n, k,
{
    if k <= 0 || k > n.children.len() {
        (seq![], seq![])
    } else {
        let p = update_kids(n, k - 1);
        let c = update_node(n.children[k - 1]);
        (p.0.push(c.0), p.1 + c.1)
    }
}

pub(crate) proof fn lemma_update_kids(n: WidgetModel, k: int)
    requires
        0 <= k <= n.children.len(),
    ensures
        update_kids(n, k).0.len() == k,
        forall|j: int|
            0 <= j < k ==> #[trigger] update_kids(n, k).0[j] == update_node(n.children[j]).0,
    decreases k,
{
    if k > 0 {
        lemma_update_kids(n, k - 1);
    }
}

fn emit_inner_update<H: WidgetEvents>(node: &mut WidgetBase, h: &mut H, trace: &mut Vec<Call>)
    ensures
        final(node)@ == update_node(old(node)@).0,
        final(trace)@ == old(trace)@ + update_node(old(node)@).1,
        H::records_calls() ==> final(h).received() == old(h).received() + update_node(old(node)@).1,
    decreases *old(node),
{
    proof {
        lemma_model(*old(node));
    }
    let is_self_update = node.state_flags.contains(SELF_UPDATE);
    let is_children_update = node.state_flags.contains(CHILDREN_UPDATE);
    if !(is_self_update || is_children_update) {
        proof {
            assert(trace@ =~= old(trace)@ + update_node(old(node)@).1);
            assert(H::records_calls() ==> h.received() =~= old(h).received() + update_node(old(node)@).1);
        }
        return ;
    }
    node.state_flags.remove(SELF_UPDATE);
    if is_self_update {
        call_update(h, node.id, trace);
    }
    let ghost pre = *node;
    let ghost start = trace@;
    let ghost hstart = h.received();
    let len = node.children.len();
    if is_children_update {
        let mut i: usize = 0;
        while i < len
            invariant
                len == node.children@.len(),
                len == pre.children@.len(),
                i <= len,
                pre.children == old(node).children,
                *node == (WidgetBase { children: node.children, ..pre }),
                forall|j: int| i <= j < len ==> node.children@[j] == pre.children@[j],
                forall|j: int|
                    0 <= j < i ==> #[trigger] model(node.children@[j]) == update_node(
                        model(pre.children@[j]),
                    ).0,
                trace@ == start + update_kids(old(node)@, i as int).1,
                H::records_calls() ==> h.received() == hstart + update_kids(old(node)@, i as int).1,
                old(node)@.children.len() == len,
                forall|j: int|
                    0 <= j < len ==> #[trigger] old(node)@.children[j] == model(
                        old(node).children@[j],
                    ),
            decreases len - i,
        {
            proof {
                assert(decreases_to!(*old(node) => old(node).children));
                assert(node.children@[i as int] == old(node).children@[i as int]);
            }
            emit_inner_update(&mut node.children[i], h, trace);
            proof {
                assert(trace@ =~= start + update_kids(old(node)@, i + 1).1);
                assert(H::records_calls() ==> h.received() =~= hstart + update_kids(old(node)@, i + 1).1);
            }
            i = i + 1;
        }
    }
    node.state_flags.remove(CHILDREN_UPDATE);
    proof {
        lemma_model(*node);
        lemma_update_kids(old(node)@, len as int);
        let spec = update_node(old(node)@);
        assert(node@.children =~= spec.0.children);
        assert(node@ =~= spec.0);
        assert(trace@ =~= old(trace)@ + spec.1);
        assert(H::records_calls() ==> h.received() =~= old(h).received() + spec.1);
    }
}

} // verus!

verus! {

// ---------------------------------------------------------------------------
// Deletion: children that asked to be deleted are told they are destroyed
// and leave the tree; the other children are searched in turn.

/// The subtree after the deletion pass, and the calls made.
pub open spec fn check_delete(n: WidgetModel) -> (WidgetModel, Seq<Call>)
    decreases n, n.children.len() + 1,
{
    if !n.has(CHILDREN_DELETE) {
        (n, seq![])
    } else {
        let k = delete_kids(n, n.children.len() as int);
        (n.with_flag(CHILDREN_DELETE, false).with_children(k.0), k.1)
    }
}

pub open spec fn delete_kids(n: WidgetModel, k: int) -> (Seq<WidgetModel>, Seq<Call>)
    decreases n, k,
{
    if k <= 0 || k > n.children.len() {
        (seq![], seq![])
    } else {
        let p = delete_kids(n, k - 1);
        let c = n.children[k - 1];
        if c.has(SELF_DELETE) {
            (p.0, p.1 + lifecycle_calls(c, LifecycleState::Destroy { unexpected: false }))
        } else {
            let r = check_delete(c);
            (p.0.push(r.0), p.1 + r.1)
        }
    }
}

fn emit_inner_check_delete<H: WidgetEvents>(
    node: &mut WidgetBase,
    h: &mut H,
    trace: &mut Vec<Call>,
)
    ensures
        final(node)@ == check_delete(old(node)@).0,
        final(trace)@ == old(trace)@ + check_delete(old(node)@).1,
        H::records_calls() ==> final(h).received() == old(h).received() + check_delete(old(node)@).1,
    decreases *old(node),
{
    proof {
        lemma_model(*old(node));
    }
    if !node.state_flags.contains(CHILDREN_DELETE) {
        proof {
            assert(trace@ =~= old(trace)@);
            assert(H::records_calls() ==> h.received() =~= old(h).received());
        }
        return ;
    }
    let mut old_kids: Vec<WidgetBase> = Vec::new();
    std::mem::swap(&mut old_kids, &mut node.children);
    let ghost pre = *node;
    let ghost orig = old_kids@;
    let len = old_kids.len();
    let mut i: usize = 0;
    while i < len
        invariant
            len == orig.len(),
            i <= len,
            orig == old(node).children@,
            old_kids@ == orig.subrange(i as int, len as int),
            *node == (WidgetBase { children: node.children, ..pre }),
            pre.id == old(node).id,
            old(node)@.children.len() == len,
            forall|j: int|
                0 <= j < len ==> #[trigger] old(node)@.children[j] == model(old(node).children@[j]),
            node.children@.len() == delete_kids(old(node)@, i as int).0.len(),
            forall|j: int|
                0 <= j < node.children@.len() ==> #[trigger] model(node.children@[j])
                    == delete_kids(old(node)@, i as int).0[j],
            trace@ == old(trace)@ + delete_kids(old(node)@, i as int).1,
            H::records_calls() ==> h.received() == old(h).received() + delete_kids(old(node)@, i as int).1,
        decreases len - i,
    {
        let ghost before = node.children@;
        let mut c = old_kids.remove(0);
        proof {
            assert(c == orig[i as int]);
            assert(old_kids@ =~= orig.subrange(i + 1, len as int));
        }
        if c.state_flags.contains(SELF_DELETE) {
            emit_inner_lifecycle(&c, LifecycleState::Destroy { unexpected: false }, h, trace);
            proof {
                assert(trace@ =~= old(trace)@ + delete_kids(old(node)@, i + 1).1);
                assert(H::records_calls() ==> h.received() =~= old(h).received() + delete_kids(old(node)@, i + 1).1);
            }
        } else {
            proof {
                assert(decreases_to!(*old(node) => old(node).children));
                assert(c == old(node).children@[i as int]);
            }
            emit_inner_check_delete(&mut c, h, trace);
            node.children.push(c);
            proof {
                assert(trace@ =~= old(trace)@ + delete_kids(old(node)@, i + 1).1);
                assert(H::records_calls() ==> h.received() =~= old(h).received() + delete_kids(old(node)@, i + 1).1);
                assert forall|j: int| 0 <= j < node.children@.len() implies #[trigger] model(
                    node.children@[j],
                ) == delete_kids(old(node)@, i + 1).0[j] by {
                    if j < before.len() {
                        assert(node.children@[j] == before[j]);
                    }
                }
            }
        }
        i = i + 1;
    }
    node.state_flags.remove(CHILDREN_DELETE);
    proof {
        lemma_model(*node);
        let spec = check_delete(old(node)@);
        assert(node@.children =~= spec.0.children);
        assert(node@ =~= spec.0);
    }
}

// ---------------------------------------------------------------------------
// Drawing.

/// The subtree after a full draw: every visible widget is drawn, parents
/// before children; an invisible widget and its subtree are left alone.
pub open spec fn draw_full(n: WidgetModel) -> (WidgetModel, Seq<Call>)
    decreases n, n.children.len() + 1,
{
    if !n.has(IS_VISIBLE) {
        (n, seq![])
    } else {
        let k = draw_full_kids(n, n.children.len() as int);
        (
            n.with_flag(SELF_DRAW, false).with_flag(CHILDREN_DRAW, false).with_children(k.0),
            seq![Call::Draw(n.id)] + k.1,
        )
    }
}

pub open spec fn draw_full_kids(n: WidgetModel, k: int) -> (Seq<WidgetModel>, Seq<Call>)
    decreases n, k,
{
    if k <= 0 || k > n.children.len() {
        (seq![], seq![])
    } else {
        let p = draw_full_kids(n, k - 1);
        let c = draw_full(n.children[k - 1]);
        (p.0.push(c.0), p.1 + c.1)
    }
}

/// The subtree after a draw pass: a visible widget that asked to be drawn
/// is drawn fully with its subtree; otherwise, if some children asked, the
/// pass goes on into the children.
pub open spec fn draw_node(n: WidgetModel) -> (WidgetModel, Seq<Call>)
    decreases n, n.children.len() + 1,
{
    let vis = n.has(IS_VISIBLE);
    let sd = n.has(SELF_DRAW);
    let cd = n.has(CHILDREN_DRAW);
    if !(vis && (sd || cd)) {
        (n, seq![])
    } else if sd {
        draw_full(n)
    } else {
        let k = draw_kids(n, n.children.len() as int);
        (n.with_flag(CHILDREN_DRAW, false).with_children(k.0), k.1)
    }
}

pub open spec fn draw_kids(n: WidgetModel, k: int) -> (Seq<WidgetModel>, Seq<Call>)
    decreases n, k,
{
    if k <= 0 || k > n.children.len() {
        (seq![], seq![])
    } else {
        let p = draw_kids(n, k - 1);
        let c = draw_node(n.children[k - 1]);
        (p.0.push(c.0), p.1 + c.1)
    }
}

pub(crate) proof fn lemma_draw_full_kids(n: WidgetModel, k: int)
    requires
        0 <= k <= n.children.len(),
    ensures
        draw_full_kids(n, k).0.len() == k,
        forall|j: int|
            0 <= j < k ==> #[trigger] draw_full_kids(n, k).0[j] == draw_full(n.children[j]).0,
    decreases k,
{
    if k > 0 {
        lemma_draw_full_kids(n, k - 1);
    }
}

pub(crate) proof fn lemma_draw_kids(n: WidgetModel, k: int)
    requires
        0 <= k <= n.children.len(),
    ensures
        draw_kids(n, k).0.len() == k,
        forall|j: int| 0 <= j < k ==> #[trigger] draw_kids(n, k).0[j] == draw_node(n.children[j]).0,
    decreases k,
{
    if k > 0 {
        lemma_draw_kids(n, k - 1);
    }
}

fn emit_inner_draw_full<H: WidgetEvents>(node: &mut WidgetBase, h: &mut H, trace: &mut Vec<Call>)
    ensures
        final(node)@ == draw_full(old(node)@).0,
        final(trace)@ == old(trace)@ + draw_full(old(node)@).1,
        H::records_calls() ==> final(h).received() == old(h).received() + draw_full(old(node)@).1,
    decreases *old(node),
{
    proof {
        lemma_model(*old(node));
    }
    if !node.state_flags.contains(IS_VISIBLE) {
        proof {
            assert(trace@ =~= old(trace)@);
            assert(H::records_calls() ==> h.received() =~= old(h).received());
        }
        return ;
    }
    node.state_flags.remove(SELF_DRAW);
    call_draw(h, node.id, trace);
    let ghost pre = *node;
    let ghost start = trace@;
    let ghost hstart = h.received();
    let len = node.children.len();
    let mut i: usize = 0;
    while i < len
        invariant
            len == node.children@.len(),
            len == pre.children@.len(),
            i <= len,
            pre.children == old(node).children,
            *node == (WidgetBase { children: node.children, ..pre }),
            forall|j: int| i <= j < len ==> node.children@[j] == pre.children@[j],
            forall|j: int|
                0 <= j < i ==> #[trigger] model(node.children@[j]) == draw_full(
                    model(pre.children@[j]),
                ).0,
            trace@ == start + draw_full_kids(old(node)@, i as int).1,
            H::records_calls() ==> h.received() == hstart + draw_full_kids(old(node)@, i as int).1,
            start == old(trace)@.push(Call::Draw(old(node).id)),
            H::records_calls() ==> hstart == old(h).received().push(Call::Draw(old(node).id)),
            old(node)@.children.len() == len,
            forall|j: int|
                0 <= j < len ==> #[trigger] old(node)@.children[j] == model(old(node).children@[j]),
        decreases len - i,
    {
        proof {
            assert(decreases_to!(*old(node) => old(node).children));
            assert(node.children@[i as int] == old(node).children@[i as int]);
        }
        emit_inner_draw_full(&mut node.children[i], h, trace);
        proof {
            assert(trace@ =~= start + draw_full_kids(old(node)@, i + 1).1);
            assert(H::records_calls() ==> h.received() =~= hstart + draw_full_kids(old(node)@, i + 1).1);
        }
        i = i + 1;
    }
    node.state_flags.remove(CHILDREN_DRAW);
    proof {
        lemma_model(*node);
        lemma_draw_full_kids(old(node)@, len as int);
        let spec = draw_full(old(node)@);
        assert(node@.children =~= spec.0.children);
        assert(node@ =~= spec.0);
        assert(trace@ =~= old(trace)@ + spec.1);
        assert(H::records_calls() ==> h.received() =~= old(h).received() + spec.1);
    }
}

fn emit_inner_draw<H: WidgetEvents>(node: &mut WidgetBase, h: &mut H, trace: &mut Vec<Call>)
    ensures
        final(node)@ == draw_node(old(node)@).0,
        final(trace)@ == old(trace)@ + draw_node(old(node)@).1,
        H::records_calls() ==> final(h).received() == old(h).received() + draw_node(old(node)@).1,
    decreases *old(node),
{
    proof {
        lemma_model(*old(node));
    }
    let is_self_draw = node.state_flags.contains(SELF_DRAW);
    let is_children_draw = node.state_flags.contains(CHILDREN_DRAW);
    let is_visible = node.state_flags.contains(IS_VISIBLE);
    if !(is_visible && (is_self_draw || is_children_draw)) {
        proof {
            assert(trace@ =~= old(trace)@);
            assert(H::records_calls() ==> h.received() =~= old(h).received());
        }
        return ;
    }
    if is_self_draw {
        emit_inner_draw_full(node, h, trace);
        return ;
    }
    let ghost pre = *node;
    let ghost start = trace@;
    let ghost hstart = h.received();
    let len = node.children.len();
    let mut i: usize = 0;
    while i < len
        invariant
            len == node.children@.len(),
            len == pre.children@.len(),
            i <= len,
            pre.children == old(node).children,
            *node == (WidgetBase { children: node.children, ..pre }),
            forall|j: int| i <= j < len ==> node.children@[j] == pre.children@[j],
            forall|j: int|
                0 <= j < i ==> #[trigger] model(node.children@[j]) == draw_node(
                    model(pre.children@[j]),
                ).0,
            trace@ == start + draw_kids(old(node)@, i as int).1,
            H::records_calls() ==> h.received() == hstart + draw_kids(old(node)@, i as int).1,
            start == old(trace)@,
            H::records_calls() ==> hstart == old(h).received(),
            old(node)@.children.len() == len,
            forall|j: int|
                0 <= j < len ==> #[trigger] old(node)@.children[j] == model(old(node).children@[j]),
        decreases len - i,
    {
        proof {
            assert(decreases_to!(*old(node) => old(node).children));
            assert(node.children@[i as int] == old(node).children@[i as int]);
        }
        emit_inner_draw(&mut node.children[i], h, trace);
        proof {
            assert(trace@ =~= start + draw_kids(old(node)@, i + 1).1);
            assert(H::records_calls() ==> h.received() =~= hstart + draw_kids(old(node)@, i + 1).1);
        }
        i = i + 1;
    }
    node.state_flags.remove(CHILDREN_DRAW);
    proof {
        lemma_model(*node);
        lemma_draw_kids(old(node)@, len as int);
        let spec = draw_node(old(node)@);
        assert(node@.children =~= spec.0.children);
        assert(node@ =~= spec.0);
        assert(trace@ =~= old(trace)@ + spec.1);
        assert(H::records_calls() ==> h.received() =~= old(h).received() + spec.1);
    }
}

} // verus!

verus! {

// ---------------------------------------------------------------------------
// Pointer and keyboard events: the event goes down to the enabled widgets
// (under the pointer, for pointer events); children come first, and the
// first child subtree that accepts the event ends the search.

/// The kind of an event that is routed to one accepting widget.
#[derive(PartialEq, Eq, Structural, Copy, Clone, Debug)]
pub enum RoutedEvent {
    Keyboard,
    MouseWheel,
    MouseButton,
    MouseMove,
}

/// The answer at position `i`, or `false` past the end.
pub open spec fn answer_at(ans: Seq<bool>, i: int) -> bool {
    if 0 <= i < ans.len() {
        ans[i]
    } else {
        false
    }
}

/// The answer a call carries, if it has one.
pub open spec fn answer_of(c: Call) -> Option<bool> {
    match c {
        Call::Hit(_, a) => Some(a),
        Call::MouseMove(_, a) => Some(a),
        Call::MouseButton(_, a) => Some(a),
        Call::MouseWheel(_, a) => Some(a),
        Call::Keyboard(_, a) => Some(a),
        _ => None,
    }
}

/// The answers of the calls of a trace, in order.
pub open spec fn answers(t: Seq<Call>) -> Seq<bool>
    decreases t.len(),
{
    if t.len() == 0 {
        seq![]
    } else {
        let p = answers(t.drop_last());
        match answer_of(t.last()) {
            Some(a) => p.push(a),
            None => p,
        }
    }
}

proof fn lemma_answers_concat(a: Seq<Call>, b: Seq<Call>)
    ensures
        answers(a + b) == answers(a) + answers(b),
    decreases b.len(),
{
    if b.len() == 0 {
        assert(a + b =~= a);
        assert(answers(a) + answers(b) =~= answers(a));
    } else {
        lemma_answers_concat(a, b.drop_last());
        assert((a + b).drop_last() =~= a + b.drop_last());
        assert((a + b).last() == b.last());
        match answer_of(b.last()) {
            Some(x) => {
                assert(answers(a) + answers(b) =~= (answers(a) + answers(b.drop_last())).push(x));
            },
            None => {},
        }
    }
}

proof fn lemma_answers_single(c: Call)
    ensures
        answers(seq![c]) == match answer_of(c) {
            Some(a) => seq![a],
            None => seq![],
        },
{
    assert(seq![c].drop_last() =~= Seq::<Call>::empty());
    assert(seq![c].last() == c);
    assert(answers(Seq::<Call>::empty()) == Seq::<bool>::empty());
    match answer_of(c) {
        Some(a) => {
            assert(Seq::<bool>::empty().push(a) =~= seq![a]);
        },
        None => {},
    }
}

/// Where an event went in a subtree: whether it was accepted, the calls
/// made, how many answers they consumed, the new subtree, and the last
/// widget that became the event's target.
#[verifier::ext_equal]
pub struct Routed {
    pub accepted: bool,
    pub calls: Seq<Call>,
    pub used: nat,
    pub node: WidgetModel,
    pub target: Option<WidgetId>,
}

/// The same for the first children of a widget.
#[verifier::ext_equal]
pub struct RoutedKids {
    pub accepted: bool,
    pub calls: Seq<Call>,
    pub used: nat,
    pub children: Seq<WidgetModel>,
    pub target: Option<WidgetId>,
}

/// How an event is routed through the subtree `n`, given the answers of
/// the application in order.
///
/// A disabled widget, or one the pointer is not inside, does not take the
/// event.  Otherwise its children are tried in order until one subtree
/// accepts it; if none does, the widget itself gets it: keyboard and wheel
/// events are accepted if the widget accepts them; a button press counts a
/// pressed button on the widget, makes it the event's target, and is
/// accepted if the widget accepts it; a mouse move is always accepted, and
/// makes the widget the target when the pointer was not over it before.
pub open spec fn route(kind: RoutedEvent, n: WidgetModel, ans: Seq<bool>) -> Routed
    decreases n, n.children.len() + 1,
{
    if !n.has(IS_ENABLED) {
        Routed { accepted: false, calls: seq![], used: 0, node: n, target: None }
    } else {
        let hit = kind != RoutedEvent::Keyboard;
        let inside = if hit {
            answer_at(ans, 0)
        } else {
            true
        };
        let hcalls = if hit {
            seq![Call::Hit(n.id, inside)]
        } else {
            seq![]
        };
        let hu: nat = if hit {
            1
        } else {
            0
        };
        if !inside {
            Routed { accepted: false, calls: hcalls, used: hu, node: n, target: None }
        } else {
            let k = route_kids(kind, n, n.children.len() as int, ans.skip(hu as int));
            let n2 = n.with_children(k.children);
            let u = hu + k.used;
            if k.accepted {
                Routed { accepted: true, calls: hcalls + k.calls, used: u, node: n2, target: k.target }
            } else {
                let a = answer_at(ans, u as int);
                match kind {
                    RoutedEvent::Keyboard => Routed {
                        accepted: a,
                        calls: hcalls + k.calls.push(Call::Keyboard(n.id, a)),
                        used: u + 1,
                        node: n2,
                        target: k.target,
                    },
                    RoutedEvent::MouseWheel => Routed {
                        accepted: a,
                        calls: hcalls + k.calls.push(Call::MouseWheel(n.id, a)),
                        used: u + 1,
                        node: n2,
                        target: k.target,
                    },
                    RoutedEvent::MouseButton => Routed {
                        accepted: a,
                        calls: hcalls + k.calls.push(Call::MouseButton(n.id, a)),
                        used: u + 1,
                        node: WidgetModel { mouse_btn_num: clamp_btn(n.mouse_btn_num + 1), ..n2 },
                        target: Some(n.id),
                    },
                    RoutedEvent::MouseMove => Routed {
                        accepted: true,
                        calls: hcalls + k.calls,
                        used: u,
                        node: n2,
                        target: if !n.has(IS_OVER) {
                            Some(n.id)
                        } else {
                            k.target
                        },
                    },
                }
            }
        }
    }
}

/// How an event is routed through the first `k` children of `n`.
pub open spec fn route_kids(kind: RoutedEvent, n: WidgetModel, k: int, ans: Seq<bool>) -> RoutedKids
    decreases n, k,
{
    if k <= 0 || k > n.children.len() {
        RoutedKids { accepted: false, calls: seq![], used: 0, children: seq![], target: None }
    } else {
        let p = route_kids(kind, n, k - 1, ans);
        let c = n.children[k - 1];
        if p.accepted {
            RoutedKids { children: p.children.push(c), ..p }
        } else {
            let r = route(kind, c, ans.skip(p.used as int));
            RoutedKids {
                accepted: r.accepted,
                calls: p.calls + r.calls,
                used: p.used + r.used,
                children: p.children.push(r.node),
                target: if r.target is Some {
                    r.target
                } else {
                    p.target
                },
            }
        }
    }
}

/// Answers past those a routing consumes do not change it.
proof fn lemma_route_prefix(kind: RoutedEvent, n: WidgetModel, a: Seq<bool>, b: Seq<bool>)
    requires
        route(kind, n, a).used <= a.len(),
    ensures
        route(kind, n, a + b) == route(kind, n, a),
    decreases n, n.children.len() + 1,
{
    if n.has(IS_ENABLED) {
        let hit = kind != RoutedEvent::Keyboard;
        let hu: int = if hit {
            1
        } else {
            0
        };
        if hit {
            assert(answer_at(a + b, 0) == answer_at(a, 0));
        }
        let inside = if hit {
            answer_at(a, 0)
        } else {
            true
        };
        if inside {
            let k = route_kids(kind, n, n.children.len() as int, a.skip(hu));
            assert((a + b).skip(hu) =~= a.skip(hu) + b);
            lemma_route_kids_prefix(kind, n, n.children.len() as int, a.skip(hu), b);
            let u = hu + k.used;
            if !k.accepted && kind != RoutedEvent::MouseMove {
                assert(answer_at(a + b, u) == answer_at(a, u));
            }
        }
    }
}

proof fn lemma_route_kids_prefix(
    kind: RoutedEvent,
    n: WidgetModel,
    k: int,
    a: Seq<bool>,
    b: Seq<bool>,
)
    requires
        route_kids(kind, n, k, a).used <= a.len(),
    ensures
        route_kids(kind, n, k, a + b) == route_kids(kind, n, k, a),
    decreases n, k,
{
    if 0 < k <= n.children.len() {
        let p = route_kids(kind, n, k - 1, a);
        lemma_route_kids_prefix(kind, n, k - 1, a, b);
        if !p.accepted {
            let c = n.children[k - 1];
            assert((a + b).skip(p.used as int) =~= a.skip(p.used as int) + b);
            lemma_route_prefix(kind, c, a.skip(p.used as int), b);
        }
    }
}

/// Once a child subtree accepted the event, the later children are left
/// alone.
proof fn lemma_route_kids_stable(kind: RoutedEvent, n: WidgetModel, k: int, m: int, a: Seq<bool>)
    requires
        0 <= k <= m <= n.children.len(),
        route_kids(kind, n, k, a).accepted,
    ensures
        route_kids(kind, n, m, a) == (RoutedKids {
            children: route_kids(kind, n, k, a).children + n.children.subrange(k, m),
            ..route_kids(kind, n, k, a)
        }),
    decreases m,
{
    if m == k {
        assert(route_kids(kind, n, k, a).children + n.children.subrange(k, m) =~= route_kids(
            kind,
            n,
            k,
            a,
        ).children);
    } else {
        lemma_route_kids_stable(kind, n, k, m - 1, a);
        assert(route_kids(kind, n, k, a).children + n.children.subrange(k, m) =~= (route_kids(
            kind,
            n,
            k,
            a,
        ).children + n.children.subrange(k, m - 1)).push(n.children[m - 1]));
    }
}

proof fn lemma_route_kids_len(kind: RoutedEvent, n: WidgetModel, k: int, a: Seq<bool>)
    requires
        0 <= k <= n.children.len(),
    ensures
        route_kids(kind, n, k, a).children.len() == k,
    decreases k,
{
    if k > 0 {
        lemma_route_kids_len(kind, n, k - 1, a);
    }
}

/// Room for one more, and for one less, pressed button on every widget of
/// the subtree that a routed event can reach: the enabled widgets whose
/// ancestors are all enabled.
pub open spec fn btn_room(n: WidgetModel) -> bool
    decreases n, n.children.len() + 1,
{
    n.has(IS_ENABLED) ==> i8::MIN < n.mouse_btn_num < i8::MAX && btn_room_kids(
        n,
        n.children.len() as int,
    )
}

pub open spec fn btn_room_kids(n: WidgetModel, k: int) -> bool
    decreases n, k,
{
    if k <= 0 || k > n.children.len() {
        true
    } else {
        btn_room_kids(n, k - 1) && btn_room(n.children[k - 1])
    }
}

proof fn lemma_btn_room_kids(n: WidgetModel, k: int, j: int)
    requires
        0 <= j < k <= n.children.len(),
        btn_room_kids(n, k),
    ensures
        btn_room(n.children[j]),
    decreases k,
{
    if j < k - 1 {
        lemma_btn_room_kids(n, k - 1, j);
    }
}

proof fn lemma_btn_room_kids_prefix(n: WidgetModel, k: int, m: int)
    requires
        0 <= k <= m <= n.children.len(),
        btn_room_kids(n, m),
    ensures
        btn_room_kids(n, k),
    decreases m,
{
    if k < m {
        lemma_btn_room_kids_prefix(n, k, m - 1);
    }
}

/// Whether every widget of the subtree that a routed event can reach has
/// room for one more and one less pressed button: [btn_room], tested.
pub fn has_button_room(w: &WidgetBase) -> (b: bool)
    ensures
        b == btn_room(w@),
    decreases w,
{
    proof {
        lemma_model(*w);
    }
    if !w.state_flags.contains(IS_ENABLED) {
        return true;
    }
    let n = w.number_mouse_buttons_pressed;
    if !(i8::MIN < n && n < i8::MAX) {
        return false;
    }
    let len = w.children.len();
    let mut i: usize = 0;
    let mut ok = true;
    while i < len && ok
        invariant
            len == w.children@.len(),
            i <= len,
            w@.children.len() == len,
            forall|j: int| 0 <= j < len ==> #[trigger] w@.children[j] == model(w.children@[j]),
            ok == btn_room_kids(w@, i as int),
        decreases len - i,
    {
        proof {
            assert(decreases_to!(w => w.children));
        }
        ok = has_button_room(&w.children[i]);
        i = i + 1;
    }
    proof {
        if !ok && btn_room_kids(w@, len as int) {
            lemma_btn_room_kids_prefix(w@, i as int, len as int);
        }
    }
    ok
}

/// The trace `calls` is how `route` routes the event through `n` on the
/// answers the calls carry, with the given outcome.
pub open spec fn routed_as(
    kind: RoutedEvent,
    n: WidgetModel,
    calls: Seq<Call>,
    accepted: bool,
    target: Option<WidgetId>,
    n2: WidgetModel,
) -> bool {
    let o = route(kind, n, answers(calls));
    &&& o.calls == calls
    &&& o.used == answers(calls).len()
    &&& o.accepted == accepted
    &&& o.target == target
    &&& o.node == n2
}

/// One more child in the routing through the children: the child's own
/// routing on its answers extends that of the earlier children.
proof fn lemma_route_kids_step(
    kind: RoutedEvent,
    n0: WidgetModel,
    i: int,
    kc0: Seq<Call>,
    cc: Seq<Call>,
    a: bool,
    t: Option<WidgetId>,
    c2: WidgetModel,
)
    requires
        0 <= i < n0.children.len(),
        ({
            let o = route_kids(kind, n0, i, answers(kc0));
            !o.accepted && o.calls == kc0 && o.used == answers(kc0).len()
        }),
        routed_as(kind, n0.children[i], cc, a, t, c2),
    ensures
        ({
            let p = route_kids(kind, n0, i, answers(kc0));
            let o = route_kids(kind, n0, i + 1, answers(kc0 + cc));
            &&& o.accepted == a
            &&& o.calls == kc0 + cc
            &&& o.used == answers(kc0 + cc).len()
            &&& o.target == (if t is Some {
                t
            } else {
                p.target
            })
            &&& o.children == p.children.push(c2)
        }),
{
    lemma_answers_concat(kc0, cc);
    lemma_route_kids_prefix(kind, n0, i, answers(kc0), answers(cc));
    assert(answers(kc0 + cc).skip(answers(kc0).len() as int) =~= answers(cc));
}

/// The routing through a widget is made of the hit test, the routing
/// through the children and the widget's own call.
proof fn lemma_route_finish(
    kind: RoutedEvent,
    n0: WidgetModel,
    hcalls: Seq<Call>,
    kc: Seq<Call>,
    sc: Seq<Call>,
    inside: bool,
    a: bool,
)
    requires
        n0.has(IS_ENABLED),
        inside,
        hcalls == (if kind != RoutedEvent::Keyboard {
            seq![Call::Hit(n0.id, inside)]
        } else {
            seq![]
        }),
        ({
            let k = route_kids(kind, n0, n0.children.len() as int, answers(kc));
            &&& k.calls == kc
            &&& k.used == answers(kc).len()
            &&& sc == if k.accepted || kind == RoutedEvent::MouseMove {
                seq![]
            } else {
                match kind {
                    RoutedEvent::Keyboard => seq![Call::Keyboard(n0.id, a)],
                    RoutedEvent::MouseWheel => seq![Call::MouseWheel(n0.id, a)],
                    _ => seq![Call::MouseButton(n0.id, a)],
                }
            }
        }),
    ensures
        ({
            let k = route_kids(kind, n0, n0.children.len() as int, answers(kc));
            let o = route(kind, n0, answers(hcalls + kc + sc));
            &&& o.calls == hcalls + kc + sc
            &&& o.used == answers(hcalls + kc + sc).len()
            &&& o.accepted == if k.accepted || kind == RoutedEvent::MouseMove {
                true
            } else {
                a
            }
            &&& o.target == if k.accepted {
                k.target
            } else {
                match kind {
                    RoutedEvent::MouseButton => Some(n0.id),
                    RoutedEvent::MouseMove => if !n0.has(IS_OVER) {
                        Some(n0.id)
                    } else {
                        k.target
                    },
                    _ => k.target,
                }
            }
            &&& o.node == if !k.accepted && kind == RoutedEvent::MouseButton {
                WidgetModel {
                    mouse_btn_num: clamp_btn(n0.mouse_btn_num + 1),
                    ..n0.with_children(k.children)
                }
            } else {
                n0.with_children(k.children)
            }
        }),
{
    let hu: int = if kind != RoutedEvent::Keyboard {
        1
    } else {
        0
    };
    if kind != RoutedEvent::Keyboard {
        lemma_answers_single(Call::Hit(n0.id, inside));
    } else {
        assert(answers(Seq::<Call>::empty()) == Seq::<bool>::empty());
    }
    assert(answers(hcalls).len() == hu);
    lemma_answers_concat(hcalls, kc);
    lemma_answers_concat(hcalls + kc, sc);
    let ans = answers(hcalls + kc + sc);
    assert(ans.skip(hu) =~= answers(kc) + answers(sc));
    lemma_route_kids_prefix(kind, n0, n0.children.len() as int, answers(kc), answers(sc));
    if kind != RoutedEvent::Keyboard {
        assert(answer_at(ans, 0) == inside);
    }
    let k = route_kids(kind, n0, n0.children.len() as int, answers(kc));
    if !k.accepted && kind != RoutedEvent::MouseMove {
        lemma_answers_single(sc[0]);
        assert(answer_at(ans, hu + k.used) == a);
    } else {
        assert(answers(Seq::<Call>::empty()) == Seq::<bool>::empty());
    }
    let o = route(kind, n0, ans);
    assert(o.calls =~= hcalls + kc + sc);
}

/// Routing an event other than a button press leaves the subtree as it is.
proof fn lemma_route_keeps_node(kind: RoutedEvent, n: WidgetModel, a: Seq<bool>)
    requires
        kind != RoutedEvent::MouseButton,
    ensures
        route(kind, n, a).node == n,
    decreases n, n.children.len() + 1,
{
    if n.has(IS_ENABLED) {
        let hu: int = if kind != RoutedEvent::Keyboard {
            1
        } else {
            0
        };
        lemma_route_kids_keeps(kind, n, n.children.len() as int, a.skip(hu));
        assert(n.children.subrange(0, n.children.len() as int) =~= n.children);
        assert(n.with_children(n.children) =~= n);
    }
}

proof fn lemma_route_kids_keeps(kind: RoutedEvent, n: WidgetModel, k: int, a: Seq<bool>)
    requires
        kind != RoutedEvent::MouseButton,
        0 <= k <= n.children.len(),
    ensures
        route_kids(kind, n, k, a).children == n.children.subrange(0, k),
    decreases n, k,
{
    if k > 0 {
        lemma_route_kids_keeps(kind, n, k - 1, a);
        let p = route_kids(kind, n, k - 1, a);
        if !p.accepted {
            lemma_route_keeps_node(kind, n.children[k - 1], a.skip(p.used as int));
        }
        assert(n.children.subrange(0, k - 1).push(n.children[k - 1]) =~= n.children.subrange(0, k));
    }
}

#[verifier::spinoff_prover]
#[verifier::rlimit(40)]
fn emit_inner_routed<H: WidgetEvents>(
    kind: RoutedEvent,
    node: &mut WidgetBase,
    h: &mut H,
    trace: &mut Vec<Call>,
) -> (r: (bool, Option<WidgetId>))
    requires
        kind == RoutedEvent::MouseButton ==> btn_room(old(node)@),
    ensures
        final(trace)@.len() >= old(trace)@.len(),
        final(trace)@.take(old(trace)@.len() as int) == old(trace)@,
        routed_as(
            kind,
            old(node)@,
            final(trace)@.skip(old(trace)@.len() as int),
            r.0,
            r.1,
            final(node)@,
        ),
        H::records_calls() ==> final(h).received() == old(h).received() + final(trace)@.skip(
            old(trace)@.len() as int,
        ),
    decreases *old(node),
{
    proof {
        lemma_model(*old(node));
    }
    let ghost t0 = trace@;
    let ghost n0 = old(node)@;
    if !node.state_flags.contains(IS_ENABLED) {
        proof {
            assert(trace@.skip(t0.len() as int) =~= Seq::<Call>::empty());
            assert(trace@.take(t0.len() as int) =~= t0);
            assert(answers(Seq::<Call>::empty()) == Seq::<bool>::empty());
            assert(H::records_calls() ==> h.received() =~= old(h).received() + trace@.skip(
                t0.len() as int,
            ));
        }
        return (false, None);
    }
    let id = node.id;
    let inside = if kind != RoutedEvent::Keyboard {
        ask_hit(h, id, trace)
    } else {
        true
    };
    let ghost hcalls = trace@.skip(t0.len() as int);
    let ghost hu: int = if kind != RoutedEvent::Keyboard {
        1
    } else {
        0
    };
    if !inside {
        proof {
            assert(hcalls =~= seq![Call::Hit(id, inside)]);
            lemma_answers_single(Call::Hit(id, inside));
            assert(trace@.take(t0.len() as int) =~= t0);
        }
        proof {
            assert(H::records_calls() ==> h.received() =~= old(h).received() + trace@.skip(
                t0.len() as int,
            ));
        }
        return (false, None);
    }
    let ghost t1 = trace@;
    proof {
        if kind != RoutedEvent::Keyboard {
            assert(t1.skip(t0.len() as int) =~= seq![Call::Hit(id, inside)]);
        } else {
            assert(t1.skip(t0.len() as int) =~= Seq::<Call>::empty());
        }
        assert(t1.take(t0.len() as int) =~= t0);
    }
    let ghost pre = *node;
    let len = node.children.len();
    let mut i: usize = 0;
    let mut accepted = false;
    let mut target: Option<WidgetId> = None;
    while i < len && !accepted
        invariant
            len == node.children@.len(),
            len == pre.children@.len(),
            i <= len,
            pre.children == old(node).children,
            *node == (WidgetBase { children: node.children, ..pre }),
            pre.id == id,
            forall|j: int| i <= j < len ==> node.children@[j] == pre.children@[j],
            n0 == old(node)@,
            n0.children.len() == len,
            forall|j: int| 0 <= j < len ==> #[trigger] n0.children[j] == model(old(node).children@[j]),
            trace@.len() >= t1.len(),
            trace@.take(t1.len() as int) == t1,
            t1.len() >= t0.len(),
            t1.take(t0.len() as int) == t0,
            H::records_calls() ==> h.received() == old(h).received() + trace@.skip(
                t0.len() as int,
            ),
            ({
                let kc = trace@.skip(t1.len() as int);
                let o = route_kids(kind, n0, i as int, answers(kc));
                &&& o.accepted == accepted
                &&& o.calls == kc
                &&& o.used == answers(kc).len()
                &&& o.target == target
                &&& o.children.len() == i
                &&& forall|j: int| 0 <= j < i ==> #[trigger] o.children[j] == model(node.children@[j])
            }),
            kind == RoutedEvent::MouseButton ==> btn_room_kids(n0, len as int),
        decreases len - i,
    {
        proof {
            assert(decreases_to!(*old(node) => old(node).children));
            assert(node.children@[i as int] == old(node).children@[i as int]);
            if kind == RoutedEvent::MouseButton {
                lemma_btn_room_kids(n0, len as int, i as int);
            }
        }
        let ghost before = node.children@;
        let ghost kc0 = trace@.skip(t1.len() as int);
        let ghost t2 = trace@;
        let (a, t) = emit_inner_routed(kind, &mut node.children[i], h, trace);
        proof {
            let cc = trace@.skip(t2.len() as int);
            let kc1 = trace@.skip(t1.len() as int);
            assert(trace@ =~= t2 + cc) by {
                assert(trace@.take(t2.len() as int) == t2);
            }
            assert(kc1 =~= kc0 + cc);
            assert(trace@.take(t1.len() as int) =~= t1);
            assert(t2.take(t0.len() as int) =~= t0) by {
                assert(t2.take(t1.len() as int) == t1);
            }
            assert(trace@.skip(t0.len() as int) =~= t2.skip(t0.len() as int) + cc);
            lemma_route_kids_step(kind, n0, i as int, kc0, cc, a, t, model(node.children@[i as int]));
            let o = route_kids(kind, n0, i + 1, answers(kc1));
            assert forall|j: int| 0 <= j < i + 1 implies #[trigger] o.children[j] == model(
                node.children@[j],
            ) by {
                if j < i {
                    assert(node.children@[j] == before[j]);
                }
            }
        }
        accepted = a;
        if t.is_some() {
            target = t;
        }
        i = i + 1;
    }
    let ghost kc = trace@.skip(t1.len() as int);
    proof {
        if accepted {
            lemma_route_kids_stable(kind, n0, i as int, len as int, answers(kc));
        }
        lemma_route_kids_len(kind, n0, len as int, answers(kc));
    }
    let ghost t3 = trace@;
    let ghost r3 = h.received();
    if !accepted {
        match kind {
            RoutedEvent::Keyboard => {
                accepted = ask_keyboard(h, id, trace);
            },
            RoutedEvent::MouseWheel => {
                accepted = ask_mouse_wheel(h, id, trace);
            },
            RoutedEvent::MouseButton => {
                node.add_mouse_btn_num(1);
                accepted = ask_mouse_button(h, id, trace);
                target = Some(id);
            },
            RoutedEvent::MouseMove => {
                accepted = true;
                if !node.state_flags.contains(IS_OVER) {
                    target = Some(id);
                }
            },
        }
    }
    proof {
        let sc = trace@.skip(t3.len() as int);
        let all = trace@.skip(t0.len() as int);
        assert(trace@.take(t3.len() as int) =~= t3);
        assert(t3 =~= t1 + kc) by {
            assert(t3.take(t1.len() as int) == t1);
        }
        assert(t1 =~= t0 + hcalls) by {
            assert(t1.take(t0.len() as int) == t0);
        }
        assert(trace@ =~= t3 + sc);
        assert(all =~= hcalls + kc + sc);
        assert(trace@.take(t0.len() as int) =~= t0);
        if kind != RoutedEvent::Keyboard {
            assert(hcalls =~= seq![Call::Hit(id, inside)]);
        } else {
            assert(hcalls =~= Seq::<Call>::empty());
        }
        let k = route_kids(kind, n0, len as int, answers(kc));
        if !k.accepted && kind != RoutedEvent::MouseMove {
            assert(sc =~= seq![sc[0]]);
        } else {
            assert(sc =~= Seq::<Call>::empty());
        }
        lemma_route_finish(kind, n0, hcalls, kc, sc, inside, accepted);
        lemma_model(*node);
        let o = route(kind, n0, answers(all));
        assert(node@.children =~= o.node.children);
        assert(node@ =~= o.node);
        if H::records_calls() {
            assert(h.received() =~= r3 + sc);
            assert(all =~= t3.skip(t0.len() as int) + sc);
            assert(h.received() =~= old(h).received() + all);
        }
    }
    (accepted, target)
}

} // verus!

verus! {

/// The mathematical picture of a dispatcher.
#[verifier::ext_equal]
pub struct DispatcherModel {
    /// The widget the pointer is over.
    pub mouse_over: Option<WidgetId>,
    /// The widget that holds the pressed mouse buttons.
    pub mouse_button: Option<WidgetId>,
    pub runtime: Runtime,
    pub root: WidgetModel,
    pub destroyed: bool,
}

/// Room for one more and one less pressed button on the widget that holds
/// the pressed buttons.
pub open spec fn holder_room(d: DispatcherModel) -> bool {
    match d.mouse_button {
        Some(w) => match find(d.root, w) {
            Some(m) => i8::MIN < m.mouse_btn_num < i8::MAX,
            None => true,
        },
        None => true,
    }
}

/// The outcome of dispatching one event: whether it was accepted, the calls
/// made, how many answers they consumed, and the new dispatcher.
#[verifier::ext_equal]
pub struct Dispatched {
    pub accepted: bool,
    pub calls: Seq<Call>,
    pub used: nat,
    pub after: DispatcherModel,
}

/// The trace `calls` is how `f` dispatches the event on the answers the
/// calls carry, with the given outcome.
pub open spec fn dispatched_as(
    o: Dispatched,
    calls: Seq<Call>,
    accepted: bool,
    after: DispatcherModel,
) -> bool {
    &&& o.calls == calls
    &&& o.used == answers(calls).len()
    &&& o.accepted == accepted
    &&& o.after == after
}

/// The second part of a mouse move, after the widget the pointer was over
/// has been dealt with: the move is routed from the root; a widget that the
/// pointer newly entered is marked as being under the pointer, the widget
/// the pointer was over before (if it is still in the tree) is left, the
/// new one is entered, and it gets the move if it tracks the mouse.
pub open spec fn mouse_move_enter(d: DispatcherModel, ans: Seq<bool>, c: Seq<Call>, u: nat) -> Dispatched {
    let r = route(RoutedEvent::MouseMove, d.root, ans.skip(u as int));
    match r.target {
        None => Dispatched { accepted: r.accepted, calls: c + r.calls, used: u + r.used, after: d },
        Some(t) => {
            let root1 = edit_at(d.root, t, NodeEdit::SetFlag(IS_OVER, true));
            let left = match d.mouse_over {
                Some(w) => find(root1, w) is Some,
                None => false,
            };
            let root2 = if left {
                edit_at(root1, d.mouse_over.unwrap(), NodeEdit::SetFlag(IS_OVER, false))
            } else {
                root1
            };
            let leave = if left {
                seq![Call::MouseCross(d.mouse_over.unwrap(), false)]
            } else {
                seq![]
            };
            let tracking = match find(root2, t) {
                Some(m) => m.has(HAS_MOUSE_TRACKING),
                None => false,
            };
            let uu = u + r.used;
            let mv = if tracking {
                seq![Call::MouseMove(t, answer_at(ans, uu as int))]
            } else {
                seq![]
            };
            Dispatched {
                accepted: r.accepted,
                calls: c + r.calls + leave + seq![Call::MouseCross(t, true)] + mv,
                used: if tracking {
                    uu + 1
                } else {
                    uu
                },
                after: DispatcherModel { root: root2, mouse_over: Some(t), ..d },
            }
        },
    }
}

/// How a mouse move is dispatched, given the answers of the application.
///
/// If the pointer was over a widget still in the tree: when the pointer is
/// still inside it and it holds a pressed button or tracks the mouse, it
/// gets the move and that is all; when the pointer left it while it holds a
/// pressed button, it gets the move and that is all; when the pointer left
/// it otherwise, it is no longer under the pointer and is told so.  Then
/// the move is routed from the root as [mouse_move_enter] says.
pub open spec fn mouse_move_spec(d: DispatcherModel, ans: Seq<bool>) -> Dispatched {
    let over = match d.mouse_over {
        Some(w) => find(d.root, w),
        None => None,
    };
    match over {
        Some(wm) => {
            let w = d.mouse_over.unwrap();
            let inside = answer_at(ans, 0);
            let c0 = seq![Call::Hit(w, inside)];
            let busy = wm.mouse_btn_num > 0;
            if (inside && (busy || wm.has(HAS_MOUSE_TRACKING))) || (!inside && busy) {
                Dispatched {
                    accepted: true,
                    calls: c0.push(Call::MouseMove(w, answer_at(ans, 1))),
                    used: 2,
                    after: d,
                }
            } else if inside {
                mouse_move_enter(d, ans, c0, 1)
            } else {
                let d1 = DispatcherModel {
                    root: edit_at(d.root, w, NodeEdit::SetFlag(IS_OVER, false)),
                    mouse_over: None,
                    ..d
                };
                mouse_move_enter(d1, ans, c0.push(Call::MouseCross(w, false)), 1)
            }
        },
        None => mouse_move_enter(d, ans, seq![], 0),
    }
}

/// How a mouse button event is dispatched, given the answers.
///
/// If a widget holding pressed buttons is still in the tree, it gets the
/// event: a press counts one more button if the pointer is inside it, a
/// release counts one less and, when none is left, the widget no longer
/// holds the buttons; either way the event counts as accepted.  Otherwise
/// the event is routed from the root, and the widget it reached last holds
/// the buttons.
///
/// A release that finds no widget holding the buttons is routed like a
/// press: the widget that takes it counts one more pressed button and holds
/// the buttons.  Every release follows a press that made a holder, so this
/// does not happen in a well-paired sequence of events; where it does, the
/// routing above is what is done (a debug build of a program may stop on
/// it as a broken pairing instead).
pub open spec fn mouse_button_spec(d: DispatcherModel, pressed: bool, ans: Seq<bool>) -> Dispatched {
    let held = match d.mouse_button {
        Some(w) => find(d.root, w),
        None => None,
    };
    match held {
        Some(wm) => {
            let w = d.mouse_button.unwrap();
            let inside = answer_at(ans, 0);
            let c0 = seq![Call::Hit(w, inside)];
            let a = answer_at(ans, 1);
            if pressed {
                if inside {
                    Dispatched {
                        accepted: true,
                        calls: c0.push(Call::MouseButton(w, a)),
                        used: 2,
                        after: DispatcherModel {
                            root: edit_at(d.root, w, NodeEdit::AddMouseBtn(1)),
                            ..d
                        },
                    }
                } else {
                    Dispatched { accepted: true, calls: c0, used: 1, after: d }
                }
            } else {
                let root1 = edit_at(d.root, w, NodeEdit::AddMouseBtn(-1i8));
                let none_left = match find(root1, w) {
                    Some(m) => m.mouse_btn_num == 0,
                    None => false,
                };
                Dispatched {
                    accepted: true,
                    calls: c0.push(Call::MouseButton(w, a)),
                    used: 2,
                    after: DispatcherModel {
                        root: root1,
                        mouse_button: if none_left {
                            None
                        } else {
                            d.mouse_button
                        },
                        ..d
                    },
                }
            }
        },
        None => {
            let r = route(RoutedEvent::MouseButton, d.root, ans);
            Dispatched {
                accepted: r.accepted,
                calls: r.calls,
                used: r.used,
                after: DispatcherModel {
                    root: r.node,
                    mouse_button: if r.target is Some {
                        r.target
                    } else {
                        d.mouse_button
                    },
                    ..d
                },
            }
        },
    }
}

/// The root a dispatcher makes for itself: one widget with the invalid id,
/// no children, the flags of a new widget, no pressed button, and the
/// runtime.
pub open spec fn empty_root(m: WidgetModel, runtime: Runtime) -> bool {
    &&& m.id.value() == 0
    &&& m.children.len() == 0
    &&& m.flags == (StateFlags { bits: INIT_FLAGS })
    &&& m.mouse_btn_num == 0
    &&& m.tool_type_time.is_none()
    &&& m.double_click_time.is_none()
    &&& m.runtime == Some(runtime)
}

/// Dispatches events through a tree of widgets.
pub struct Dispatcher {
    widget_mouse_over: Option<WidgetId>,
    widget_mouse_button: Option<WidgetId>,
    runtime: Runtime,
    root: WidgetBase,
    destroyed: bool,
}

impl View for Dispatcher {
    type V = DispatcherModel;

    closed spec fn view(&self) -> DispatcherModel {
        DispatcherModel {
            mouse_over: self.widget_mouse_over,
            mouse_button: self.widget_mouse_button,
            runtime: self.runtime,
            root: self.root@,
            destroyed: self.destroyed,
        }
    }
}

impl Dispatcher {
    /// A dispatcher over the tree of `root`, or, without one, over a single
    /// empty widget with the invalid id (which no fresh id equals); every
    /// widget of the tree gets the runtime.
    pub fn new(root: Option<WidgetBase>, runtime: Runtime) -> (d: Dispatcher)
        ensures
            d@.mouse_over.is_none(),
            d@.mouse_button.is_none(),
            d@.runtime == runtime,
            !d@.destroyed,
            match root {
                Some(r) => d@.root == with_runtime(r@, runtime),
                None => empty_root(d@.root, runtime),
            },
    {
        let root = match root {
            Some(r) => r,
            None => WidgetBase::new(WidgetId::invalid()),
        };
        let mut out = Dispatcher {
            widget_mouse_over: None,
            widget_mouse_button: None,
            runtime,
            root,
            destroyed: false,
        };
        set_runtime_to_widget_inner(&mut out.root, runtime);
        proof {
            lemma_model(out.root);
        }
        out
    }

    /// Destroys the current tree, unless that was done already, and puts
    /// `root` in its place with the dispatcher's runtime.
    pub fn reinit<H: WidgetEvents>(&mut self, root: WidgetBase, h: &mut H) -> (calls: Vec<Call>)
        ensures
            H::records_calls() ==> final(h).received() == old(h).received() + calls@,
            calls@ == if old(self)@.destroyed {
                seq![]
            } else {
                lifecycle_calls(old(self)@.root, LifecycleState::Destroy { unexpected: false })
            },
            final(self)@ == (DispatcherModel {
                root: with_runtime(root@, old(self)@.runtime),
                destroyed: true,
                ..old(self)@
            }),
    {
        let mut calls: Vec<Call> = Vec::new();
        if !self.destroyed {
            calls = self.destroy(h);
        }
        self.root = root;
        set_runtime_to_widget_inner(&mut self.root, self.runtime);
        proof {
            assert(calls@ =~= if old(self)@.destroyed {
                seq![]
            } else {
                lifecycle_calls(old(self)@.root, LifecycleState::Destroy { unexpected: false })
            });
        }
        calls
    }

    /// The root widget.
    pub fn widget(&self) -> (w: &WidgetBase)
        ensures
            w@ == self@.root,
    {
        &self.root
    }

    /// Whether the widget holding the pressed buttons has room for one more
    /// and one less: [holder_room], tested.
    pub fn holder_has_room(&self) -> (b: bool)
        ensures
            b == holder_room(self@),
    {
        match self.widget_mouse_button {
            Some(w) => match self.root.lookup(w) {
                Some((_f, n)) => i8::MIN < n && n < i8::MAX,
                None => true,
            },
            None => true,
        }
    }

    /// The widget that holds the pressed mouse buttons, if any.
    pub fn mouse_button_holder(&self) -> (w: Option<WidgetId>)
        ensures
            w == self@.mouse_button,
    {
        self.widget_mouse_button
    }

    /// The root widget, to change; widgets added through it get no runtime
    /// until the runtime is set again.
    pub fn widget_mut(&mut self) -> (w: &mut WidgetBase)
        ensures
            w@ == old(self)@.root,
            final(self)@ == (DispatcherModel { root: final(w)@, ..old(self)@ }),
    {
        &mut self.root
    }

    /// Sets the tooltip time of the runtime, which every widget shares.
    pub fn set_tool_type_duration(&mut self, duration: Duration)
        ensures
            final(self)@ == (DispatcherModel {
                runtime: Runtime { tool_type_time: duration, ..old(self)@.runtime },
                root: with_runtime(
                    old(self)@.root,
                    Runtime { tool_type_time: duration, ..old(self)@.runtime },
                ),
                ..old(self)@
            }),
    {
        self.runtime.set_tool_type_time(duration);
        set_runtime_to_widget_inner(&mut self.root, self.runtime);
    }

    pub fn tool_type_duration(&self) -> (d: Duration)
        ensures
            d == self@.runtime.tool_type_time,
    {
        self.runtime.tool_type_time()
    }

    /// Sets the double click time of the runtime, which every widget shares.
    pub fn set_double_click_duration(&mut self, duration: Duration)
        ensures
            final(self)@ == (DispatcherModel {
                runtime: Runtime { double_click_time: duration, ..old(self)@.runtime },
                root: with_runtime(
                    old(self)@.root,
                    Runtime { double_click_time: duration, ..old(self)@.runtime },
                ),
                ..old(self)@
            }),
    {
        self.runtime.set_double_click_time(duration);
        set_runtime_to_widget_inner(&mut self.root, self.runtime);
    }

    pub fn double_click_duration(&self) -> (d: Duration)
        ensures
            d == self@.runtime.double_click_time,
    {
        self.runtime.double_click_time()
    }

    /// Tells every widget, children before parents, that it is destroyed.
    /// A second call does nothing.  Dropping a dispatcher does not destroy
    /// its tree: call this before the dispatcher goes away.
    pub fn destroy<H: WidgetEvents>(&mut self, h: &mut H) -> (calls: Vec<Call>)
        ensures
            H::records_calls() ==> final(h).received() == old(h).received() + calls@,
            calls@ == if old(self)@.destroyed {
                seq![]
            } else {
                lifecycle_calls(old(self)@.root, LifecycleState::Destroy { unexpected: false })
            },
            final(self)@ == (DispatcherModel { destroyed: true, ..old(self)@ }),
    {
        let mut trace: Vec<Call> = Vec::new();
        if self.destroyed {
            return trace;
        }
        self.destroyed = true;
        emit_inner_lifecycle(&self.root, LifecycleState::Destroy { unexpected: false }, h, &mut trace);
        proof {
            assert(trace@ =~= lifecycle_calls(old(self)@.root, LifecycleState::Destroy { unexpected: false }));
        }
        trace
    }

    /// Layout event for every widget, parents before children.
    pub fn emit_layout<H: WidgetEvents>(&mut self, event: &LayoutEventCtx, h: &mut H) -> (calls: Vec<
        Call,
    >)
        ensures
            H::records_calls() ==> final(h).received() == old(h).received() + calls@,
            calls@ == layout_calls(old(self)@.root),
            final(self)@ == old(self)@,
    {
        let mut trace: Vec<Call> = Vec::new();
        emit_inner_layout(&self.root, event, h, &mut trace);
        proof {
            assert(trace@ =~= layout_calls(old(self)@.root));
        }
        trace
    }

    /// This event should be called every program loop: the widgets that
    /// asked for it are updated, then the widgets that asked to be deleted
    /// are destroyed and removed.
    pub fn emit_tick<H: WidgetEvents>(&mut self, h: &mut H) -> (calls: Vec<Call>)
        ensures
            H::records_calls() ==> final(h).received() == old(h).received() + calls@,
            ({
                let u = update_node(old(self)@.root);
                let c = check_delete(u.0);
                &&& calls@ == u.1 + c.1
                &&& final(self)@ == (DispatcherModel { root: c.0, ..old(self)@ })
            }),
    {
        let mut trace: Vec<Call> = Vec::new();
        emit_inner_update(&mut self.root, h, &mut trace);
        emit_inner_check_delete(&mut self.root, h, &mut trace);
        proof {
            let u = update_node(old(self)@.root);
            assert(trace@ =~= u.1 + check_delete(u.0).1);
        }
        trace
    }

    /// Draw event: with `force` every visible widget is drawn, else only
    /// those that asked for it.
    pub fn emit_draw<H: WidgetEvents>(&mut self, h: &mut H, force: bool) -> (calls: Vec<Call>)
        ensures
            H::records_calls() ==> final(h).received() == old(h).received() + calls@,
            ({
                let r = if force {
                    draw_full(old(self)@.root)
                } else {
                    draw_node(old(self)@.root)
                };
                &&& calls@ == r.1
                &&& final(self)@ == (DispatcherModel { root: r.0, ..old(self)@ })
            }),
    {
        let mut trace: Vec<Call> = Vec::new();
        if !force {
            emit_inner_draw(&mut self.root, h, &mut trace);
        } else {
            emit_inner_draw_full(&mut self.root, h, &mut trace);
        }
        proof {
            let r = if force {
                draw_full(old(self)@.root)
            } else {
                draw_node(old(self)@.root)
            };
            assert(trace@ =~= r.1);
        }
        trace
    }

    /// Mouse wheel event, routed from the root.
    pub fn emit_mouse_wheel<H: WidgetEvents>(&mut self, h: &mut H) -> (r: (bool, Vec<Call>))
        ensures
            H::records_calls() ==> final(h).received() == old(h).received() + r.1@,
            routed_as(
                RoutedEvent::MouseWheel,
                old(self)@.root,
                r.1@,
                r.0,
                route(RoutedEvent::MouseWheel, old(self)@.root, answers(r.1@)).target,
                final(self)@.root,
            ),
            final(self)@ == (DispatcherModel { root: final(self)@.root, ..old(self)@ }),
    {
        let mut trace: Vec<Call> = Vec::new();
        let (a, _t) = emit_inner_routed(RoutedEvent::MouseWheel, &mut self.root, h, &mut trace);
        proof {
            assert(trace@.skip(0) =~= trace@);
        }
        (a, trace)
    }

    /// Keyboard event, routed from the root.
    pub fn emit_keyboard<H: WidgetEvents>(&mut self, h: &mut H) -> (r: (bool, Vec<Call>))
        ensures
            H::records_calls() ==> final(h).received() == old(h).received() + r.1@,
            routed_as(
                RoutedEvent::Keyboard,
                old(self)@.root,
                r.1@,
                r.0,
                route(RoutedEvent::Keyboard, old(self)@.root, answers(r.1@)).target,
                final(self)@.root,
            ),
            final(self)@ == (DispatcherModel { root: final(self)@.root, ..old(self)@ }),
    {
        let mut trace: Vec<Call> = Vec::new();
        let (a, _t) = emit_inner_routed(RoutedEvent::Keyboard, &mut self.root, h, &mut trace);
        proof {
            assert(trace@.skip(0) =~= trace@);
        }
        (a, trace)
    }

    /// The routing part of a mouse move, see [mouse_move_enter].
    #[verifier::spinoff_prover]
    #[verifier::rlimit(80)]
    fn emit_mouse_move_enter<H: WidgetEvents>(&mut self, h: &mut H, trace: &mut Vec<Call>) -> (accepted: bool)
        ensures
            dispatched_as(
                mouse_move_enter(
                    old(self)@,
                    answers(final(trace)@),
                    old(trace)@,
                    answers(old(trace)@).len(),
                ),
                final(trace)@,
                accepted,
                final(self)@,
            ),
            H::records_calls() ==> final(h).received() == old(h).received() + final(trace)@.skip(
                old(trace)@.len() as int,
            ),
    {
        let ghost d0 = self@;
        let ghost t0 = trace@;
        let ghost u = answers(t0).len();
        let (acc, target) = emit_inner_routed(RoutedEvent::MouseMove, &mut self.root, h, trace);
        let ghost rc = trace@.skip(t0.len() as int);
        let ghost t1 = trace@;
        proof {
            assert(t1 =~= t0 + rc) by {
                assert(t1.take(t0.len() as int) == t0);
            }
            lemma_answers_concat(t0, rc);
            lemma_route_keeps_node(RoutedEvent::MouseMove, d0.root, answers(rc));
        }
        match target {
            None => {
                proof {
                    let ans = answers(trace@);
                    assert(ans.skip(u as int) =~= answers(rc));
                    assert(self@ =~= d0);
                }
                acc
            },
            Some(t) => {
                self.root.edit_of(t, NodeEdit::SetFlag(IS_OVER, true));
                let ghost root1 = self@.root;
                let ghost t2 = trace@;
                match self.widget_mouse_over {
                    Some(w) => {
                        if self.root.lookup(w).is_some() {
                            self.root.edit_of(w, NodeEdit::SetFlag(IS_OVER, false));
                            call_mouse_cross(h, w, false, trace);
                            proof {
                                assert(H::records_calls() ==> h.received() =~= old(h).received()
                                    + trace@.skip(t0.len() as int));
                            }
                        }
                    },
                    None => {},
                }
                let ghost leave = trace@.skip(t2.len() as int);
                let ghost t3 = trace@;
                self.widget_mouse_over = Some(t);
                call_mouse_cross(h, t, true, trace);
                proof {
                    assert(H::records_calls() ==> h.received() =~= old(h).received() + trace@.skip(
                        t0.len() as int,
                    ));
                }
                let ghost t4 = trace@;
                let tracking = match self.root.lookup(t) {
                    Some((flags, _n)) => flags.contains(HAS_MOUSE_TRACKING),
                    None => false,
                };
                if tracking {
                    ask_mouse_move(h, t, trace);
                    proof {
                        assert(H::records_calls() ==> h.received() =~= old(h).received()
                            + trace@.skip(t0.len() as int));
                    }
                }
                proof {
                    let mv = trace@.skip(t4.len() as int);
                    assert(t2 == t1);
                    assert(leave =~= if d0.mouse_over is Some && find(root1, d0.mouse_over.unwrap()) is Some {
                        seq![Call::MouseCross(d0.mouse_over.unwrap(), false)]
                    } else {
                        seq![]
                    });
                    assert(t3 =~= t1 + leave);
                    assert(t4 =~= t3 + seq![Call::MouseCross(t, true)]);
                    assert(trace@ =~= t4 + mv);
                    lemma_answers_single(Call::MouseCross(t, true));
                    if leave.len() > 0 {
                        lemma_answers_single(leave[0]);
                        assert(leave =~= seq![leave[0]]);
                    } else {
                        assert(answers(leave) == answers(Seq::<Call>::empty()));
                    }
                    assert(answers(Seq::<Call>::empty()) == Seq::<bool>::empty());
                    lemma_answers_concat(t1, leave);
                    lemma_answers_concat(t3, seq![Call::MouseCross(t, true)]);
                    lemma_answers_concat(t4, mv);
                    if tracking {
                        assert(mv.len() == 1);
                        lemma_answers_single(mv[0]);
                        assert(mv =~= seq![mv[0]]);
                    } else {
                        assert(mv =~= Seq::<Call>::empty());
                    }
                    let ans = answers(trace@);
                    assert(ans =~= answers(t0) + answers(rc) + answers(mv));
                    assert(ans.skip(u as int) =~= answers(rc) + answers(mv));
                    lemma_route_prefix(RoutedEvent::MouseMove, d0.root, answers(rc), answers(mv));
                    let o = mouse_move_enter(d0, ans, t0, u);
                    assert(o.calls =~= trace@);
                    assert(self@ =~= o.after);
                }
                acc
            },
        }
    }

    /// Mouse move event.  The application's `is_inside` answers for the
    /// pointer of the move; see [mouse_move_spec] for who gets it.
    #[verifier::spinoff_prover]
    #[verifier::rlimit(40)]
    pub fn emit_mouse_move<H: WidgetEvents>(&mut self, h: &mut H) -> (r: (bool, Vec<Call>))
        ensures
            H::records_calls() ==> final(h).received() == old(h).received() + r.1@,
            dispatched_as(mouse_move_spec(old(self)@, answers(r.1@)), r.1@, r.0, final(self)@),
    {
        let ghost d0 = self@;
        let mut trace: Vec<Call> = Vec::new();
        proof {
            assert(answers(Seq::<Call>::empty()) == Seq::<bool>::empty());
        }
        match self.widget_mouse_over {
            Some(w) => {
                match self.root.lookup(w) {
                    Some((flags, btn)) => {
                        let inside = ask_hit(h, w, &mut trace);
                        proof {
                            assert(trace@ =~= seq![Call::Hit(w, inside)]);
                            lemma_answers_single(Call::Hit(w, inside));
                            assert(H::records_calls() ==> h.received() =~= old(h).received() + trace@);
                        }
                        let ghost c0 = trace@;
                        if (inside && (btn > 0 || flags.contains(HAS_MOUSE_TRACKING))) || (!inside
                            && btn > 0) {
                            let a = ask_mouse_move(h, w, &mut trace);
                            proof {
                                lemma_answers_concat(c0, seq![Call::MouseMove(w, a)]);
                                lemma_answers_single(Call::MouseMove(w, a));
                                assert(trace@ =~= c0 + seq![Call::MouseMove(w, a)]);
                                assert(answers(trace@) =~= seq![inside, a]);
                                assert(H::records_calls() ==> h.received() =~= old(h).received()
                                    + trace@);
                            }
                            return (true, trace);
                        }
                        if !inside {
                            self.root.edit_of(w, NodeEdit::SetFlag(IS_OVER, false));
                            call_mouse_cross(h, w, false, &mut trace);
                            self.widget_mouse_over = None;
                            proof {
                                lemma_answers_concat(c0, seq![Call::MouseCross(w, false)]);
                                lemma_answers_single(Call::MouseCross(w, false));
                                assert(trace@ =~= c0 + seq![Call::MouseCross(w, false)]);
                                assert(answers(trace@) =~= seq![inside]);
                                assert(H::records_calls() ==> h.received() =~= old(h).received()
                                    + trace@);
                            }
                        }
                        let ghost t1 = trace@;
                        let ghost d1 = self@;
                        let acc = self.emit_mouse_move_enter(h, &mut trace);
                        proof {
                            assert(trace@.take(t1.len() as int) =~= t1) by {
                                let o = mouse_move_enter(d1, answers(trace@), t1, 1);
                                assert(o.calls == trace@);
                            }
                            lemma_answers_concat(t1, trace@.skip(t1.len() as int));
                            assert(trace@ =~= t1 + trace@.skip(t1.len() as int));
                            assert(answer_at(answers(trace@), 0) == inside);
                            assert(H::records_calls() ==> h.received() =~= old(h).received()
                                + trace@);
                        }
                        return (acc, trace);
                    },
                    None => {},
                }
            },
            None => {},
        }
        let acc = self.emit_mouse_move_enter(h, &mut trace);
        proof {
            assert(trace@.skip(0) =~= trace@);
        }
        (acc, trace)
    }

    /// Mouse button event in the given state.  The application's
    /// `is_inside` answers for the pointer of the event; see
    /// [mouse_button_spec] for who gets it.
    pub fn emit_mouse_button<H: WidgetEvents>(&mut self, h: &mut H, state: MouseState) -> (r: (
        bool,
        Vec<Call>,
    ))
        requires
            btn_room(old(self)@.root),
            holder_room(old(self)@),
        ensures
            H::records_calls() ==> final(h).received() == old(h).received() + r.1@,
            dispatched_as(
                mouse_button_spec(old(self)@, state == MouseState::Pressed, answers(r.1@)),
                r.1@,
                r.0,
                final(self)@,
            ),
    {
        let ghost d0 = self@;
        let pressed = match state {
            MouseState::Pressed => true,
            MouseState::Released => false,
        };
        let mut trace: Vec<Call> = Vec::new();
        proof {
            assert(answers(Seq::<Call>::empty()) == Seq::<bool>::empty());
        }
        match self.widget_mouse_button {
            Some(w) => {
                match self.root.lookup(w) {
                    Some((_flags, _btn)) => {
                        let inside = ask_hit(h, w, &mut trace);
                        let ghost c0 = trace@;
                        proof {
                            assert(c0 =~= seq![Call::Hit(w, inside)]);
                            lemma_answers_single(Call::Hit(w, inside));
                        }
                        if pressed {
                            if inside {
                                let a = ask_mouse_button(h, w, &mut trace);
                                self.root.edit_of(w, NodeEdit::AddMouseBtn(1));
                                proof {
                                    lemma_answers_concat(c0, seq![Call::MouseButton(w, a)]);
                                    lemma_answers_single(Call::MouseButton(w, a));
                                    assert(trace@ =~= c0 + seq![Call::MouseButton(w, a)]);
                                    assert(answers(trace@) =~= seq![inside, a]);
                                    assert(self@ =~= mouse_button_spec(d0, pressed, answers(trace@)).after);
                                }
                            } else {
                                proof {
                                    assert(self@ =~= d0);
                                }
                            }
                            return (true, trace);
                        }
                        let a = ask_mouse_button(h, w, &mut trace);
                        self.root.edit_of(w, NodeEdit::AddMouseBtn(-1));
                        let none_left = match self.root.lookup(w) {
                            Some((_f, n)) => n == 0,
                            None => false,
                        };
                        if none_left {
                            self.widget_mouse_button = None;
                        }
                        proof {
                            lemma_answers_concat(c0, seq![Call::MouseButton(w, a)]);
                            lemma_answers_single(Call::MouseButton(w, a));
                            assert(trace@ =~= c0 + seq![Call::MouseButton(w, a)]);
                            assert(answers(trace@) =~= seq![inside, a]);
                            assert(self@ =~= mouse_button_spec(d0, pressed, answers(trace@)).after);
                        }
                        return (true, trace);
                    },
                    None => {},
                }
            },
            None => {},
        }
        let (acc, target) = emit_inner_routed(RoutedEvent::MouseButton, &mut self.root, h, &mut trace);
        if target.is_some() {
            self.widget_mouse_button = target;
        }
        proof {
            assert(trace@.skip(0) =~= trace@);
            assert(self@ =~= mouse_button_spec(d0, pressed, answers(trace@)).after);
        }
        (acc, trace)
    }

    /// Request redraw of the widget with the id; see
    /// [WidgetBase::request_draw].
    pub fn request_draw(&mut self, id: WidgetId) -> (found: bool)
        ensures
            found == find(old(self)@.root, id) is Some,
            final(self)@ == (DispatcherModel {
                root: request_at(old(self)@.root, id, SELF_DRAW, CHILDREN_DRAW),
                ..old(self)@
            }),
    {
        self.root.request_draw(id)
    }

    /// Request update of the widget with the id.
    pub fn request_update(&mut self, id: WidgetId) -> (found: bool)
        ensures
            found == find(old(self)@.root, id) is Some,
            final(self)@ == (DispatcherModel {
                root: request_at(old(self)@.root, id, SELF_UPDATE, CHILDREN_UPDATE),
                ..old(self)@
            }),
    {
        self.root.request_update(id)
    }

    /// Request deletion of the widget with the id.
    pub fn request_delete(&mut self, id: WidgetId) -> (found: bool)
        ensures
            found == find(old(self)@.root, id) is Some,
            final(self)@ == (DispatcherModel {
                root: request_at(old(self)@.root, id, SELF_DELETE, CHILDREN_DELETE),
                ..old(self)@
            }),
    {
        self.root.request_delete(id)
    }
}

} // verus!
