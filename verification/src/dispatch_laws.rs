//! Laws of the dispatcher over several calls: a request for any widget of
//! the tree is served by the next event of its kind, a tick leaves no
//! pending flag behind and removes the widgets that asked to be deleted,
//! no event adds or changes an id, a press undone by a release leaves the
//! tree as it was; a widget holding pressed buttons gets the moves, a
//! routed press always leaves a holder, a redraw covers the whole subtree,
//! layout and lifecycle passes reach every widget, the mark of the widget
//! under the pointer follows the pointer, and a routed event bubbles up
//! until a widget accepts it.

use vstd::prelude::*;
use crate::ids::WidgetId;
use crate::state_flags::{
    lemma_with, SELF_UPDATE, CHILDREN_UPDATE, SELF_DRAW, CHILDREN_DRAW, SELF_DELETE,
    CHILDREN_DELETE, IS_VISIBLE, IS_ENABLED, IS_OVER, HAS_MOUSE_TRACKING,
};
use crate::widget_base::{
    WidgetModel, Runtime, find, find_kids, edit_at, apply_edit, NodeEdit, request_at,
    request_kid, request_kids, law_find_after_edit, law_edits_cancel, lemma_request_kids,
    lemma_find_kids_found, same_flag_found, law_find_after_flag_edit, lemma_edit_kids,
    edit_kids, lemma_find_kids_same_children,
};
use crate::dispatcher::{
    Call, LifecycleState, RoutedEvent, Routed, DispatcherModel, route, answer_at, with_runtime,
    lemma_runtime_kids, update_node, update_kids, draw_node, draw_kids, draw_full,
    lemma_update_kids, lemma_draw_kids, lemma_draw_full_kids,
    draw_full_kids, check_delete,
    delete_kids, lifecycle_calls, lifecycle_kids, mouse_button_spec, mouse_move_spec, mouse_move_enter,
    route_kids, layout_calls, layout_kids,
};

verus! {

// ---------------------------------------------------------------------------
// Requests reach the next event.

/// The first child of `n`, among the first `k`, whose subtree holds the id.
proof fn lemma_first_kid(n: WidgetModel, k: int, id: WidgetId) -> (j: int)
    requires
        0 <= k <= n.children.len(),
        find_kids(n, k, id) is Some,
    ensures
        0 <= j < k,
        find_kids(n, j, id) is None,
        find(n.children[j], id) is Some,
    decreases k,
{
    if find_kids(n, k - 1, id) is Some {
        lemma_first_kid(n, k - 1, id)
    } else {
        k - 1
    }
}

/// A request for a widget below `n` raises the children flag of `n` and
/// goes on into the child whose subtree holds the widget.
proof fn lemma_request_path(n: WidgetModel, id: WidgetId, sf: u16, cf: u16, j: int)
    requires
        n.id != id,
        0 <= j < n.children.len(),
        find_kids(n, j, id) is None,
        find(n.children[j], id) is Some,
        sf == SELF_UPDATE && cf == CHILDREN_UPDATE || sf == SELF_DRAW && cf == CHILDREN_DRAW
            || sf == SELF_DELETE && cf == CHILDREN_DELETE,
    ensures
        ({
            let r = request_at(n, id, sf, cf);
            &&& r.has(cf)
            &&& r.id == n.id
            &&& r.children.len() == n.children.len()
            &&& r.children[j] == request_at(n.children[j], id, sf, cf)
            &&& r.flags == n.flags.with(cf, true)
        }),
{
    let len = n.children.len() as int;
    assert(find_kids(n, j + 1, id) == find(n.children[j], id));
    lemma_find_kids_found(n, j + 1, len, id);
    lemma_request_kids(n, len, id, sf, cf);
    assert(request_kid(n, j, id, sf, cf) == request_at(n.children[j], id, sf, cf));
    lemma_with(n.flags, cf, cf, true);
}

proof fn lemma_contains_right(a: Seq<Call>, b: Seq<Call>, x: Call)
    requires
        b.contains(x),
    ensures
        (a + b).contains(x),
{
    let i = choose|i: int| 0 <= i < b.len() && b[i] == x;
    assert((a + b)[a.len() + i] == x);
}

proof fn lemma_contains_left(a: Seq<Call>, b: Seq<Call>, x: Call)
    requires
        a.contains(x),
    ensures
        (a + b).contains(x),
{
    let i = choose|i: int| 0 <= i < a.len() && a[i] == x;
    assert((a + b)[i] == x);
}

proof fn lemma_update_kids_contains(n: WidgetModel, k: int, j: int, x: Call)
    requires
        0 <= j < k <= n.children.len(),
        update_node(n.children[j]).1.contains(x),
    ensures
        update_kids(n, k).1.contains(x),
    decreases k,
{
    let p = update_kids(n, k - 1);
    let c = update_node(n.children[k - 1]);
    if j == k - 1 {
        lemma_contains_right(p.1, c.1, x);
    } else {
        lemma_update_kids_contains(n, k - 1, j, x);
        lemma_contains_left(p.1, c.1, x);
    }
}

proof fn lemma_draw_kids_contains(n: WidgetModel, k: int, j: int, x: Call)
    requires
        0 <= j < k <= n.children.len(),
        draw_node(n.children[j]).1.contains(x),
    ensures
        draw_kids(n, k).1.contains(x),
    decreases k,
{
    let p = draw_kids(n, k - 1);
    let c = draw_node(n.children[k - 1]);
    if j == k - 1 {
        lemma_contains_right(p.1, c.1, x);
    } else {
        lemma_draw_kids_contains(n, k - 1, j, x);
        lemma_contains_left(p.1, c.1, x);
    }
}

proof fn lemma_draw_full_kids_contains(n: WidgetModel, k: int, j: int, x: Call)
    requires
        0 <= j < k <= n.children.len(),
        draw_full(n.children[j]).1.contains(x),
    ensures
        draw_full_kids(n, k).1.contains(x),
    decreases k,
{
    let p = draw_full_kids(n, k - 1);
    let c = draw_full(n.children[k - 1]);
    if j == k - 1 {
        lemma_contains_right(p.1, c.1, x);
    } else {
        lemma_draw_full_kids_contains(n, k - 1, j, x);
        lemma_contains_left(p.1, c.1, x);
    }
}

/// A widget anywhere in the tree that asks for an update gets it at the
/// next tick.
pub proof fn law_tick_updates_requested(n: WidgetModel, id: WidgetId)
    requires
        find(n, id) is Some,
    ensures
        update_node(request_at(n, id, SELF_UPDATE, CHILDREN_UPDATE)).1.contains(Call::Update(id)),
    decreases n, n.children.len() + 1,
{
    let r = request_at(n, id, SELF_UPDATE, CHILDREN_UPDATE);
    if n.id == id {
        lemma_with(n.flags, SELF_UPDATE, SELF_UPDATE, true);
        assert(update_node(r).1[0] == Call::Update(id));
    } else {
        let len = n.children.len() as int;
        let j = lemma_first_kid(n, len, id);
        lemma_request_path(n, id, SELF_UPDATE, CHILDREN_UPDATE, j);
        law_tick_updates_requested(n.children[j], id);
        lemma_update_kids_contains(r, len, j, Call::Update(id));
        let own = if r.has(SELF_UPDATE) {
            seq![Call::Update(r.id)]
        } else {
            seq![]
        };
        lemma_contains_right(own, update_kids(r, len).1, Call::Update(id));
    }
}

/// Every widget on the path from `n` down to the first widget with the id,
/// that widget included, is visible.
pub open spec fn visible_to(n: WidgetModel, id: WidgetId) -> bool
    decreases n, n.children.len() + 1,
{
    n.has(IS_VISIBLE) && (n.id == id || visible_to_kids(n, n.children.len() as int, id))
}

/// The same for the first child, among the first `k`, whose subtree holds
/// the id.
pub open spec fn visible_to_kids(n: WidgetModel, k: int, id: WidgetId) -> bool
    decreases n, k,
{
    if k <= 0 || k > n.children.len() {
        false
    } else if find_kids(n, k - 1, id) is Some {
        visible_to_kids(n, k - 1, id)
    } else {
        find(n.children[k - 1], id) is Some && visible_to(n.children[k - 1], id)
    }
}

proof fn lemma_visible_kid(n: WidgetModel, k: int, id: WidgetId) -> (j: int)
    requires
        0 <= k <= n.children.len(),
        visible_to_kids(n, k, id),
    ensures
        0 <= j < k,
        find_kids(n, j, id) is None,
        find(n.children[j], id) is Some,
        visible_to(n.children[j], id),
    decreases k,
{
    if find_kids(n, k - 1, id) is Some {
        lemma_visible_kid(n, k - 1, id)
    } else {
        k - 1
    }
}

/// A widget anywhere in the tree that asks to be drawn is drawn by the next
/// draw event, forced or not, when it and the widgets above it are visible.
pub proof fn law_draw_after_request(n: WidgetModel, id: WidgetId, force: bool)
    requires
        visible_to(n, id),
    ensures
        ({
            let r = request_at(n, id, SELF_DRAW, CHILDREN_DRAW);
            let out = if force {
                draw_full(r)
            } else {
                draw_node(r)
            };
            out.1.contains(Call::Draw(id))
        }),
{
    lemma_draw_after_request(n, id);
}

proof fn lemma_draw_after_request(n: WidgetModel, id: WidgetId)
    requires
        visible_to(n, id),
    ensures
        draw_full(request_at(n, id, SELF_DRAW, CHILDREN_DRAW)).1.contains(Call::Draw(id)),
        draw_node(request_at(n, id, SELF_DRAW, CHILDREN_DRAW)).1.contains(Call::Draw(id)),
    decreases n, n.children.len() + 1,
{
    let r = request_at(n, id, SELF_DRAW, CHILDREN_DRAW);
    if n.id == id {
        lemma_with(n.flags, SELF_DRAW, IS_VISIBLE, true);
        lemma_with(n.flags, SELF_DRAW, SELF_DRAW, true);
        assert(draw_full(r).1[0] == Call::Draw(id));
    } else {
        let len = n.children.len() as int;
        let j = lemma_visible_kid(n, len, id);
        lemma_request_path(n, id, SELF_DRAW, CHILDREN_DRAW, j);
        lemma_draw_after_request(n.children[j], id);
        lemma_with(n.flags, CHILDREN_DRAW, IS_VISIBLE, true);
        lemma_with(n.flags, CHILDREN_DRAW, SELF_DRAW, true);
        lemma_draw_full_kids_contains(r, len, j, Call::Draw(id));
        lemma_contains_right(seq![Call::Draw(r.id)], draw_full_kids(r, len).1, Call::Draw(id));
        if !r.has(SELF_DRAW) {
            lemma_draw_kids_contains(r, len, j, Call::Draw(id));
        }
    }
}

/// The destruction calls of a subtree include those of every widget in it.
proof fn lemma_lifecycle_contains(m: WidgetModel, id: WidgetId, st: LifecycleState)
    requires
        find(m, id) is Some,
    ensures
        lifecycle_calls(m, st).contains(Call::Lifecycle(id, st)),
    decreases m, m.children.len() + 1,
{
    let lc = lifecycle_calls(m, st);
    if m.id == id {
        assert(lc[lc.len() - 1] == Call::Lifecycle(id, st));
    } else {
        let len = m.children.len() as int;
        let j = lemma_first_kid(m, len, id);
        lemma_lifecycle_contains(m.children[j], id, st);
        lemma_lifecycle_kids_contains(m, len, j, st, Call::Lifecycle(id, st));
        assert(lc =~= lifecycle_kids(m, len, st) + seq![Call::Lifecycle(m.id, st)]);
        lemma_contains_left(
            lifecycle_kids(m, len, st),
            seq![Call::Lifecycle(m.id, st)],
            Call::Lifecycle(id, st),
        );
    }
}

proof fn lemma_lifecycle_kids_contains(n: WidgetModel, k: int, j: int, st: LifecycleState, x: Call)
    requires
        0 <= j < k <= n.children.len(),
        lifecycle_calls(n.children[j], st).contains(x),
    ensures
        lifecycle_kids(n, k, st).contains(x),
    decreases k,
{
    let p = lifecycle_kids(n, k - 1, st);
    let c = lifecycle_calls(n.children[k - 1], st);
    if j == k - 1 {
        lemma_contains_right(p, c, x);
    } else {
        lemma_lifecycle_kids_contains(n, k - 1, j, st, x);
        lemma_contains_left(p, c, x);
    }
}

/// A widget below the root that asks to be deleted is destroyed at the next
/// tick: it is told so, as is every widget of its subtree.
pub proof fn law_tick_deletes_requested(n: WidgetModel, id: WidgetId)
    requires
        n.id != id,
        find(n, id) is Some,
    ensures
        check_delete(request_at(n, id, SELF_DELETE, CHILDREN_DELETE)).1.contains(
            Call::Lifecycle(id, LifecycleState::Destroy { unexpected: false }),
        ),
    decreases n, n.children.len() + 1,
{
    let st = LifecycleState::Destroy { unexpected: false };
    let x = Call::Lifecycle(id, st);
    let r = request_at(n, id, SELF_DELETE, CHILDREN_DELETE);
    let len = n.children.len() as int;
    let j = lemma_first_kid(n, len, id);
    lemma_request_path(n, id, SELF_DELETE, CHILDREN_DELETE, j);
    let c0 = n.children[j];
    let c = r.children[j];
    if c0.id == id {
        lemma_with(c0.flags, SELF_DELETE, SELF_DELETE, true);
        lemma_lifecycle_contains(c, id, st);
    } else if c.has(SELF_DELETE) {
        lemma_request_find(c0, id, SELF_DELETE, CHILDREN_DELETE);
        lemma_lifecycle_contains(c, id, st);
    } else {
        law_tick_deletes_requested(c0, id);
    }
    lemma_delete_kids_contains(r, len, j, x);
}

/// A request leaves the widget where a search finds it.
proof fn lemma_request_find(n: WidgetModel, id: WidgetId, sf: u16, cf: u16)
    requires
        find(n, id) is Some,
    ensures
        find(request_at(n, id, sf, cf), id) is Some,
    decreases n, n.children.len() + 1,
{
    if n.id != id {
        let len = n.children.len() as int;
        let j = lemma_first_kid(n, len, id);
        lemma_request_kids(n, len, id, sf, cf);
        lemma_request_find(n.children[j], id, sf, cf);
        lemma_request_find_kids(n, len, id, sf, cf, j);
    }
}

proof fn lemma_request_find_kids(n: WidgetModel, k: int, id: WidgetId, sf: u16, cf: u16, j: int)
    requires
        n.id != id,
        0 <= j < k <= n.children.len(),
        find_kids(n, j, id) is None,
        find(request_at(n.children[j], id, sf, cf), id) is Some,
    ensures
        find_kids(request_at(n, id, sf, cf), k, id) is Some,
    decreases k,
{
    let len = n.children.len() as int;
    lemma_request_kids(n, len, id, sf, cf);
    if k - 1 > j {
        lemma_request_find_kids(n, k - 1, id, sf, cf, j);
    } else {
        lemma_request_find_none(n, j, id, sf, cf);
    }
}

/// Where the first children hold no widget with the id, neither do they
/// after the request.
proof fn lemma_request_find_none(n: WidgetModel, k: int, id: WidgetId, sf: u16, cf: u16)
    requires
        n.id != id,
        0 <= k <= n.children.len(),
        find_kids(n, k, id) is None,
    ensures
        find_kids(request_at(n, id, sf, cf), k, id) is None,
    decreases k,
{
    if k > 0 {
        let len = n.children.len() as int;
        lemma_request_kids(n, len, id, sf, cf);
        lemma_request_find_none(n, k - 1, id, sf, cf);
        lemma_request_untouched(n.children[k - 1], id, sf, cf);
    }
}

/// A request for an id the subtree does not hold changes nothing in it.
proof fn lemma_request_untouched(n: WidgetModel, id: WidgetId, sf: u16, cf: u16)
    requires
        find(n, id) is None,
    ensures
        request_at(n, id, sf, cf) == n,
    decreases n, n.children.len() + 1,
{
    let len = n.children.len() as int;
    lemma_request_kids(n, len, id, sf, cf);
    assert forall|i: int| 0 <= i < len implies #[trigger] request_kids(n, len, id, sf, cf)[i]
        == n.children[i] by {
        lemma_find_none_prefix(n, i, len, id);
        lemma_request_untouched(n.children[i], id, sf, cf);
    }
    assert(request_kids(n, len, id, sf, cf) =~= n.children);
    assert(n.with_children(n.children) =~= n);
}

/// No widget with the id among all children means none among the first
/// ones, nor in any one child.
proof fn lemma_find_none_prefix(n: WidgetModel, i: int, k: int, id: WidgetId)
    requires
        0 <= i < k <= n.children.len(),
        find_kids(n, k, id) is None,
    ensures
        find_kids(n, i, id) is None,
        find(n.children[i], id) is None,
    decreases k,
{
    if i < k - 1 {
        lemma_find_none_prefix(n, i, k - 1, id);
    }
}

proof fn lemma_delete_kids_contains(n: WidgetModel, k: int, j: int, x: Call)
    requires
        0 <= j < k <= n.children.len(),
        n.children[j].has(SELF_DELETE) ==> lifecycle_calls(
            n.children[j],
            LifecycleState::Destroy { unexpected: false },
        ).contains(x),
        !n.children[j].has(SELF_DELETE) ==> check_delete(n.children[j]).1.contains(x),
    ensures
        delete_kids(n, k).1.contains(x),
    decreases k,
{
    let p = delete_kids(n, k - 1);
    let c = n.children[k - 1];
    let cc = if c.has(SELF_DELETE) {
        lifecycle_calls(c, LifecycleState::Destroy { unexpected: false })
    } else {
        check_delete(c).1
    };
    if j == k - 1 {
        lemma_contains_right(p.1, cc, x);
    } else {
        lemma_delete_kids_contains(n, k - 1, j, x);
        lemma_contains_left(p.1, cc, x);
    }
}

// ---------------------------------------------------------------------------
// What a tick or a draw leaves behind.

/// After a tick the root has no pending update, of its own or of its
/// children.
pub proof fn law_tick_clears_update_flags(n: WidgetModel)
    ensures
        !update_node(n).0.has(SELF_UPDATE),
        !update_node(n).0.has(CHILDREN_UPDATE),
{
    lemma_with(n.flags, SELF_UPDATE, SELF_UPDATE, false);
    lemma_with(n.flags.with(SELF_UPDATE, false), CHILDREN_UPDATE, CHILDREN_UPDATE, false);
    lemma_with(n.flags.with(SELF_UPDATE, false), CHILDREN_UPDATE, SELF_UPDATE, false);
}

/// After a tick no child of the root is still waiting to be deleted, when
/// the root knew of the children's requests.
pub proof fn law_tick_leaves_no_deleted_child(n: WidgetModel)
    requires
        forall|i: int|
            0 <= i < n.children.len() && (#[trigger] n.children[i]).has(SELF_DELETE) ==> n.has(
                CHILDREN_DELETE,
            ),
    ensures
        forall|i: int|
            0 <= i < check_delete(n).0.children.len() ==> !(#[trigger] check_delete(
                n,
            ).0.children[i]).has(SELF_DELETE),
{
    let out = check_delete(n).0;
    if n.has(CHILDREN_DELETE) {
        let k = delete_kids(n, n.children.len() as int);
        lemma_delete_kids_clean(n, n.children.len() as int);
        assert(out.children == k.0);
        assert forall|i: int| 0 <= i < out.children.len() implies !(
        #[trigger] out.children[i]).has(SELF_DELETE) by {
            assert(!k.0[i].has(SELF_DELETE));
        }
    } else {
        assert forall|i: int| 0 <= i < out.children.len() implies !(
        #[trigger] out.children[i]).has(SELF_DELETE) by {
            assert(out.children[i] == n.children[i]);
        }
    }
}

proof fn lemma_delete_kids_clean(n: WidgetModel, k: int)
    requires
        0 <= k <= n.children.len(),
    ensures
        forall|i: int|
            0 <= i < delete_kids(n, k).0.len() ==> !(#[trigger] delete_kids(n, k).0[i]).has(
                SELF_DELETE,
            ),
    decreases k,
{
    if k > 0 {
        lemma_delete_kids_clean(n, k - 1);
        let p = delete_kids(n, k - 1);
        let c = n.children[k - 1];
        if !c.has(SELF_DELETE) {
            if c.has(CHILDREN_DELETE) {
                lemma_with(c.flags, CHILDREN_DELETE, SELF_DELETE, false);
            }
            let r = check_delete(c);
            assert(!r.0.has(SELF_DELETE));
            assert forall|i: int| 0 <= i < p.0.push(r.0).len() implies !(
            #[trigger] p.0.push(r.0)[i]).has(SELF_DELETE) by {
                if i < p.0.len() {
                    assert(p.0.push(r.0)[i] == p.0[i]);
                }
            }
        }
    }
}

/// A visible widget has no pending draw, of its own or of its children,
/// after a draw event, forced or not.
pub proof fn law_draw_clears_draw_flags(n: WidgetModel, force: bool)
    requires
        n.has(IS_VISIBLE),
    ensures
        ({
            let out = if force {
                draw_full(n)
            } else {
                draw_node(n)
            };
            !out.0.has(SELF_DRAW) && !out.0.has(CHILDREN_DRAW)
        }),
{
    lemma_with(n.flags, SELF_DRAW, SELF_DRAW, false);
    lemma_with(n.flags.with(SELF_DRAW, false), CHILDREN_DRAW, CHILDREN_DRAW, false);
    lemma_with(n.flags.with(SELF_DRAW, false), CHILDREN_DRAW, SELF_DRAW, false);
    lemma_with(n.flags, CHILDREN_DRAW, CHILDREN_DRAW, false);
    lemma_with(n.flags, CHILDREN_DRAW, SELF_DRAW, false);
}

// ---------------------------------------------------------------------------
// Routing and the runtime.

/// A disabled widget takes no interaction event: neither it nor any widget
/// of its subtree is asked anything.
pub proof fn law_disabled_takes_no_event(kind: RoutedEvent, n: WidgetModel, ans: Seq<bool>)
    requires
        !n.has(IS_ENABLED),
    ensures
        route(kind, n, ans) == (Routed {
            accepted: false,
            calls: seq![],
            used: 0,
            node: n,
            target: None,
        }),
{
}

/// Setting a runtime reaches every widget of the tree and changes nothing
/// else: the widget found by an id is the one found before, with the
/// runtime set.
pub proof fn law_runtime_reaches_every_widget(n: WidgetModel, rt: Runtime, id: WidgetId)
    ensures
        find(with_runtime(n, rt), id) == match find(n, id) {
            Some(m) => Some(with_runtime(m, rt)),
            None => None,
        },
        match find(with_runtime(n, rt), id) {
            Some(m) => m.runtime == Some(rt),
            None => true,
        },
    decreases n, n.children.len() + 1,
{
    if n.id != id {
        lemma_runtime_kids(n, n.children.len() as int, rt);
        lemma_runtime_find_kids(n, n.children.len() as int, rt, id);
    }
}

proof fn lemma_runtime_find_kids(n: WidgetModel, k: int, rt: Runtime, id: WidgetId)
    requires
        0 <= k <= n.children.len(),
    ensures
        find_kids(with_runtime(n, rt), k, id) == match find_kids(n, k, id) {
            Some(m) => Some(with_runtime(m, rt)),
            None => None,
        },
    decreases n, k,
{
    if k > 0 {
        lemma_runtime_find_kids(n, k - 1, rt, id);
        lemma_runtime_kids(n, n.children.len() as int, rt);
        law_runtime_reaches_every_widget(n.children[k - 1], rt, id);
    }
}

// ---------------------------------------------------------------------------
// Mouse buttons.

/// Pressing a button inside the widget that holds the buttons and then
/// releasing it leaves the tree as it was; the widget still holds the
/// buttons exactly when it held pressed ones before.
pub proof fn law_press_release_restores(
    d: DispatcherModel,
    w: WidgetId,
    ans1: Seq<bool>,
    ans2: Seq<bool>,
)
    requires
        d.mouse_button == Some(w),
        find(d.root, w) is Some,
        0 <= find(d.root, w).unwrap().mouse_btn_num < i8::MAX,
        answer_at(ans1, 0),
    ensures
        ({
            let d1 = mouse_button_spec(d, true, ans1).after;
            let d2 = mouse_button_spec(d1, false, ans2).after;
            d2 == (DispatcherModel {
                mouse_button: if find(d.root, w).unwrap().mouse_btn_num == 0 {
                    None
                } else {
                    Some(w)
                },
                ..d
            })
        }),
{
    let m = find(d.root, w).unwrap();
    let up = NodeEdit::AddMouseBtn(1);
    let down = NodeEdit::AddMouseBtn(-1i8);
    law_find_after_edit(d.root, w, up);
    let r1 = edit_at(d.root, w, up);
    law_find_after_edit(r1, w, down);
    let m1 = apply_edit(m, up);
    assert(m1.mouse_btn_num == m.mouse_btn_num + 1);
    assert(apply_edit(m1, down) =~= m);
    law_edits_cancel(d.root, w, up, down);
}

// ---------------------------------------------------------------------------
// Mouse moves and tracking.

/// No call of the trace delivers a mouse move.
pub open spec fn no_move(s: Seq<Call>) -> bool {
    forall|i: int| 0 <= i < s.len() ==> !(#[trigger] s[i] is MouseMove)
}

proof fn lemma_no_move_concat(a: Seq<Call>, b: Seq<Call>)
    requires
        no_move(a),
        no_move(b),
    ensures
        no_move(a + b),
{
    assert forall|i: int| 0 <= i < (a + b).len() implies !(#[trigger] (a + b)[i] is MouseMove) by {
        if i < a.len() {
            assert((a + b)[i] == a[i]);
        } else {
            assert((a + b)[i] == b[i - a.len()]);
        }
    }
}

/// Routing a mouse move only asks where the pointer is.
proof fn lemma_route_move_no_move(n: WidgetModel, a: Seq<bool>)
    ensures
        no_move(route(RoutedEvent::MouseMove, n, a).calls),
    decreases n, n.children.len() + 1,
{
    if n.has(IS_ENABLED) {
        let inside = answer_at(a, 0);
        let h = seq![Call::Hit(n.id, inside)];
        assert(no_move(h)) by {
            assert forall|i: int| 0 <= i < h.len() implies !(#[trigger] h[i] is MouseMove) by {
                assert(h[i] == Call::Hit(n.id, inside));
            }
        }
        if inside {
            let k = route_kids(RoutedEvent::MouseMove, n, n.children.len() as int, a.skip(1));
            lemma_route_kids_move_no_move(n, n.children.len() as int, a.skip(1));
            lemma_no_move_concat(h, k.calls);
        }
    }
}

proof fn lemma_route_kids_move_no_move(n: WidgetModel, k: int, a: Seq<bool>)
    ensures
        no_move(route_kids(RoutedEvent::MouseMove, n, k, a).calls),
    decreases n, k,
{
    if 0 < k <= n.children.len() {
        lemma_route_kids_move_no_move(n, k - 1, a);
        let p = route_kids(RoutedEvent::MouseMove, n, k - 1, a);
        if !p.accepted {
            lemma_route_move_no_move(n.children[k - 1], a.skip(p.used as int));
            lemma_no_move_concat(p.calls, route(RoutedEvent::MouseMove, n.children[k - 1], a.skip(p.used as int)).calls);
        }
    }
}

/// A trace whose first part delivers no move delivers it in the second.
proof fn lemma_move_in_tail(p: Seq<Call>, q: Seq<Call>, x: WidgetId, a: bool)
    requires
        no_move(p),
        (p + q).contains(Call::MouseMove(x, a)),
    ensures
        q.contains(Call::MouseMove(x, a)),
{
    let i = choose|i: int| 0 <= i < (p + q).len() && (p + q)[i] == Call::MouseMove(x, a);
    if i < p.len() {
        assert((p + q)[i] == p[i]);
    } else {
        assert(q[i - p.len()] == Call::MouseMove(x, a));
    }
}

/// In the routing part of a move, only the widget that was entered gets
/// the move, and only when it tracks the mouse.
proof fn lemma_enter_move(d: DispatcherModel, ans: Seq<bool>, c: Seq<Call>, u: nat, x: WidgetId, a: bool)
    requires
        no_move(c),
        mouse_move_enter(d, ans, c, u).calls.contains(Call::MouseMove(x, a)),
    ensures
        match find(d.root, x) {
            Some(m) => m.has(HAS_MOUSE_TRACKING),
            None => false,
        },
{
    let r = route(RoutedEvent::MouseMove, d.root, ans.skip(u as int));
    lemma_route_move_no_move(d.root, ans.skip(u as int));
    lemma_no_move_concat(c, r.calls);
    match r.target {
        None => {
            lemma_move_in_tail(c + r.calls, seq![], x, a);
        },
        Some(t) => {
            let root1 = edit_at(d.root, t, NodeEdit::SetFlag(IS_OVER, true));
            let left = match d.mouse_over {
                Some(w) => find(root1, w) is Some,
                None => false,
            };
            let root2 = if left {
                edit_at(root1, d.mouse_over.unwrap(), NodeEdit::SetFlag(IS_OVER, false))
            } else {
                root1
            };
            let leave = if left {
                seq![Call::MouseCross(d.mouse_over.unwrap(), false)]
            } else {
                seq![]
            };
            let cross = seq![Call::MouseCross(t, true)];
            assert(no_move(leave)) by {
                assert forall|i: int| 0 <= i < leave.len() implies !(#[trigger] leave[i] is MouseMove) by {
                    assert(leave[i] == Call::MouseCross(d.mouse_over.unwrap(), false));
                }
            }
            assert(no_move(cross)) by {
                assert forall|i: int| 0 <= i < cross.len() implies !(#[trigger] cross[i] is MouseMove) by {
                    assert(cross[i] == Call::MouseCross(t, true));
                }
            }
            lemma_no_move_concat(c + r.calls, leave);
            lemma_no_move_concat(c + r.calls + leave, cross);
            let tracking = match find(root2, t) {
                Some(m) => m.has(HAS_MOUSE_TRACKING),
                None => false,
            };
            let mv = if tracking {
                seq![Call::MouseMove(t, answer_at(ans, (u + r.used) as int))]
            } else {
                seq![]
            };
            lemma_move_in_tail(c + r.calls + leave + cross, mv, x, a);
            assert(tracking);
            assert(mv[0] == Call::MouseMove(x, a));
            law_find_after_flag_edit(d.root, t, IS_OVER, true, t, HAS_MOUSE_TRACKING);
            if left {
                law_find_after_flag_edit(root1, d.mouse_over.unwrap(), IS_OVER, false, t, HAS_MOUSE_TRACKING);
            }
            assert(same_flag_found(find(root2, t), find(d.root, t), HAS_MOUSE_TRACKING));
        },
    }
}

/// A widget gets mouse moves only while it holds pressed buttons or tracks
/// the mouse: every move delivered goes to a widget of the tree that holds
/// pressed buttons or has mouse tracking.
pub proof fn law_move_needs_buttons_or_tracking(d: DispatcherModel, ans: Seq<bool>, x: WidgetId, a: bool)
    requires
        mouse_move_spec(d, ans).calls.contains(Call::MouseMove(x, a)),
    ensures
        match find(d.root, x) {
            Some(m) => m.mouse_btn_num > 0 || m.has(HAS_MOUSE_TRACKING),
            None => false,
        },
{
    let over = match d.mouse_over {
        Some(w) => find(d.root, w),
        None => None,
    };
    let e: Seq<Call> = seq![];
    assert(no_move(e));
    match over {
        Some(wm) => {
            let w = d.mouse_over.unwrap();
            let inside = answer_at(ans, 0);
            let c0 = seq![Call::Hit(w, inside)];
            assert(no_move(c0)) by {
                assert forall|i: int| 0 <= i < c0.len() implies !(#[trigger] c0[i] is MouseMove) by {
                    assert(c0[i] == Call::Hit(w, inside));
                }
            }
            let busy = wm.mouse_btn_num > 0;
            if (inside && (busy || wm.has(HAS_MOUSE_TRACKING))) || (!inside && busy) {
                let calls = c0.push(Call::MouseMove(w, answer_at(ans, 1)));
                let i = choose|i: int| 0 <= i < calls.len() && calls[i] == Call::MouseMove(x, a);
                assert(i == 1);
            } else if inside {
                lemma_enter_move(d, ans, c0, 1, x, a);
            } else {
                let d1 = DispatcherModel {
                    root: edit_at(d.root, w, NodeEdit::SetFlag(IS_OVER, false)),
                    mouse_over: None,
                    ..d
                };
                let c1 = c0.push(Call::MouseCross(w, false));
                assert(no_move(c1)) by {
                    assert forall|i: int| 0 <= i < c1.len() implies !(#[trigger] c1[i] is MouseMove) by {
                        if i == 0 {
                            assert(c1[i] == Call::Hit(w, inside));
                        } else {
                            assert(c1[i] == Call::MouseCross(w, false));
                        }
                    }
                }
                lemma_enter_move(d1, ans, c1, 1, x, a);
                law_find_after_flag_edit(d.root, w, IS_OVER, false, x, HAS_MOUSE_TRACKING);
            }
        },
        None => {
            lemma_enter_move(d, ans, e, 0, x, a);
        },
    }
}


// ---------------------------------------------------------------------------
// Ids after a tick.

/// How many widgets of the subtree have the id.
pub open spec fn count_id(n: WidgetModel, id: WidgetId) -> nat
    decreases n, n.children.len() + 1,
{
    (if n.id == id {
        1nat
    } else {
        0nat
    }) + count_kids(n, n.children.len() as int, id)
}

/// How many widgets of the subtrees of the first `k` children have the id.
pub open spec fn count_kids(n: WidgetModel, k: int, id: WidgetId) -> nat
    decreases n, k,
{
    if k <= 0 || k > n.children.len() {
        0
    } else {
        count_kids(n, k - 1, id) + count_id(n.children[k - 1], id)
    }
}

/// No two widgets of the subtree share an id.
pub open spec fn unique_ids(n: WidgetModel) -> bool {
    forall|id: WidgetId| #[trigger] count_id(n, id) <= 1
}

/// What a tick keeps of the `i`-th child's subtree, counted by the id.
pub open spec fn kept_term(n: WidgetModel, i: int, id: WidgetId) -> nat {
    if n.children[i].has(SELF_DELETE) {
        0
    } else {
        count_id(check_delete(n.children[i]).0, id)
    }
}

/// The same for the first `k` children.
pub open spec fn kept_count(n: WidgetModel, k: int, id: WidgetId) -> nat
    decreases k,
{
    if k <= 0 || k > n.children.len() {
        0
    } else {
        kept_count(n, k - 1, id) + kept_term(n, k - 1, id)
    }
}

proof fn lemma_count_same_children(x: WidgetModel, y: WidgetModel, k: int, id: WidgetId)
    requires
        0 <= k <= x.children.len(),
        k <= y.children.len(),
        x.children.take(k) == y.children.take(k),
    ensures
        count_kids(x, k, id) == count_kids(y, k, id),
    decreases k,
{
    if k > 0 {
        assert(x.children.take(k)[k - 1] == x.children[k - 1]);
        assert(y.children.take(k)[k - 1] == y.children[k - 1]);
        assert(x.children.take(k - 1) =~= x.children.take(k).take(k - 1));
        assert(y.children.take(k - 1) =~= y.children.take(k).take(k - 1));
        lemma_count_same_children(x, y, k - 1, id);
    }
}

/// The children a tick keeps hold, counted by the id, what [kept_count]
/// says.
proof fn lemma_kept_children(m: WidgetModel, k: int, id: WidgetId)
    requires
        0 <= k <= m.children.len(),
    ensures
        ({
            let d = delete_kids(m, k).0;
            d.len() <= k && count_kids(m.with_children(d), d.len() as int, id) == kept_count(m, k, id)
        }),
    decreases k,
{
    if k > 0 {
        lemma_kept_children(m, k - 1, id);
        let p = delete_kids(m, k - 1).0;
        let c = m.children[k - 1];
        if !c.has(SELF_DELETE) {
            let d = p.push(check_delete(c).0);
            let x = m.with_children(d);
            let y = m.with_children(p);
            assert(x.children.take(p.len() as int) =~= y.children.take(p.len() as int));
            lemma_count_same_children(x, y, p.len() as int, id);
        }
    }
}

/// A tick never adds a widget with an id: ids that were unique stay so.
pub proof fn law_tick_never_adds_ids(m: WidgetModel, id: WidgetId)
    ensures
        count_id(check_delete(m).0, id) <= count_id(m, id),
    decreases m, m.children.len() + 1,
{
    if m.has(CHILDREN_DELETE) {
        let len = m.children.len() as int;
        let d = delete_kids(m, len).0;
        let out = check_delete(m).0;
        lemma_kept_children(m, len, id);
        assert(out.children.take(d.len() as int) =~= m.with_children(d).children.take(
            d.len() as int,
        ));
        lemma_count_same_children(out, m.with_children(d), d.len() as int, id);
        lemma_kept_le(m, len, id);
    }
}

proof fn lemma_kept_le(m: WidgetModel, k: int, id: WidgetId)
    requires
        0 <= k <= m.children.len(),
    ensures
        kept_count(m, k, id) <= count_kids(m, k, id),
    decreases m, k,
{
    if k > 0 {
        lemma_kept_le(m, k - 1, id);
        law_tick_never_adds_ids(m.children[k - 1], id);
    }
}

/// A tick keeps the ids of a tree unique.
pub proof fn law_tick_keeps_unique_ids(m: WidgetModel)
    requires
        unique_ids(m),
    ensures
        unique_ids(check_delete(m).0),
{
    assert forall|id: WidgetId| #[trigger] count_id(check_delete(m).0, id) <= 1 by {
        law_tick_never_adds_ids(m, id);
        assert(count_id(m, id) <= 1);
    }
}

/// A search finds the id exactly when some widget has it.
proof fn lemma_find_count(n: WidgetModel, id: WidgetId)
    ensures
        (find(n, id) is Some) == (count_id(n, id) > 0),
    decreases n, n.children.len() + 1,
{
    lemma_find_count_kids(n, n.children.len() as int, id);
}

proof fn lemma_find_count_kids(n: WidgetModel, k: int, id: WidgetId)
    requires
        0 <= k <= n.children.len(),
    ensures
        (find_kids(n, k, id) is Some) == (count_kids(n, k, id) > 0),
    decreases n, k,
{
    if k > 0 {
        lemma_find_count_kids(n, k - 1, id);
        lemma_find_count(n.children[k - 1], id);
    }
}

/// Two different children count at most what all children count.
proof fn lemma_count_two(n: WidgetModel, k: int, i: int, j: int, id: WidgetId)
    requires
        0 <= i < k <= n.children.len(),
        0 <= j < k,
        i != j,
    ensures
        count_id(n.children[i], id) + count_id(n.children[j], id) <= count_kids(n, k, id),
    decreases k,
{
    if i == k - 1 {
        lemma_count_one(n, k - 1, j, id);
    } else if j == k - 1 {
        lemma_count_one(n, k - 1, i, id);
    } else {
        lemma_count_two(n, k - 1, i, j, id);
    }
}

proof fn lemma_count_one(n: WidgetModel, k: int, i: int, id: WidgetId)
    requires
        0 <= i < k <= n.children.len(),
    ensures
        count_id(n.children[i], id) <= count_kids(n, k, id),
    decreases k,
{
    if i < k - 1 {
        lemma_count_one(n, k - 1, i, id);
    }
}

proof fn lemma_kept_zero(n: WidgetModel, k: int, id: WidgetId)
    requires
        0 <= k <= n.children.len(),
        forall|i: int| 0 <= i < k ==> #[trigger] kept_term(n, i, id) == 0,
    ensures
        kept_count(n, k, id) == 0,
    decreases k,
{
    if k > 0 {
        lemma_kept_zero(n, k - 1, id);
    }
}

/// In a tree whose ids are unique, a widget below the root that asks to be
/// deleted is gone after the next tick.
pub proof fn law_tick_removes_requested(n: WidgetModel, id: WidgetId)
    requires
        unique_ids(n),
        n.id != id,
        find(n, id) is Some,
    ensures
        count_id(check_delete(request_at(n, id, SELF_DELETE, CHILDREN_DELETE)).0, id) == 0,
{
    lemma_find_count(n, id);
    assert(count_id(n, id) <= 1);
    lemma_removes(n, id);
}

proof fn lemma_removes(n: WidgetModel, id: WidgetId)
    requires
        count_id(n, id) == 1,
        n.id != id,
    ensures
        count_id(check_delete(request_at(n, id, SELF_DELETE, CHILDREN_DELETE)).0, id) == 0,
    decreases n, n.children.len() + 1,
{
    let len = n.children.len() as int;
    lemma_find_count(n, id);
    let j = lemma_first_kid(n, len, id);
    let r = request_at(n, id, SELF_DELETE, CHILDREN_DELETE);
    lemma_request_path(n, id, SELF_DELETE, CHILDREN_DELETE, j);
    lemma_request_kids(n, len, id, SELF_DELETE, CHILDREN_DELETE);
    lemma_find_count(n.children[j], id);
    lemma_count_one(n, len, j, id);
    assert(find_kids(n, j + 1, id) is Some);
    assert forall|i: int| 0 <= i < len implies #[trigger] kept_term(r, i, id) == 0 by {
        if i == j {
            let c0 = n.children[j];
            if c0.id == id {
                lemma_with(c0.flags, SELF_DELETE, SELF_DELETE, true);
            } else if !r.children[j].has(SELF_DELETE) {
                lemma_removes(c0, id);
            }
        } else {
            lemma_count_two(n, len, i, j, id);
            if i < j {
                lemma_find_none_prefix(n, i, j, id);
                lemma_request_untouched(n.children[i], id, SELF_DELETE, CHILDREN_DELETE);
            } else {
                lemma_find_kids_found(n, j + 1, i, id);
            }
            assert(r.children[i] == n.children[i]);
            law_tick_never_adds_ids(n.children[i], id);
        }
    }
    lemma_kept_zero(r, len, id);
    lemma_kept_children(r, len, id);
    let d = delete_kids(r, len).0;
    let out = check_delete(r).0;
    assert(out.children.take(d.len() as int) =~= r.with_children(d).children.take(d.len() as int));
    lemma_count_same_children(out, r.with_children(d), d.len() as int, id);
}


proof fn lemma_count_pointwise(x: WidgetModel, y: WidgetModel, k: int, id: WidgetId)
    requires
        0 <= k <= x.children.len(),
        k <= y.children.len(),
        forall|i: int| 0 <= i < k ==> #[trigger] count_id(x.children[i], id) == count_id(y.children[i], id),
    ensures
        count_kids(x, k, id) == count_kids(y, k, id),
    decreases k,
{
    if k > 0 {
        lemma_count_pointwise(x, y, k - 1, id);
        assert(count_id(x.children[k - 1], id) == count_id(y.children[k - 1], id));
    }
}

/// A request changes no id: every id is held by as many widgets as before.
pub proof fn law_request_keeps_ids(n: WidgetModel, id: WidgetId, sf: u16, cf: u16, other: WidgetId)
    ensures
        count_id(request_at(n, id, sf, cf), other) == count_id(n, other),
    decreases n, n.children.len() + 1,
{
    let len = n.children.len() as int;
    let r = request_at(n, id, sf, cf);
    if n.id == id {
        lemma_count_pointwise(r, n, len, other);
    } else {
        lemma_request_kids(n, len, id, sf, cf);
        assert forall|i: int| 0 <= i < len implies #[trigger] count_id(r.children[i], other)
            == count_id(n.children[i], other) by {
            if find_kids(n, i, id) is None {
                law_request_keeps_ids(n.children[i], id, sf, cf, other);
            }
        }
        lemma_count_pointwise(r, n, len, other);
    }
}

/// An edit of one widget's own state changes no id.
pub proof fn law_edit_keeps_ids(n: WidgetModel, id: WidgetId, e: NodeEdit, other: WidgetId)
    ensures
        count_id(edit_at(n, id, e), other) == count_id(n, other),
    decreases n, n.children.len() + 1,
{
    let len = n.children.len() as int;
    let r = edit_at(n, id, e);
    if n.id == id {
        lemma_count_pointwise(r, n, len, other);
    } else {
        lemma_edit_kids(n, len, id, e);
        assert forall|i: int| 0 <= i < len implies #[trigger] count_id(r.children[i], other)
            == count_id(n.children[i], other) by {
            if find_kids(n, i, id) is None {
                law_edit_keeps_ids(n.children[i], id, e, other);
            }
        }
        lemma_count_pointwise(r, n, len, other);
    }
}


/// An update pass changes no id.
pub proof fn law_update_keeps_ids(n: WidgetModel, other: WidgetId)
    ensures
        count_id(update_node(n).0, other) == count_id(n, other),
    decreases n, n.children.len() + 1,
{
    let len = n.children.len() as int;
    let r = update_node(n).0;
    if n.has(CHILDREN_UPDATE) {
        lemma_update_kids(n, len);
        assert forall|i: int| 0 <= i < len implies #[trigger] count_id(r.children[i], other)
            == count_id(n.children[i], other) by {
            law_update_keeps_ids(n.children[i], other);
        }
    }
    lemma_count_pointwise(r, n, len, other);
}

/// A full draw changes no id.
pub proof fn law_draw_full_keeps_ids(n: WidgetModel, other: WidgetId)
    ensures
        count_id(draw_full(n).0, other) == count_id(n, other),
    decreases n, n.children.len() + 1,
{
    let len = n.children.len() as int;
    let r = draw_full(n).0;
    if n.has(IS_VISIBLE) {
        lemma_draw_full_kids(n, len);
        assert forall|i: int| 0 <= i < len implies #[trigger] count_id(r.children[i], other)
            == count_id(n.children[i], other) by {
            law_draw_full_keeps_ids(n.children[i], other);
        }
    }
    lemma_count_pointwise(r, n, len, other);
}

/// A draw pass changes no id.
pub proof fn law_draw_keeps_ids(n: WidgetModel, other: WidgetId)
    ensures
        count_id(draw_node(n).0, other) == count_id(n, other),
    decreases n, n.children.len() + 1,
{
    let len = n.children.len() as int;
    let r = draw_node(n).0;
    if n.has(IS_VISIBLE) && n.has(SELF_DRAW) {
        law_draw_full_keeps_ids(n, other);
    } else {
        if n.has(IS_VISIBLE) && n.has(CHILDREN_DRAW) {
            lemma_draw_kids(n, len);
            assert forall|i: int| 0 <= i < len implies #[trigger] count_id(r.children[i], other)
                == count_id(n.children[i], other) by {
                law_draw_keeps_ids(n.children[i], other);
            }
        }
        lemma_count_pointwise(r, n, len, other);
    }
}

/// Setting the runtime changes no id.
pub proof fn law_runtime_keeps_ids(n: WidgetModel, rt: Runtime, other: WidgetId)
    ensures
        count_id(with_runtime(n, rt), other) == count_id(n, other),
    decreases n, n.children.len() + 1,
{
    let len = n.children.len() as int;
    let r = with_runtime(n, rt);
    lemma_runtime_kids(n, len, rt);
    assert forall|i: int| 0 <= i < len implies #[trigger] count_id(r.children[i], other)
        == count_id(n.children[i], other) by {
        law_runtime_keeps_ids(n.children[i], rt, other);
    }
    lemma_count_pointwise(r, n, len, other);
}


/// Routing an event changes no id.
pub proof fn law_route_keeps_ids(kind: RoutedEvent, n: WidgetModel, ans: Seq<bool>, other: WidgetId)
    ensures
        count_id(route(kind, n, ans).node, other) == count_id(n, other),
    decreases n, n.children.len() + 1,
{
    if n.has(IS_ENABLED) {
        let hu: int = if kind != RoutedEvent::Keyboard {
            1
        } else {
            0
        };
        let len = n.children.len() as int;
        lemma_route_kids_ids(kind, n, len, ans.skip(hu), other);
        let node = route(kind, n, ans).node;
        lemma_count_pointwise(node, n, len, other);
    }
}

proof fn lemma_route_kids_ids(kind: RoutedEvent, n: WidgetModel, k: int, ans: Seq<bool>, other: WidgetId)
    requires
        0 <= k <= n.children.len(),
    ensures
        route_kids(kind, n, k, ans).children.len() == k,
        forall|i: int|
            0 <= i < k ==> #[trigger] count_id(route_kids(kind, n, k, ans).children[i], other)
                == count_id(n.children[i], other),
    decreases n, k,
{
    if k > 0 {
        lemma_route_kids_ids(kind, n, k - 1, ans, other);
        let p = route_kids(kind, n, k - 1, ans);
        if !p.accepted {
            law_route_keeps_ids(kind, n.children[k - 1], ans.skip(p.used as int), other);
        }
        let rk = route_kids(kind, n, k, ans).children;
        assert forall|i: int| 0 <= i < k implies #[trigger] count_id(rk[i], other) == count_id(
            n.children[i],
            other,
        ) by {
            if i < k - 1 {
                assert(rk[i] == p.children[i]);
            }
        }
    }
}


/// A whole tick (the update pass, then the deletions) keeps the ids of a
/// tree unique.
pub proof fn law_emit_tick_keeps_unique_ids(n: WidgetModel)
    requires
        unique_ids(n),
    ensures
        unique_ids(check_delete(update_node(n).0).0),
{
    let u = update_node(n).0;
    assert forall|id: WidgetId| #[trigger] count_id(u, id) <= 1 by {
        law_update_keeps_ids(n, id);
        assert(count_id(n, id) <= 1);
    }
    law_tick_keeps_unique_ids(u);
}


// ---------------------------------------------------------------------------
// Where a move, a draw, a press and a layout go.

/// A widget the pointer is over that holds a pressed button gets the move
/// itself, wherever the pointer now is and whether or not it tracks the
/// mouse: it is asked whether the pointer is inside it, then gets the move,
/// the move counts as accepted, and nothing else changes.
pub proof fn law_pressed_widget_gets_move(d: DispatcherModel, ans: Seq<bool>, w: WidgetId)
    requires
        d.mouse_over == Some(w),
        match find(d.root, w) {
            Some(m) => m.mouse_btn_num > 0,
            None => false,
        },
    ensures
        mouse_move_spec(d, ans).calls == seq![
            Call::Hit(w, answer_at(ans, 0)),
            Call::MouseMove(w, answer_at(ans, 1)),
        ],
        mouse_move_spec(d, ans).accepted,
        mouse_move_spec(d, ans).after == d,
{
    let c0 = seq![Call::Hit(w, answer_at(ans, 0))];
    assert(c0.push(Call::MouseMove(w, answer_at(ans, 1))) =~= seq![
        Call::Hit(w, answer_at(ans, 0)),
        Call::MouseMove(w, answer_at(ans, 1)),
    ]);
}

/// A widget the pointer is over and still inside that tracks the mouse
/// gets the move itself, and nothing else changes.
pub proof fn law_tracking_widget_gets_move(d: DispatcherModel, ans: Seq<bool>, w: WidgetId)
    requires
        d.mouse_over == Some(w),
        match find(d.root, w) {
            Some(m) => m.has(HAS_MOUSE_TRACKING),
            None => false,
        },
        answer_at(ans, 0),
    ensures
        mouse_move_spec(d, ans).calls == seq![
            Call::Hit(w, true),
            Call::MouseMove(w, answer_at(ans, 1)),
        ],
        mouse_move_spec(d, ans).accepted,
        mouse_move_spec(d, ans).after == d,
{
    let c0 = seq![Call::Hit(w, true)];
    assert(c0.push(Call::MouseMove(w, answer_at(ans, 1))) =~= seq![
        Call::Hit(w, true),
        Call::MouseMove(w, answer_at(ans, 1)),
    ]);
}

/// A forced draw reaches every widget that is visible together with every
/// widget above it, whatever the widgets' draw flags.
pub proof fn law_full_draw_reaches_visible(n: WidgetModel, id: WidgetId)
    requires
        visible_to(n, id),
    ensures
        draw_full(n).1.contains(Call::Draw(id)),
    decreases n, n.children.len() + 1,
{
    if n.id == id {
        assert(draw_full(n).1[0] == Call::Draw(id));
    } else {
        let len = n.children.len() as int;
        let j = lemma_visible_kid(n, len, id);
        law_full_draw_reaches_visible(n.children[j], id);
        lemma_draw_full_kids_contains(n, len, j, Call::Draw(id));
        lemma_contains_right(seq![Call::Draw(n.id)], draw_full_kids(n, len).1, Call::Draw(id));
    }
}

/// A draw pass that reaches a visible widget which asked to be drawn redraws
/// its whole subtree, whatever the flags below it: the widget is drawn
/// first, the calls are those of a full draw, and every widget of the
/// subtree that is visible with all the widgets between is drawn.
pub proof fn law_self_draw_draws_subtree(n: WidgetModel, id: WidgetId)
    requires
        n.has(IS_VISIBLE),
        n.has(SELF_DRAW),
        visible_to(n, id),
    ensures
        draw_node(n) == draw_full(n),
        draw_node(n).1[0] == Call::Draw(n.id),
        draw_node(n).1.contains(Call::Draw(id)),
{
    law_full_draw_reaches_visible(n, id);
}

/// No call of the trace is a mouse button call.
pub open spec fn no_button(s: Seq<Call>) -> bool {
    forall|i: int| 0 <= i < s.len() ==> !(#[trigger] s[i] is MouseButton)
}

/// Routing a press: the widget it reached last is the target, and its press
/// call ends the trace with the answer that decides whether the press was
/// accepted; a press that reaches no widget makes no press call and leaves
/// the subtree as it was.
proof fn lemma_route_press(n: WidgetModel, a: Seq<bool>)
    ensures
        ({
            let r = route(RoutedEvent::MouseButton, n, a);
            &&& r.accepted ==> r.target is Some
            &&& r.target is Some ==> r.calls.len() > 0 && r.calls.last() == Call::MouseButton(
                r.target.unwrap(),
                r.accepted,
            )
            &&& r.target is None ==> no_button(r.calls) && r.node == n
        }),
    decreases n, n.children.len() + 1,
{
    let r = route(RoutedEvent::MouseButton, n, a);
    if n.has(IS_ENABLED) {
        let inside = answer_at(a, 0);
        let h = seq![Call::Hit(n.id, inside)];
        if inside {
            let len = n.children.len() as int;
            lemma_route_kids_press(n, len, a.skip(1));
            let k = route_kids(RoutedEvent::MouseButton, n, len, a.skip(1));
            if k.accepted {
                assert(r.calls == h + k.calls);
                assert(r.calls.last() == k.calls.last());
            } else {
                assert(r.calls.last() == Call::MouseButton(n.id, r.accepted));
            }
        } else {
            assert forall|i: int| 0 <= i < r.calls.len() implies !(#[trigger] r.calls[i] is MouseButton) by {
                assert(r.calls[i] == Call::Hit(n.id, inside));
            }
        }
    } else {
        assert(r.calls.len() == 0);
    }
}

proof fn lemma_route_kids_press(n: WidgetModel, k: int, a: Seq<bool>)
    ensures
        ({
            let q = route_kids(RoutedEvent::MouseButton, n, k, a);
            q.accepted ==> q.target is Some && q.calls.len() > 0 && q.calls.last()
                == Call::MouseButton(q.target.unwrap(), true)
        }),
    decreases n, k,
{
    if 0 < k <= n.children.len() {
        lemma_route_kids_press(n, k - 1, a);
        let p = route_kids(RoutedEvent::MouseButton, n, k - 1, a);
        if !p.accepted {
            let r = route(RoutedEvent::MouseButton, n.children[k - 1], a.skip(p.used as int));
            lemma_route_press(n.children[k - 1], a.skip(p.used as int));
            let q = route_kids(RoutedEvent::MouseButton, n, k, a);
            if q.accepted {
                assert(q.calls == p.calls + r.calls);
                assert(q.calls.last() == r.calls.last());
            }
        }
    }
}

/// A press that finds no widget holding the buttons is routed from the
/// root, and the widget whose press call ends the trace, the last one the
/// press reached, holds the buttons afterwards, whether or not it accepted
/// the press; the answer of that call is whether the press was accepted.
/// A press that reaches no widget makes no press call, is not accepted and
/// changes nothing.
pub proof fn law_press_makes_holder(d: DispatcherModel, ans: Seq<bool>)
    requires
        match d.mouse_button {
            Some(w) => find(d.root, w) is None,
            None => true,
        },
    ensures
        ({
            let o = mouse_button_spec(d, true, ans);
            &&& !no_button(o.calls) ==> o.calls.len() > 0 && o.after.mouse_button is Some
                && o.calls.last() == Call::MouseButton(o.after.mouse_button.unwrap(), o.accepted)
            &&& no_button(o.calls) ==> !o.accepted && o.after == d
        }),
{
    lemma_route_press(d.root, ans);
    let r = route(RoutedEvent::MouseButton, d.root, ans);
    if r.target is Some {
        let s = r.calls;
        assert(s[s.len() - 1] is MouseButton);
    }
}

/// How many widgets the subtree has.
pub open spec fn widget_count(n: WidgetModel) -> nat
    decreases n, n.children.len() + 1,
{
    1 + widget_count_kids(n, n.children.len() as int)
}

/// How many widgets the subtrees of the first `k` children have.
pub open spec fn widget_count_kids(n: WidgetModel, k: int) -> nat
    decreases n, k,
{
    if k <= 0 || k > n.children.len() {
        0
    } else {
        widget_count_kids(n, k - 1) + widget_count(n.children[k - 1])
    }
}

/// Every call of the trace is a layout call.
pub open spec fn all_layout(s: Seq<Call>) -> bool {
    forall|i: int| 0 <= i < s.len() ==> #[trigger] s[i] is Layout
}

/// Every call of the trace is a lifecycle call with the state.
pub open spec fn all_lifecycle(s: Seq<Call>, st: LifecycleState) -> bool {
    forall|i: int| 0 <= i < s.len() ==> exists|x: WidgetId| #[trigger] s[i] == Call::Lifecycle(x, st)
}

proof fn lemma_layout_shape(n: WidgetModel)
    ensures
        layout_calls(n).len() == widget_count(n),
        all_layout(layout_calls(n)),
    decreases n, n.children.len() + 1,
{
    let len = n.children.len() as int;
    lemma_layout_kids_shape(n, len);
    let s = layout_calls(n);
    let k = layout_kids(n, len);
    assert forall|i: int| 0 <= i < s.len() implies #[trigger] s[i] is Layout by {
        if i > 0 {
            assert(s[i] == k[i - 1]);
        }
    }
}

proof fn lemma_layout_kids_shape(n: WidgetModel, k: int)
    ensures
        layout_kids(n, k).len() == widget_count_kids(n, k),
        all_layout(layout_kids(n, k)),
    decreases n, k,
{
    if 0 < k <= n.children.len() {
        lemma_layout_kids_shape(n, k - 1);
        lemma_layout_shape(n.children[k - 1]);
        let p = layout_kids(n, k - 1);
        let c = layout_calls(n.children[k - 1]);
        assert forall|i: int| 0 <= i < (p + c).len() implies #[trigger] (p + c)[i] is Layout by {
            if i < p.len() {
                assert((p + c)[i] == p[i]);
            } else {
                assert((p + c)[i] == c[i - p.len()]);
            }
        }
    }
}

proof fn lemma_layout_contains(m: WidgetModel, id: WidgetId)
    requires
        find(m, id) is Some,
    ensures
        layout_calls(m).contains(Call::Layout(id)),
    decreases m, m.children.len() + 1,
{
    if m.id == id {
        assert(layout_calls(m)[0] == Call::Layout(id));
    } else {
        let len = m.children.len() as int;
        let j = lemma_first_kid(m, len, id);
        lemma_layout_contains(m.children[j], id);
        lemma_layout_kids_contains(m, len, j, Call::Layout(id));
        lemma_contains_right(seq![Call::Layout(m.id)], layout_kids(m, len), Call::Layout(id));
    }
}

proof fn lemma_layout_kids_contains(n: WidgetModel, k: int, j: int, x: Call)
    requires
        0 <= j < k <= n.children.len(),
        layout_calls(n.children[j]).contains(x),
    ensures
        layout_kids(n, k).contains(x),
    decreases k,
{
    let p = layout_kids(n, k - 1);
    let c = layout_calls(n.children[k - 1]);
    if j == k - 1 {
        lemma_contains_right(p, c, x);
    } else {
        lemma_layout_kids_contains(n, k - 1, j, x);
        lemma_contains_left(p, c, x);
    }
}

/// A layout pass reaches every widget of the tree, whatever its flags:
/// the trace holds one layout call per widget, the root's first, and one
/// for every id in the tree.
pub proof fn law_layout_reaches_every_widget(n: WidgetModel, id: WidgetId)
    ensures
        layout_calls(n).len() == widget_count(n),
        layout_calls(n)[0] == Call::Layout(n.id),
        all_layout(layout_calls(n)),
        find(n, id) is Some ==> layout_calls(n).contains(Call::Layout(id)),
{
    lemma_layout_shape(n);
    if find(n, id) is Some {
        lemma_layout_contains(n, id);
    }
}

proof fn lemma_lifecycle_shape(n: WidgetModel, st: LifecycleState)
    ensures
        lifecycle_calls(n, st).len() == widget_count(n),
        all_lifecycle(lifecycle_calls(n, st), st),
    decreases n, n.children.len() + 1,
{
    let len = n.children.len() as int;
    lemma_lifecycle_kids_shape(n, len, st);
    let s = lifecycle_calls(n, st);
    let k = lifecycle_kids(n, len, st);
    assert forall|i: int| 0 <= i < s.len() implies exists|x: WidgetId| #[trigger] s[i] == Call::Lifecycle(x, st) by {
        if i < k.len() {
            assert(s[i] == k[i]);
        } else {
            assert(s[i] == Call::Lifecycle(n.id, st));
        }
    }
}

proof fn lemma_lifecycle_kids_shape(n: WidgetModel, k: int, st: LifecycleState)
    ensures
        lifecycle_kids(n, k, st).len() == widget_count_kids(n, k),
        all_lifecycle(lifecycle_kids(n, k, st), st),
    decreases n, k,
{
    if 0 < k <= n.children.len() {
        lemma_lifecycle_kids_shape(n, k - 1, st);
        lemma_lifecycle_shape(n.children[k - 1], st);
        let p = lifecycle_kids(n, k - 1, st);
        let c = lifecycle_calls(n.children[k - 1], st);
        assert forall|i: int| 0 <= i < (p + c).len() implies exists|x: WidgetId| #[trigger] (p + c)[i]
            == Call::Lifecycle(x, st) by {
            if i < p.len() {
                assert((p + c)[i] == p[i]);
            } else {
                assert((p + c)[i] == c[i - p.len()]);
            }
        }
    }
}

/// Destroying or reinitialising a tree reaches every widget, whatever its
/// flags: the trace holds one lifecycle call with the state per widget,
/// the root's last, and one for every id in the tree.
pub proof fn law_lifecycle_reaches_every_widget(n: WidgetModel, st: LifecycleState, id: WidgetId)
    ensures
        lifecycle_calls(n, st).len() == widget_count(n),
        lifecycle_calls(n, st).last() == Call::Lifecycle(n.id, st),
        all_lifecycle(lifecycle_calls(n, st), st),
        find(n, id) is Some ==> lifecycle_calls(n, st).contains(Call::Lifecycle(id, st)),
{
    lemma_lifecycle_shape(n, st);
    if find(n, id) is Some {
        lemma_lifecycle_contains(n, id, st);
    }
}


// ---------------------------------------------------------------------------
// Leaving a widget.

/// Every call of the trace asks where the pointer is.
pub open spec fn only_hits(s: Seq<Call>) -> bool {
    forall|i: int| 0 <= i < s.len() ==> #[trigger] s[i] is Hit
}

proof fn lemma_only_hits_concat(a: Seq<Call>, b: Seq<Call>)
    requires
        only_hits(a),
        only_hits(b),
    ensures
        only_hits(a + b),
{
    assert forall|i: int| 0 <= i < (a + b).len() implies #[trigger] (a + b)[i] is Hit by {
        if i < a.len() {
            assert((a + b)[i] == a[i]);
        } else {
            assert((a + b)[i] == b[i - a.len()]);
        }
    }
}

/// Routing a mouse move makes no call but the questions where the pointer
/// is.
proof fn lemma_route_move_hits(n: WidgetModel, a: Seq<bool>)
    ensures
        only_hits(route(RoutedEvent::MouseMove, n, a).calls),
    decreases n, n.children.len() + 1,
{
    if n.has(IS_ENABLED) {
        let inside = answer_at(a, 0);
        let h = seq![Call::Hit(n.id, inside)];
        assert(only_hits(h)) by {
            assert forall|i: int| 0 <= i < h.len() implies #[trigger] h[i] is Hit by {
                assert(h[i] == Call::Hit(n.id, inside));
            }
        }
        if inside {
            lemma_route_kids_move_hits(n, n.children.len() as int, a.skip(1));
            let k = route_kids(RoutedEvent::MouseMove, n, n.children.len() as int, a.skip(1));
            lemma_only_hits_concat(h, k.calls);
        }
    }
}

proof fn lemma_route_kids_move_hits(n: WidgetModel, k: int, a: Seq<bool>)
    ensures
        only_hits(route_kids(RoutedEvent::MouseMove, n, k, a).calls),
    decreases n, k,
{
    if 0 < k <= n.children.len() {
        lemma_route_kids_move_hits(n, k - 1, a);
        let p = route_kids(RoutedEvent::MouseMove, n, k - 1, a);
        if !p.accepted {
            let r = route(RoutedEvent::MouseMove, n.children[k - 1], a.skip(p.used as int));
            lemma_route_move_hits(n.children[k - 1], a.skip(p.used as int));
            lemma_only_hits_concat(p.calls, r.calls);
        }
    }
}

/// Whether the subtree's first widget with the id, if there is one, is
/// not marked as being under the pointer.
pub open spec fn not_over(n: WidgetModel, x: WidgetId) -> bool {
    match find(n, x) {
        Some(m) => !m.has(IS_OVER),
        None => true,
    }
}

/// Setting or clearing a flag of one widget leaves the flags of the widget
/// found for another id as they were.
proof fn lemma_find_other_after_flag_edit(n: WidgetModel, w: WidgetId, f: u16, v: bool, t: WidgetId, g: u16)
    requires
        w != t,
    ensures
        same_flag_found(find(edit_at(n, w, NodeEdit::SetFlag(f, v)), t), find(n, t), g),
    decreases n, n.children.len() + 1,
{
    let e = NodeEdit::SetFlag(f, v);
    let len = n.children.len() as int;
    if n.id == w {
        lemma_find_kids_same_children(apply_edit(n, e), n, len, t);
    } else if n.id != t {
        lemma_edit_kids(n, len, w, e);
        lemma_find_other_kids(n, len, w, f, v, t, g);
    }
}

proof fn lemma_find_other_kids(n: WidgetModel, k: int, w: WidgetId, f: u16, v: bool, t: WidgetId, g: u16)
    requires
        0 <= k <= n.children.len(),
        w != t,
    ensures
        same_flag_found(
            find_kids(
                n.with_children(
                    edit_kids(n, n.children.len() as int, w, NodeEdit::SetFlag(f, v)),
                ),
                k,
                t,
            ),
            find_kids(n, k, t),
            g,
        ),
    decreases n, k,
{
    if k > 0 {
        let e = NodeEdit::SetFlag(f, v);
        lemma_find_other_kids(n, k - 1, w, f, v, t, g);
        lemma_edit_kids(n, n.children.len() as int, w, e);
        lemma_find_other_after_flag_edit(n.children[k - 1], w, f, v, t, g);
    }
}

/// Clearing the flag that marks a widget as under the pointer leaves the
/// widget found for that id unmarked.
proof fn lemma_cleared_not_over(n: WidgetModel, x: WidgetId)
    ensures
        not_over(edit_at(n, x, NodeEdit::SetFlag(IS_OVER, false)), x),
{
    law_find_after_edit(n, x, NodeEdit::SetFlag(IS_OVER, false));
    if find(n, x) is Some {
        lemma_with(find(n, x).unwrap().flags, IS_OVER, IS_OVER, false);
    }
}

/// In the routing part of a move, a widget is told it was left only when it
/// was the widget the pointer was over, or when the calls before the routing
/// told it so; either way, afterwards it is the widget the pointer is over
/// or it is not marked as being under the pointer.
proof fn lemma_enter_leave(d: DispatcherModel, ans: Seq<bool>, c: Seq<Call>, u: nat, x: WidgetId)
    requires
        mouse_move_enter(d, ans, c, u).calls.contains(Call::MouseCross(x, false)),
        c.contains(Call::MouseCross(x, false)) ==> d.mouse_over is None && not_over(d.root, x),
    ensures
        ({
            let o = mouse_move_enter(d, ans, c, u);
            o.after.mouse_over == Some(x) || not_over(o.after.root, x)
        }),
{
    let r = route(RoutedEvent::MouseMove, d.root, ans.skip(u as int));
    let o = mouse_move_enter(d, ans, c, u);
    lemma_route_move_hits(d.root, ans.skip(u as int));
    let cx = Call::MouseCross(x, false);
    let i = choose|i: int| 0 <= i < o.calls.len() && o.calls[i] == cx;
    match r.target {
        None => {
            if i >= c.len() {
                assert(o.calls[i] == r.calls[i - c.len()]);
            }
            assert(c[i] == cx);
        },
        Some(t) => {
            let root1 = edit_at(d.root, t, NodeEdit::SetFlag(IS_OVER, true));
            let left = match d.mouse_over {
                Some(w) => find(root1, w) is Some,
                None => false,
            };
            let leave = if left {
                seq![Call::MouseCross(d.mouse_over.unwrap(), false)]
            } else {
                seq![]
            };
            let tracking = match find(o.after.root, t) {
                Some(m) => m.has(HAS_MOUSE_TRACKING),
                None => false,
            };
            let mv = if tracking {
                seq![Call::MouseMove(t, answer_at(ans, (u + r.used) as int))]
            } else {
                seq![]
            };
            let s = c + r.calls + leave + seq![Call::MouseCross(t, true)] + mv;
            assert(o.calls == s);
            let a = c.len() as int;
            let b = a + r.calls.len();
            let e = b + leave.len();
            if i < a {
                assert(s[i] == c[i]);
                assert(c.contains(cx));
                assert(!left);
                if t != x {
                    lemma_find_other_after_flag_edit(d.root, t, IS_OVER, true, x, IS_OVER);
                }
            } else if i < b {
                assert(s[i] == r.calls[i - a]);
            } else if i < e {
                assert(s[i] == leave[i - b]);
                assert(left);
                assert(d.mouse_over.unwrap() == x);
                if t != x {
                    lemma_cleared_not_over(root1, x);
                }
            } else if i == e {
                assert(s[i] == Call::MouseCross(t, true));
            } else {
                assert(s[i] == mv[i - e - 1]);
            }
        },
    }
}

/// A mouse move that tells a widget the pointer left it leaves that widget
/// unmarked as being under the pointer, unless the same move entered it
/// again and it is the widget the pointer is over.
pub proof fn law_leave_clears_over(d: DispatcherModel, ans: Seq<bool>, x: WidgetId)
    requires
        mouse_move_spec(d, ans).calls.contains(Call::MouseCross(x, false)),
    ensures
        mouse_move_spec(d, ans).after.mouse_over == Some(x) || not_over(
            mouse_move_spec(d, ans).after.root,
            x,
        ),
{
    let o = mouse_move_spec(d, ans);
    let cx = Call::MouseCross(x, false);
    let over = match d.mouse_over {
        Some(w) => find(d.root, w),
        None => None,
    };
    let e: Seq<Call> = seq![];
    match over {
        Some(wm) => {
            let w = d.mouse_over.unwrap();
            let inside = answer_at(ans, 0);
            let c0 = seq![Call::Hit(w, inside)];
            let busy = wm.mouse_btn_num > 0;
            if (inside && (busy || wm.has(HAS_MOUSE_TRACKING))) || (!inside && busy) {
                let i = choose|i: int| 0 <= i < o.calls.len() && o.calls[i] == cx;
                assert(o.calls == c0.push(Call::MouseMove(w, answer_at(ans, 1))));
                assert(i == 0 || i == 1);
            } else if inside {
                if c0.contains(cx) {
                    let i = choose|i: int| 0 <= i < c0.len() && c0[i] == cx;
                    assert(c0[i] == Call::Hit(w, inside));
                }
                lemma_enter_leave(d, ans, c0, 1, x);
            } else {
                let d1 = DispatcherModel {
                    root: edit_at(d.root, w, NodeEdit::SetFlag(IS_OVER, false)),
                    mouse_over: None,
                    ..d
                };
                let c1 = c0.push(Call::MouseCross(w, false));
                if c1.contains(cx) {
                    let i = choose|i: int| 0 <= i < c1.len() && c1[i] == cx;
                    if i == 0 {
                        assert(c1[i] == Call::Hit(w, inside));
                    }
                    assert(c1[i] == Call::MouseCross(w, false));
                    lemma_cleared_not_over(d.root, w);
                }
                lemma_enter_leave(d1, ans, c1, 1, x);
            }
        },
        None => {
            lemma_enter_leave(d, ans, e, 0, x);
        },
    }
}


// ---------------------------------------------------------------------------
// The widget under the pointer.

/// Whether the subtree's first widget with the id, if there is one, is
/// marked as being under the pointer exactly when `b` holds.
pub open spec fn over_state(n: WidgetModel, x: WidgetId, b: bool) -> bool {
    match find(n, x) {
        Some(m) => m.has(IS_OVER) == b,
        None => true,
    }
}

/// The dispatcher's record of the widget under the pointer agrees with the
/// tree: that widget, if it is in the tree, is marked as being under the
/// pointer, and no other widget is.
pub open spec fn over_agrees(d: DispatcherModel) -> bool {
    forall|x: WidgetId| #[trigger] over_at(d, x)
}

/// The widget found for the id is marked as being under the pointer exactly
/// when the dispatcher records it as the widget the pointer is over.
pub open spec fn over_at(d: DispatcherModel, x: WidgetId) -> bool {
    over_state(d.root, x, d.mouse_over == Some(x))
}

proof fn lemma_count_kids_mono(n: WidgetModel, i: int, k: int, id: WidgetId)
    requires
        0 <= i <= k <= n.children.len(),
    ensures
        count_kids(n, i, id) <= count_kids(n, k, id),
    decreases k,
{
    if i < k {
        lemma_count_kids_mono(n, i, k - 1, id);
    }
}

/// The widget a mouse move newly enters is in the subtree and, where its id
/// is not shared, is not yet marked as being under the pointer.
proof fn lemma_route_move_target(n: WidgetModel, a: Seq<bool>)
    ensures
        ({
            let r = route(RoutedEvent::MouseMove, n, a);
            r.target is Some ==> find(n, r.target.unwrap()) is Some && (count_id(
                n,
                r.target.unwrap(),
            ) == 1 ==> !find(n, r.target.unwrap()).unwrap().has(IS_OVER))
        }),
    decreases n, n.children.len() + 1,
{
    let r = route(RoutedEvent::MouseMove, n, a);
    if n.has(IS_ENABLED) && answer_at(a, 0) {
        let len = n.children.len() as int;
        let q = route_kids(RoutedEvent::MouseMove, n, len, a.skip(1));
        let j = lemma_route_kids_move_target(n, len, a.skip(1));
        if r.target is Some && r.target == q.target {
            let t = r.target.unwrap();
            let c = n.children[j];
            lemma_find_count(c, t);
            lemma_count_kids_mono(n, j + 1, len, t);
            lemma_find_count_kids(n, j, t);
            lemma_find_count_kids(n, len, t);
            lemma_count_one(n, len, j, t);
            if count_id(n, t) == 1 && t != n.id {
                assert(count_kids(n, j, t) == 0);
                assert(find_kids(n, j + 1, t) == find(c, t));
                lemma_find_kids_found(n, j + 1, len, t);
            }
        }
    }
}

proof fn lemma_route_kids_move_target(n: WidgetModel, k: int, a: Seq<bool>) -> (j: int)
    ensures
        ({
            let q = route_kids(RoutedEvent::MouseMove, n, k, a);
            q.target is Some ==> 0 <= j < k && k <= n.children.len() && find(
                n.children[j],
                q.target.unwrap(),
            ) is Some && (count_id(n.children[j], q.target.unwrap()) == 1 ==> !find(
                n.children[j],
                q.target.unwrap(),
            ).unwrap().has(IS_OVER))
        }),
    decreases n, k,
{
    if 0 < k <= n.children.len() {
        let jp = lemma_route_kids_move_target(n, k - 1, a);
        let p = route_kids(RoutedEvent::MouseMove, n, k - 1, a);
        if p.accepted {
            jp
        } else {
            let r = route(RoutedEvent::MouseMove, n.children[k - 1], a.skip(p.used as int));
            lemma_route_move_target(n.children[k - 1], a.skip(p.used as int));
            if r.target is Some {
                k - 1
            } else {
                jp
            }
        }
    } else {
        0
    }
}

/// Setting or clearing the mark of one widget leaves what is known of the
/// marks of the widgets found for the other ids.
proof fn lemma_over_state_other(n: WidgetModel, t: WidgetId, v: bool, x: WidgetId, b: bool)
    requires
        x != t,
    ensures
        over_state(edit_at(n, t, NodeEdit::SetFlag(IS_OVER, v)), x, b) == over_state(n, x, b),
{
    lemma_find_other_after_flag_edit(n, t, IS_OVER, v, x, IS_OVER);
}

/// Setting or clearing the mark of a widget sets or clears it on the widget
/// found for that id.
proof fn lemma_over_state_self(n: WidgetModel, t: WidgetId, v: bool)
    ensures
        over_state(edit_at(n, t, NodeEdit::SetFlag(IS_OVER, v)), t, v),
{
    law_find_after_edit(n, t, NodeEdit::SetFlag(IS_OVER, v));
    if find(n, t) is Some {
        lemma_with(find(n, t).unwrap().flags, IS_OVER, IS_OVER, v);
    }
}

proof fn lemma_enter_agrees(d: DispatcherModel, ans: Seq<bool>, c: Seq<Call>, u: nat)
    requires
        unique_ids(d.root),
        over_agrees(d),
    ensures
        over_agrees(mouse_move_enter(d, ans, c, u).after),
{
    let r = route(RoutedEvent::MouseMove, d.root, ans.skip(u as int));
    let o = mouse_move_enter(d, ans, c, u);
    if r.target is Some {
        let t = r.target.unwrap();
        lemma_route_move_target(d.root, ans.skip(u as int));
        lemma_find_count(d.root, t);
        assert(count_id(d.root, t) <= 1);
        assert(over_at(d, t));
        assert(d.mouse_over != Some(t));
        let root1 = edit_at(d.root, t, NodeEdit::SetFlag(IS_OVER, true));
        let left = match d.mouse_over {
            Some(w) => find(root1, w) is Some,
            None => false,
        };
        assert forall|x: WidgetId| #[trigger] over_at(o.after, x) by {
            assert(over_at(d, x));
            lemma_over_state_self(d.root, t, true);
            if x != t {
                lemma_over_state_other(d.root, t, true, x, d.mouse_over == Some(x));
            }
            if left {
                let w = d.mouse_over.unwrap();
                lemma_over_state_other(root1, w, false, t, true);
                if x == w {
                    lemma_over_state_self(root1, w, false);
                } else {
                    lemma_over_state_other(root1, w, false, x, false);
                }
            }
        }
    }
}

/// A mouse move keeps the dispatcher's record of the widget under the
/// pointer in agreement with the tree, in a tree whose ids are unique: the
/// widget the pointer is over afterwards, if it is in the tree, is marked
/// as being under the pointer, and no other widget is.
pub proof fn law_move_keeps_over_agreement(d: DispatcherModel, ans: Seq<bool>)
    requires
        unique_ids(d.root),
        over_agrees(d),
    ensures
        over_agrees(mouse_move_spec(d, ans).after),
{
    let over = match d.mouse_over {
        Some(w) => find(d.root, w),
        None => None,
    };
    let e: Seq<Call> = seq![];
    match over {
        Some(wm) => {
            let w = d.mouse_over.unwrap();
            let inside = answer_at(ans, 0);
            let c0 = seq![Call::Hit(w, inside)];
            let busy = wm.mouse_btn_num > 0;
            if (inside && (busy || wm.has(HAS_MOUSE_TRACKING))) || (!inside && busy) {
            } else if inside {
                lemma_enter_agrees(d, ans, c0, 1);
            } else {
                let d1 = DispatcherModel {
                    root: edit_at(d.root, w, NodeEdit::SetFlag(IS_OVER, false)),
                    mouse_over: None,
                    ..d
                };
                assert forall|x: WidgetId| #[trigger] count_id(d1.root, x) <= 1 by {
                    law_edit_keeps_ids(d.root, w, NodeEdit::SetFlag(IS_OVER, false), x);
                    assert(count_id(d.root, x) <= 1);
                }
                assert forall|x: WidgetId| #[trigger] over_at(d1, x) by {
                    assert(over_at(d, x));
                    if x == w {
                        lemma_over_state_self(d.root, w, false);
                    } else {
                        lemma_over_state_other(d.root, w, false, x, false);
                    }
                }
                lemma_enter_agrees(d1, ans, c0.push(Call::MouseCross(w, false)), 1);
            }
        },
        None => {
            lemma_enter_agrees(d, ans, e, 0);
        },
    }
}


/// The widget that holds the pressed buttons gets every button event while
/// it is in the tree, wherever the pointer is, and the event counts as
/// accepted: a release counts one button less on it and it stops holding
/// the buttons exactly when none is left; a press counts one more when the
/// pointer is inside it, and changes nothing otherwise.
pub proof fn law_holder_gets_button_events(d: DispatcherModel, pressed: bool, ans: Seq<bool>, w: WidgetId)
    requires
        d.mouse_button == Some(w),
        find(d.root, w) is Some,
    ensures
        ({
            let o = mouse_button_spec(d, pressed, ans);
            let m = find(d.root, w).unwrap();
            let inside = answer_at(ans, 0);
            &&& o.accepted
            &&& o.after.mouse_over == d.mouse_over
            &&& if !pressed {
                &&& o.calls == seq![Call::Hit(w, inside), Call::MouseButton(w, answer_at(ans, 1))]
                &&& find(o.after.root, w) == Some(apply_edit(m, NodeEdit::AddMouseBtn(-1i8)))
                &&& o.after.mouse_button == if find(o.after.root, w).unwrap().mouse_btn_num == 0 {
                    None
                } else {
                    Some(w)
                }
            } else if inside {
                &&& o.calls == seq![Call::Hit(w, true), Call::MouseButton(w, answer_at(ans, 1))]
                &&& find(o.after.root, w) == Some(apply_edit(m, NodeEdit::AddMouseBtn(1)))
                &&& o.after.mouse_button == Some(w)
            } else {
                &&& o.calls == seq![Call::Hit(w, false)]
                &&& o.after == d
            }
        }),
{
    let inside = answer_at(ans, 0);
    let c0 = seq![Call::Hit(w, inside)];
    assert(c0.push(Call::MouseButton(w, answer_at(ans, 1))) =~= seq![
        Call::Hit(w, inside),
        Call::MouseButton(w, answer_at(ans, 1)),
    ]);
    law_find_after_edit(d.root, w, NodeEdit::AddMouseBtn(-1i8));
    law_find_after_edit(d.root, w, NodeEdit::AddMouseBtn(1));
}


// ---------------------------------------------------------------------------
// Bubbling.

/// Whether the call is an event that the widget accepted.
pub open spec fn accepts(c: Call) -> bool {
    match c {
        Call::Keyboard(_, a) => a,
        Call::MouseWheel(_, a) => a,
        Call::MouseButton(_, a) => a,
        _ => false,
    }
}

/// No call of the trace accepts an event.
pub open spec fn none_accepts(s: Seq<Call>) -> bool {
    forall|i: int| 0 <= i < s.len() ==> !accepts(#[trigger] s[i])
}

/// No call of the trace but the last accepts an event, and the last does
/// exactly when `acc` holds.
pub open spec fn stops_at_last(s: Seq<Call>, acc: bool) -> bool {
    &&& forall|i: int| 0 <= i < s.len() - 1 ==> !accepts(#[trigger] s[i])
    &&& acc == (s.len() > 0 && accepts(s.last()))
}

proof fn lemma_stops_none(s: Seq<Call>)
    requires
        stops_at_last(s, false),
    ensures
        none_accepts(s),
{
    assert forall|i: int| 0 <= i < s.len() implies !accepts(#[trigger] s[i]) by {
        if i == s.len() - 1 {
            assert(s[i] == s.last());
        }
    }
}

proof fn lemma_stops_concat(p: Seq<Call>, q: Seq<Call>, acc: bool)
    requires
        none_accepts(p),
        stops_at_last(q, acc),
    ensures
        stops_at_last(p + q, acc),
{
    let s = p + q;
    assert forall|i: int| 0 <= i < s.len() - 1 implies !accepts(#[trigger] s[i]) by {
        if i < p.len() {
            assert(s[i] == p[i]);
        } else {
            assert(s[i] == q[i - p.len()]);
        }
    }
    if q.len() > 0 {
        assert(s.last() == q.last());
    } else {
        assert(s =~= p);
        if p.len() > 0 {
            assert(!accepts(p[p.len() - 1]));
        }
    }
}

proof fn lemma_route_stops(kind: RoutedEvent, n: WidgetModel, a: Seq<bool>)
    requires
        kind != RoutedEvent::MouseMove,
    ensures
        stops_at_last(route(kind, n, a).calls, route(kind, n, a).accepted),
    decreases n, n.children.len() + 1,
{
    let r = route(kind, n, a);
    if n.has(IS_ENABLED) {
        let hit = kind != RoutedEvent::Keyboard;
        let inside = if hit {
            answer_at(a, 0)
        } else {
            true
        };
        let h = if hit {
            seq![Call::Hit(n.id, inside)]
        } else {
            seq![]
        };
        let hu: int = if hit {
            1
        } else {
            0
        };
        assert(none_accepts(h)) by {
            assert forall|i: int| 0 <= i < h.len() implies !accepts(#[trigger] h[i]) by {
                assert(h[i] == Call::Hit(n.id, inside));
            }
        }
        if inside {
            let len = n.children.len() as int;
            lemma_route_kids_stops(kind, n, len, a.skip(hu));
            let k = route_kids(kind, n, len, a.skip(hu));
            if k.accepted {
                lemma_stops_concat(h, k.calls, true);
            } else {
                lemma_stops_none(k.calls);
                let own = r.calls.last();
                assert(r.calls == (h + k.calls).push(own));
                assert(accepts(own) == r.accepted);
                let s = r.calls;
                assert forall|i: int| 0 <= i < s.len() - 1 implies !accepts(#[trigger] s[i]) by {
                    assert(s[i] == (h + k.calls)[i]);
                    if i < h.len() {
                        assert((h + k.calls)[i] == h[i]);
                    } else {
                        assert((h + k.calls)[i] == k.calls[i - h.len()]);
                    }
                }
            }
        } else {
            assert(r.calls == h);
        }
    }
}

proof fn lemma_route_kids_stops(kind: RoutedEvent, n: WidgetModel, k: int, a: Seq<bool>)
    requires
        kind != RoutedEvent::MouseMove,
    ensures
        stops_at_last(route_kids(kind, n, k, a).calls, route_kids(kind, n, k, a).accepted),
    decreases n, k,
{
    if 0 < k <= n.children.len() {
        lemma_route_kids_stops(kind, n, k - 1, a);
        let p = route_kids(kind, n, k - 1, a);
        if !p.accepted {
            lemma_stops_none(p.calls);
            let r = route(kind, n.children[k - 1], a.skip(p.used as int));
            lemma_route_stops(kind, n.children[k - 1], a.skip(p.used as int));
            lemma_stops_concat(p.calls, r.calls, r.accepted);
        }
    }
}

/// A keyboard, wheel or button event routed through a subtree bubbles up
/// from the deepest widget under the pointer until one widget accepts it:
/// no widget offered the event before the last accepts it, and the event
/// is accepted exactly when the last widget offered it accepts it.
pub proof fn law_routing_stops_at_acceptance(kind: RoutedEvent, n: WidgetModel, ans: Seq<bool>)
    requires
        kind != RoutedEvent::MouseMove,
    ensures
        stops_at_last(route(kind, n, ans).calls, route(kind, n, ans).accepted),
{
    lemma_route_stops(kind, n, ans);
}

} // verus!
