//! The common state of every widget and the widget tree built from it.
//!
//! A widget owns its children, so a widget is the root of its own tree.
//! Flags that a widget raises for itself (draw, update, delete) are passed
//! on to its parent as "some children need it" flags; the tree-level
//! operations here do that by widget id.

use vstd::prelude::*;
use std::time::Duration;
use crate::ids::WidgetId;
use crate::state_flags::{
    StateFlags, is_flag, lemma_with, INIT_FLAGS, SELF_DRAW, SELF_UPDATE, SELF_DELETE, CHILDREN_DRAW,
    CHILDREN_UPDATE, CHILDREN_DELETE, IS_VISIBLE, IS_ENABLED,
    IS_TRANSPARENT, IS_OVER, HAS_MOUSE_TRACKING,
};

verus! {

/// What `Duration::from_secs` gives for a number of seconds.
pub uninterp spec fn duration_of_secs(secs: u64) -> Duration;

/// What `Duration::from_millis` gives for a number of milliseconds.
pub uninterp spec fn duration_of_millis(millis: u64) -> Duration;

/// Calls `std::time::Duration::from_secs`; its result is a function of the
/// number of seconds alone, named `duration_of_secs`.
#[verifier::external_body]
fn duration_from_secs(secs: u64) -> (d: Duration)
    ensures
        d == duration_of_secs(secs),
{
    Duration::from_secs(secs)
}

/// Calls `std::time::Duration::from_millis`; its result is a function of the
/// number of milliseconds alone, named `duration_of_millis`.
#[verifier::external_body]
fn duration_from_millis(millis: u64) -> (d: Duration)
    ensures
        d == duration_of_millis(millis),
{
    Duration::from_millis(millis)
}

/// Default waiting time for double click detection: 200 milliseconds.
pub open spec fn default_double_click_time() -> Duration {
    duration_of_millis(200)
}

/// Default waiting time for tooltip showing: 2 seconds.
pub open spec fn default_tool_tip_time() -> Duration {
    duration_of_secs(2)
}

/// Default waiting time for double click detection.
pub fn default_double_click_duration() -> (d: Duration)
    ensures
        d == default_double_click_time(),
{
    duration_from_millis(200)
}

/// Default waiting time for tooltip showing.
pub fn default_tool_tip_duration() -> (d: Duration)
    ensures
        d == default_tool_tip_time(),
{
    duration_from_secs(2)
}

/// Settings shared by all widgets of one dispatcher.
#[derive(Copy, Clone)]
pub struct Runtime {
    pub tool_type_time: Duration,
    pub double_click_time: Duration,
}

impl Runtime {
    /// Tooltip time of 2 seconds and double click time of 200 milliseconds.
    pub fn new() -> (r: Runtime)
        ensures
            r.tool_type_time == default_tool_tip_time(),
            r.double_click_time == default_double_click_time(),
    {
        Runtime {
            tool_type_time: default_tool_tip_duration(),
            double_click_time: default_double_click_duration(),
        }
    }

    pub fn set_tool_type_time(&mut self, duration: Duration)
        ensures
            *final(self) == (Runtime { tool_type_time: duration, ..*old(self) }),
    {
        self.tool_type_time = duration;
    }

    pub fn tool_type_time(&self) -> (d: Duration)
        ensures
            d == self.tool_type_time,
    {
        self.tool_type_time
    }

    pub fn set_double_click_time(&mut self, duration: Duration)
        ensures
            *final(self) == (Runtime { double_click_time: duration, ..*old(self) }),
    {
        self.double_click_time = duration;
    }

    pub fn double_click_time(&self) -> (d: Duration)
        ensures
            d == self.double_click_time,
    {
        self.double_click_time
    }
}

/// The mathematical picture of a widget and its subtree.
#[verifier::ext_equal]
pub struct WidgetModel {
    pub id: WidgetId,
    pub tool_type_time: Option<Duration>,
    pub double_click_time: Option<Duration>,
    pub runtime: Option<Runtime>,
    pub flags: StateFlags,
    pub mouse_btn_num: i8,
    pub children: Seq<WidgetModel>,
}

impl WidgetModel {
    pub open spec fn has(self, f: u16) -> bool {
        self.flags.has(f)
    }

    pub open spec fn with_flag(self, f: u16, value: bool) -> WidgetModel {
        WidgetModel { flags: self.flags.with(f, value), ..self }
    }

    pub open spec fn with_children(self, children: Seq<WidgetModel>) -> WidgetModel {
        WidgetModel { children, ..self }
    }
}

/// Common data of all widgets.
pub struct WidgetBase {
    pub id: WidgetId,
    pub tool_type_time: Option<Duration>,
    pub double_click_time: Option<Duration>,
    pub runtime: Option<Runtime>,
    pub state_flags: StateFlags,
    pub number_mouse_buttons_pressed: i8,
    pub children: Vec<WidgetBase>,
}

/// The model of a widget and its subtree.
pub open spec fn model(n: WidgetBase) -> WidgetModel
    decreases n, n.children@.len() + 1,
{
    WidgetModel {
        id: n.id,
        tool_type_time: n.tool_type_time,
        double_click_time: n.double_click_time,
        runtime: n.runtime,
        flags: n.state_flags,
        mouse_btn_num: n.number_mouse_buttons_pressed,
        children: model_children(n, n.children@.len() as int),
    }
}

/// The models of the first `k` children of `n`.
pub open spec fn model_children(n: WidgetBase, k: int) -> Seq<WidgetModel>
    decreases n, k,
{
    if k <= 0 || k > n.children@.len() {
        seq![]
    } else {
        proof {
            assert(decreases_to!(n => n.children));
        }
        model_children(n, k - 1).push(model(n.children@[k - 1]))
    }
}

pub proof fn lemma_model_children(n: WidgetBase, k: int)
    requires
        0 <= k <= n.children@.len(),
    ensures
        model_children(n, k).len() == k,
        forall|j: int| 0 <= j < k ==> #[trigger] model_children(n, k)[j] == model(n.children@[j]),
    decreases k,
{
    if k > 0 {
        lemma_model_children(n, k - 1);
    }
}

/// The model's children are the models of the children.
pub proof fn lemma_model(n: WidgetBase)
    ensures
        model(n).children.len() == n.children@.len(),
        forall|j: int|
            0 <= j < n.children@.len() ==> #[trigger] model(n).children[j] == model(
                n.children@[j],
            ),
{
    lemma_model_children(n, n.children@.len() as int);
}

impl View for WidgetBase {
    type V = WidgetModel;

    open spec fn view(&self) -> WidgetModel {
        model(*self)
    }
}

impl WidgetBase {
    /// A new widget with no children: it wants to be drawn and updated,
    /// it is visible and enabled, and no mouse button is pressed on it.
    pub fn new(id: WidgetId) -> (w: WidgetBase)
        ensures
            w.id == id,
            w.tool_type_time.is_none(),
            w.double_click_time.is_none(),
            w.runtime.is_none(),
            w.state_flags.bits == INIT_FLAGS,
            w.number_mouse_buttons_pressed == 0,
            w.children@.len() == 0,
    {
        WidgetBase {
            id,
            tool_type_time: None,
            double_click_time: None,
            runtime: None,
            state_flags: StateFlags::init(),
            number_mouse_buttons_pressed: 0,
            children: Vec::new(),
        }
    }

    /// Unique id of the widget.
    pub fn id(&self) -> (i: WidgetId)
        ensures
            i == self.id,
    {
        self.id
    }

    /// Check if widget is visible.
    pub fn is_visible(&self) -> (b: bool)
        ensures
            b == self.state_flags.has(IS_VISIBLE),
    {
        self.state_flags.contains(IS_VISIBLE)
    }

    /// Sets flag `f` to `state`; returns `true` if that changed it.
    fn switch(&mut self, f: u16, state: bool) -> (changed: bool)
        requires
            is_flag(f),
        ensures
            changed == (old(self).state_flags.has(f) != state),
            *final(self) == if changed {
                WidgetBase { state_flags: old(self).state_flags.with(f, state), ..*old(self) }
            } else {
                *old(self)
            },
    {
        let curr = self.state_flags.contains(f);
        if curr != state {
            self.state_flags.set(f, state);
            true
        } else {
            false
        }
    }

    /// Set widget visible state.
    ///
    /// Returns `true` if the value was changed, otherwise `false`.
    pub fn set_visible(&mut self, state: bool) -> (changed: bool)
        ensures
            changed == (old(self).state_flags.has(IS_VISIBLE) != state),
            *final(self) == if changed {
                WidgetBase { state_flags: old(self).state_flags.with(IS_VISIBLE, state), ..*old(self) }
            } else {
                *old(self)
            },
    {
        self.switch(IS_VISIBLE, state)
    }

    /// Check if widget is enabled.
    ///
    /// A disabled widget does not receive mouse and keyboard inputs.
    pub fn is_enabled(&self) -> (b: bool)
        ensures
            b == self.state_flags.has(IS_ENABLED),
    {
        self.state_flags.contains(IS_ENABLED)
    }

    /// Set widget enabled state.
    ///
    /// Returns `true` if the value was changed, otherwise `false`.
    pub fn set_enabled(&mut self, state: bool) -> (changed: bool)
        ensures
            changed == (old(self).state_flags.has(IS_ENABLED) != state),
            *final(self) == if changed {
                WidgetBase { state_flags: old(self).state_flags.with(IS_ENABLED, state), ..*old(self) }
            } else {
                *old(self)
            },
    {
        self.switch(IS_ENABLED, state)
    }

    /// Check if widget has transparent pixels.
    pub fn is_transparent(&self) -> (b: bool)
        ensures
            b == self.state_flags.has(IS_TRANSPARENT),
    {
        self.state_flags.contains(IS_TRANSPARENT)
    }

    /// Set if widget has transparent pixels.
    pub fn set_transparent(&mut self, state: bool)
        ensures
            *final(self) == (WidgetBase {
                state_flags: old(self).state_flags.with(IS_TRANSPARENT, state),
                ..*old(self)
            }),
    {
        self.state_flags.set(IS_TRANSPARENT, state);
    }

    /// Check if mouse is over the widget's rectangle geometry.
    pub fn is_over(&self) -> (b: bool)
        ensures
            b == self.state_flags.has(IS_OVER),
    {
        self.state_flags.contains(IS_OVER)
    }

    /// Set if mouse is over the widget's rectangle geometry.
    pub fn set_over(&mut self, state: bool)
        ensures
            *final(self) == (WidgetBase {
                state_flags: old(self).state_flags.with(IS_OVER, state),
                ..*old(self)
            }),
    {
        self.state_flags.set(IS_OVER, state);
    }

    /// Check if the widget wants mouse tracking.
    pub fn has_mouse_tracking(&self) -> (b: bool)
        ensures
            b == self.state_flags.has(HAS_MOUSE_TRACKING),
    {
        self.state_flags.contains(HAS_MOUSE_TRACKING)
    }

    /// Set if the widget wants mouse tracking.
    ///
    /// Without mouse tracking (the default) the widget only receives mouse
    /// move events while at least one mouse button is pressed; with it, the
    /// widget receives them even if no button is pressed.
    pub fn set_mouse_tracking(&mut self, state: bool)
        ensures
            *final(self) == (WidgetBase {
                state_flags: old(self).state_flags.with(HAS_MOUSE_TRACKING, state),
                ..*old(self)
            }),
    {
        self.state_flags.set(HAS_MOUSE_TRACKING, state);
    }

    /// Number of mouse buttons pressed on this widget.
    pub fn mouse_btn_num(&self) -> (n: i8)
        ensures
            n == self.number_mouse_buttons_pressed,
    {
        self.number_mouse_buttons_pressed
    }

    /// Adds `num` to the pressed-buttons count; the count does not go
    /// below zero.
    pub fn add_mouse_btn_num(&mut self, num: i8)
        requires
            i8::MIN <= old(self).number_mouse_buttons_pressed + num <= i8::MAX,
        ensures
            *final(self) == (WidgetBase {
                number_mouse_buttons_pressed: clamp_btn(
                    old(self).number_mouse_buttons_pressed + num,
                ),
                ..*old(self)
            }),
    {
        let res = self.number_mouse_buttons_pressed + num;
        self.number_mouse_buttons_pressed = if res > 0 {
            res
        } else {
            0
        };
    }

    /// The children of the widget.
    pub fn children(&self) -> (c: &Vec<WidgetBase>)
        ensures
            c == &self.children,
    {
        &self.children
    }

    /// Set waiting time for tooltip showing; `None` means the default.
    pub fn set_tool_type_time(&mut self, duration: Option<Duration>)
        ensures
            *final(self) == (WidgetBase { tool_type_time: duration, ..*old(self) }),
    {
        self.tool_type_time = duration;
    }

    /// Waiting time for tooltip showing: the widget's own setting, else
    /// that of its runtime, else the default.
    pub fn tool_type_time(&self) -> (d: Duration)
        ensures
            d == match self.tool_type_time {
                Some(v) => v,
                None => match self.runtime {
                    Some(r) => r.tool_type_time,
                    None => default_tool_tip_time(),
                },
            },
    {
        if let Some(v) = self.tool_type_time {
            v
        } else if let Some(r) = &self.runtime {
            r.tool_type_time()
        } else {
            default_tool_tip_duration()
        }
    }

    /// Set waiting time for double click detection; `None` means the default.
    pub fn set_double_click_time(&mut self, duration: Option<Duration>)
        ensures
            *final(self) == (WidgetBase { double_click_time: duration, ..*old(self) }),
    {
        self.double_click_time = duration;
    }

    /// Waiting time for double click detection: the widget's own setting,
    /// else that of its runtime, else the default.
    pub fn double_click_time(&self) -> (d: Duration)
        ensures
            d == match self.double_click_time {
                Some(v) => v,
                None => match self.runtime {
                    Some(r) => r.double_click_time,
                    None => default_double_click_time(),
                },
            },
    {
        if let Some(v) = self.double_click_time {
            v
        } else if let Some(r) = &self.runtime {
            r.double_click_time()
        } else {
            default_double_click_duration()
        }
    }

    /// The data the dispatcher reads of a widget: flags, id, pressed buttons
    /// and whether it tracks the mouse.
    pub fn data_for_dispatcher(&self) -> (r: (StateFlags, WidgetId, i8, bool))
        ensures
            r == (self.state_flags, self.id, self.number_mouse_buttons_pressed,
            self.state_flags.has(HAS_MOUSE_TRACKING)),
    {
        (self.state_flags, self.id, self.number_mouse_buttons_pressed, self.has_mouse_tracking())
    }

    /// Adds `child` as the last child of the widget.
    pub fn add_child(&mut self, child: WidgetBase)
        ensures
            final(self).children@ == old(self).children@.push(child),
            *final(self) == (WidgetBase { children: final(self).children, ..*old(self) }),
    {
        self.children.push(child);
    }
}

/// Adds the children, in order, as the last children of `parent`.
pub fn add_children(parent: &mut WidgetBase, children: Vec<WidgetBase>)
    ensures
        final(parent).children@ == old(parent).children@ + children@,
        *final(parent) == (WidgetBase { children: final(parent).children, ..*old(parent) }),
{
    let ghost all = children@;
    for c in it: children.into_iter()
        invariant
            all == it.seq(),
            parent.children@ == old(parent).children@ + all.take(it.index() as int),
            *parent == (WidgetBase { children: parent.children, ..*old(parent) }),
    {
        proof {
            assert(all.take(it.index() + 1) =~= all.take(it.index() as int).push(c));
        }
        parent.add_child(c);
    }
    proof {
        assert(all.take(all.len() as int) =~= all);
    }
}

/// The first widget with the given id in a subtree, parents before
/// children and earlier children before later ones.
pub open spec fn find(n: WidgetModel, id: WidgetId) -> Option<WidgetModel>
    decreases n, n.children.len() + 1,
{
    if n.id == id {
        Some(n)
    } else {
        find_kids(n, n.children.len() as int, id)
    }
}

/// The first widget with the given id among the subtrees of the first `k`
/// children.
pub open spec fn find_kids(n: WidgetModel, k: int, id: WidgetId) -> Option<WidgetModel>
    decreases n, k,
{
    if k <= 0 || k > n.children.len() {
        None
    } else {
        let p = find_kids(n, k - 1, id);
        if p is Some {
            p
        } else {
            find(n.children[k - 1], id)
        }
    }
}

/// An edit of one widget's own state.
#[derive(PartialEq, Eq, Structural, Copy, Clone, Debug)]
pub enum NodeEdit {
    /// Set (`true`) or clear a flag.
    SetFlag(u16, bool),
    /// Add to the pressed-buttons count, which does not go below zero.
    AddMouseBtn(i8),
}

pub open spec fn apply_edit(m: WidgetModel, e: NodeEdit) -> WidgetModel {
    match e {
        NodeEdit::SetFlag(f, v) => m.with_flag(f, v),
        NodeEdit::AddMouseBtn(x) => WidgetModel { mouse_btn_num: clamp_btn(m.mouse_btn_num + x), ..m },
    }
}

/// Whether the edit can be applied to the widget without overflow.
pub open spec fn edit_fits(m: WidgetModel, e: NodeEdit) -> bool {
    match e {
        NodeEdit::SetFlag(_, _) => true,
        NodeEdit::AddMouseBtn(x) => i8::MIN <= m.mouse_btn_num + x <= i8::MAX,
    }
}

/// The subtree with the edit applied to the first widget with the id.
pub open spec fn edit_at(n: WidgetModel, id: WidgetId, e: NodeEdit) -> WidgetModel
    decreases n, n.children.len() + 1,
{
    if n.id == id {
        apply_edit(n, e)
    } else {
        n.with_children(edit_kids(n, n.children.len() as int, id, e))
    }
}

pub open spec fn edit_kids(n: WidgetModel, k: int, id: WidgetId, e: NodeEdit) -> Seq<WidgetModel>
    decreases n, k,
{
    if k <= 0 || k > n.children.len() {
        seq![]
    } else {
        let p = edit_kids(n, k - 1, id, e);
        if find_kids(n, k - 1, id) is Some {
            p.push(n.children[k - 1])
        } else {
            p.push(edit_at(n.children[k - 1], id, e))
        }
    }
}

/// The subtree after the first widget with the id raised its self flag
/// `sf`: every widget on the path from the root of the subtree down to it
/// raises the children flag `cf`.
pub open spec fn request_at(n: WidgetModel, id: WidgetId, sf: u16, cf: u16) -> WidgetModel
    decreases n, n.children.len() + 1,
{
    if n.id == id {
        n.with_flag(sf, true)
    } else {
        let n2 = n.with_children(request_kids(n, n.children.len() as int, id, sf, cf));
        if find_kids(n, n.children.len() as int, id) is Some {
            n2.with_flag(cf, true)
        } else {
            n2
        }
    }
}

pub open spec fn request_kids(n: WidgetModel, k: int, id: WidgetId, sf: u16, cf: u16) -> Seq<
    WidgetModel,
>
    decreases n, k,
{
    if k <= 0 || k > n.children.len() {
        seq![]
    } else {
        let p = request_kids(n, k - 1, id, sf, cf);
        if find_kids(n, k - 1, id) is Some {
            p.push(n.children[k - 1])
        } else {
            p.push(request_at(n.children[k - 1], id, sf, cf))
        }
    }
}

/// The `j`-th child after an edit: unchanged when the id was already found
/// among the earlier children, else edited.
pub open spec fn edit_kid(n: WidgetModel, j: int, id: WidgetId, e: NodeEdit) -> WidgetModel {
    if find_kids(n, j, id) is Some {
        n.children[j]
    } else {
        edit_at(n.children[j], id, e)
    }
}

pub(crate) proof fn lemma_edit_kids(n: WidgetModel, k: int, id: WidgetId, e: NodeEdit)
    requires
        0 <= k <= n.children.len(),
    ensures
        edit_kids(n, k, id, e).len() == k,
        forall|j: int| 0 <= j < k ==> #[trigger] edit_kids(n, k, id, e)[j] == edit_kid(n, j, id, e),
    decreases k,
{
    if k > 0 {
        lemma_edit_kids(n, k - 1, id, e);
    }
}

/// The `j`-th child after a request: unchanged when the id was already
/// found among the earlier children, else requested.
pub open spec fn request_kid(n: WidgetModel, j: int, id: WidgetId, sf: u16, cf: u16) -> WidgetModel {
    if find_kids(n, j, id) is Some {
        n.children[j]
    } else {
        request_at(n.children[j], id, sf, cf)
    }
}

pub(crate) proof fn lemma_request_kids(n: WidgetModel, k: int, id: WidgetId, sf: u16, cf: u16)
    requires
        0 <= k <= n.children.len(),
    ensures
        request_kids(n, k, id, sf, cf).len() == k,
        forall|j: int|
            0 <= j < k ==> #[trigger] request_kids(n, k, id, sf, cf)[j] == request_kid(
                n,
                j,
                id,
                sf,
                cf,
            ),
    decreases k,
{
    if k > 0 {
        lemma_request_kids(n, k - 1, id, sf, cf);
    }
}

/// Once the id is found among the first `k` children, later children do
/// not change the result of the search.
pub(crate) proof fn lemma_find_kids_found(n: WidgetModel, k: int, m: int, id: WidgetId)
    requires
        0 <= k <= m <= n.children.len(),
        find_kids(n, k, id) is Some,
    ensures
        find_kids(n, m, id) == find_kids(n, k, id),
    decreases m,
{
    if m > k {
        lemma_find_kids_found(n, k, m - 1, id);
    }
}

impl WidgetBase {
    /// Whether the subtree holds a widget with the id, and that widget's
    /// flags and pressed-buttons count.
    pub fn lookup(&self, id: WidgetId) -> (r: Option<(StateFlags, i8)>)
        ensures
            r == match find(self@, id) {
                Some(m) => Some((m.flags, m.mouse_btn_num)),
                None => None,
            },
        decreases self,
    {
        proof {
            lemma_model(*self);
        }
        if self.id == id {
            return Some((self.state_flags, self.number_mouse_buttons_pressed));
        }
        let len = self.children.len();
        let mut i: usize = 0;
        let mut res: Option<(StateFlags, i8)> = None;
        while i < len && res.is_none()
            invariant
                len == self.children@.len(),
                i <= len,
                self@.children.len() == len,
                forall|j: int|
                    0 <= j < len ==> #[trigger] self@.children[j] == model(self.children@[j]),
                res == match find_kids(self@, i as int, id) {
                    Some(m) => Some((m.flags, m.mouse_btn_num)),
                    None => None,
                },
            decreases len - i,
        {
            proof {
                assert(decreases_to!(self => self.children));
            }
            res = self.children[i].lookup(id);
            i = i + 1;
        }
        proof {
            if find_kids(self@, i as int, id) is Some {
                lemma_find_kids_found(self@, i as int, len as int, id);
            }
        }
        res
    }

    fn apply_node_edit(&mut self, e: NodeEdit)
        requires
            edit_fits(old(self)@, e),
        ensures
            final(self)@ == apply_edit(old(self)@, e),
    {
        proof {
            lemma_model(*old(self));
        }
        match e {
            NodeEdit::SetFlag(f, v) => self.state_flags.set(f, v),
            NodeEdit::AddMouseBtn(x) => self.add_mouse_btn_num(x),
        }
        proof {
            lemma_model(*self);
            assert(self@.children =~= apply_edit(old(self)@, e).children);
            assert(self@ =~= apply_edit(old(self)@, e));
        }
    }

    /// Applies the edit to the first widget of the subtree with the id;
    /// returns whether there is one.
    pub fn edit_of(&mut self, id: WidgetId, e: NodeEdit) -> (found: bool)
        requires
            match find(old(self)@, id) {
                Some(m) => edit_fits(m, e),
                None => true,
            },
        ensures
            found == find(old(self)@, id) is Some,
            final(self)@ == edit_at(old(self)@, id, e),
        decreases *old(self),
    {
        proof {
            lemma_model(*old(self));
        }
        if self.id == id {
            self.apply_node_edit(e);
            return true;
        }
        let ghost pre = *self;
        let len = self.children.len();
        let mut i: usize = 0;
        let mut found = false;
        while i < len && !found
            invariant
                len == self.children@.len(),
                i <= len,
                pre == *old(self),
                len == pre.children@.len(),
                pre.id != id,
                *self == (WidgetBase { children: self.children, ..pre }),
                forall|j: int| i <= j < len ==> self.children@[j] == pre.children@[j],
                forall|j: int|
                    0 <= j < i ==> #[trigger] model(self.children@[j]) == edit_kid(
                        old(self)@,
                        j,
                        id,
                        e,
                    ),
                found == find_kids(old(self)@, i as int, id) is Some,
                old(self)@.children.len() == len,
                forall|j: int|
                    0 <= j < len ==> #[trigger] old(self)@.children[j] == model(
                        old(self).children@[j],
                    ),
                match find(old(self)@, id) {
                    Some(m) => edit_fits(m, e),
                    None => true,
                },
            decreases len - i,
        {
            proof {
                assert(decreases_to!(*old(self) => old(self).children));
                assert(self.children@[i as int] == old(self).children@[i as int]);
                assert(find(old(self)@, id) == find_kids(old(self)@, len as int, id));
                if find(old(self)@.children[i as int], id) is Some {
                    assert(find_kids(old(self)@, i + 1, id) == find(
                        old(self)@.children[i as int],
                        id,
                    ));
                    lemma_find_kids_found(old(self)@, i + 1, len as int, id);
                }
            }
            let ghost before = self.children@;
            found = self.children[i].edit_of(id, e);
            proof {
                assert forall|j: int| 0 <= j < i + 1 implies #[trigger] model(self.children@[j])
                    == edit_kid(old(self)@, j, id, e) by {
                    if j < i {
                        assert(self.children@[j] == before[j]);
                    }
                }
            }
            i = i + 1;
        }
        proof {
            lemma_model(*self);
            lemma_edit_kids(old(self)@, len as int, id, e);
            assert forall|j: int| i <= j < len implies #[trigger] model(self.children@[j])
                == edit_kid(old(self)@, j, id, e) by {
                lemma_find_kids_found(old(self)@, i as int, j, id);
            }
            if found {
                lemma_find_kids_found(old(self)@, i as int, len as int, id);
            }
            assert(self@.children =~= edit_at(old(self)@, id, e).children);
            assert(self@ =~= edit_at(old(self)@, id, e));
        }
        found
    }
}

impl WidgetBase {
    /// The first widget of the subtree with the id raises its self flag
    /// `sf`, and every widget on the path down to it raises `cf`; returns
    /// whether there is such a widget.
    fn request_of(&mut self, id: WidgetId, sf: u16, cf: u16) -> (found: bool)
        ensures
            found == find(old(self)@, id) is Some,
            final(self)@ == request_at(old(self)@, id, sf, cf),
        decreases *old(self),
    {
        proof {
            lemma_model(*old(self));
        }
        if self.id == id {
            self.state_flags.insert(sf);
            proof {
                lemma_model(*self);
                assert(self@.children =~= request_at(old(self)@, id, sf, cf).children);
                assert(self@ =~= request_at(old(self)@, id, sf, cf));
            }
            return true;
        }
        let ghost pre = *self;
        let len = self.children.len();
        let mut i: usize = 0;
        let mut found = false;
        while i < len && !found
            invariant
                len == self.children@.len(),
                i <= len,
                pre == *old(self),
                len == pre.children@.len(),
                pre.id != id,
                *self == (WidgetBase { children: self.children, ..pre }),
                forall|j: int| i <= j < len ==> self.children@[j] == pre.children@[j],
                forall|j: int|
                    0 <= j < i ==> #[trigger] model(self.children@[j]) == request_kid(
                        old(self)@,
                        j,
                        id,
                        sf,
                        cf,
                    ),
                found == find_kids(old(self)@, i as int, id) is Some,
                old(self)@.children.len() == len,
                forall|j: int|
                    0 <= j < len ==> #[trigger] old(self)@.children[j] == model(
                        old(self).children@[j],
                    ),
            decreases len - i,
        {
            proof {
                assert(decreases_to!(*old(self) => old(self).children));
                assert(self.children@[i as int] == old(self).children@[i as int]);
            }
            let ghost before = self.children@;
            found = self.children[i].request_of(id, sf, cf);
            proof {
                assert forall|j: int| 0 <= j < i + 1 implies #[trigger] model(self.children@[j])
                    == request_kid(old(self)@, j, id, sf, cf) by {
                    if j < i {
                        assert(self.children@[j] == before[j]);
                    }
                }
            }
            i = i + 1;
        }
        if found {
            self.state_flags.insert(cf);
        }
        proof {
            lemma_model(*self);
            lemma_request_kids(old(self)@, len as int, id, sf, cf);
            assert forall|j: int| i <= j < len implies #[trigger] model(self.children@[j])
                == request_kid(old(self)@, j, id, sf, cf) by {
                lemma_find_kids_found(old(self)@, i as int, j, id);
            }
            if found {
                lemma_find_kids_found(old(self)@, i as int, len as int, id);
            }
            assert(self@.children =~= request_at(old(self)@, id, sf, cf).children);
            assert(self@ =~= request_at(old(self)@, id, sf, cf));
        }
        found
    }

    /// Request redraw of the first widget of this subtree with the id: it
    /// raises its own draw flag, and every widget on the path from this one
    /// down to it learns that some children need to be drawn.  Returns
    /// whether there is such a widget.
    pub fn request_draw(&mut self, id: WidgetId) -> (found: bool)
        ensures
            found == find(old(self)@, id) is Some,
            final(self)@ == request_at(old(self)@, id, SELF_DRAW, CHILDREN_DRAW),
    {
        self.request_of(id, SELF_DRAW, CHILDREN_DRAW)
    }

    /// Request update of the first widget of this subtree with the id; see
    /// [Self::request_draw].
    pub fn request_update(&mut self, id: WidgetId) -> (found: bool)
        ensures
            found == find(old(self)@, id) is Some,
            final(self)@ == request_at(old(self)@, id, SELF_UPDATE, CHILDREN_UPDATE),
    {
        self.request_of(id, SELF_UPDATE, CHILDREN_UPDATE)
    }

    /// Request deletion of the first widget of this subtree with the id; see
    /// [Self::request_draw].  The widget is not removed at once: the next
    /// tick of the dispatcher destroys and removes it.
    pub fn request_delete(&mut self, id: WidgetId) -> (found: bool)
        ensures
            found == find(old(self)@, id) is Some,
            final(self)@ == request_at(old(self)@, id, SELF_DELETE, CHILDREN_DELETE),
    {
        self.request_of(id, SELF_DELETE, CHILDREN_DELETE)
    }
}

/// The pressed-buttons count after an addition: never below zero.
pub open spec fn clamp_btn(v: int) -> i8 {
    if v > 0 {
        v as i8
    } else {
        0
    }
}

} // verus!

verus! {

/// Editing the first widget with an id edits what a search for that id
/// finds, and a subtree without the id is left as it is.
pub proof fn law_find_after_edit(n: WidgetModel, id: WidgetId, e: NodeEdit)
    ensures
        find(edit_at(n, id, e), id) == match find(n, id) {
            Some(m) => Some(apply_edit(m, e)),
            None => None,
        },
        find(n, id) is None ==> edit_at(n, id, e) == n,
    decreases n, n.children.len() + 1,
{
    if n.id != id {
        let len = n.children.len() as int;
        lemma_edit_kids(n, len, id, e);
        lemma_find_after_edit_kids(n, len, id, e);
        if find(n, id) is None {
            assert(edit_kids(n, len, id, e) =~= n.children);
            assert(n.with_children(n.children) =~= n);
        }
    }
}

proof fn lemma_find_after_edit_kids(n: WidgetModel, k: int, id: WidgetId, e: NodeEdit)
    requires
        0 <= k <= n.children.len(),
    ensures
        ({
            let m = n.with_children(edit_kids(n, n.children.len() as int, id, e));
            find_kids(m, k, id) == match find_kids(n, k, id) {
                Some(x) => Some(apply_edit(x, e)),
                None => None,
            }
        }),
        find_kids(n, k, id) is None ==> forall|j: int|
            0 <= j < k ==> #[trigger] edit_kid(n, j, id, e) == n.children[j],
    decreases n, k,
{
    if k > 0 {
        lemma_find_after_edit_kids(n, k - 1, id, e);
        lemma_edit_kids(n, n.children.len() as int, id, e);
        law_find_after_edit(n.children[k - 1], id, e);
    }
}

/// Two edits of the same widget whose effects cancel on it leave the whole
/// subtree as it was.
pub proof fn law_edits_cancel(n: WidgetModel, id: WidgetId, e1: NodeEdit, e2: NodeEdit)
    requires
        match find(n, id) {
            Some(m) => apply_edit(apply_edit(m, e1), e2) == m,
            None => true,
        },
    ensures
        edit_at(edit_at(n, id, e1), id, e2) == n,
    decreases n, n.children.len() + 1,
{
    if n.id != id {
        let len = n.children.len() as int;
        let n1 = edit_at(n, id, e1);
        lemma_edit_kids(n, len, id, e1);
        lemma_edit_kids(n1, len, id, e2);
        lemma_find_after_edit_kids(n, len, id, e1);
        assert forall|j: int| 0 <= j < len implies #[trigger] edit_kid(n1, j, id, e2)
            == n.children[j] by {
            lemma_find_after_edit_kids(n, j, id, e1);
            if find_kids(n, j, id) is None {
                law_find_after_edit(n.children[j], id, e1);
                if find(n.children[j], id) is Some {
                    assert(find_kids(n, j + 1, id) == find(n.children[j], id));
                    lemma_find_kids_found(n, j + 1, len, id);
                }
                law_edits_cancel(n.children[j], id, e1, e2);
            }
        }
        assert(edit_kids(n1, len, id, e2) =~= n.children);
        assert(edit_at(n1, id, e2) =~= n);
    }
}

} // verus!

verus! {

/// Whether two search results agree on being found and, when found, on the
/// flag `g` and the pressed-buttons count.
pub open spec fn same_flag_found(a: Option<WidgetModel>, b: Option<WidgetModel>, g: u16) -> bool {
    match (a, b) {
        (Some(x), Some(y)) => x.has(g) == y.has(g) && x.mouse_btn_num == y.mouse_btn_num,
        (None, None) => true,
        _ => false,
    }
}

/// The search among the first children depends on the children alone.
pub(crate) proof fn lemma_find_kids_same_children(a: WidgetModel, b: WidgetModel, k: int, id: WidgetId)
    requires
        a.children == b.children,
    ensures
        find_kids(a, k, id) == find_kids(b, k, id),
    decreases k,
{
    if 0 < k <= a.children.len() {
        lemma_find_kids_same_children(a, b, k - 1, id);
    }
}

/// Setting or clearing one flag of one widget changes, for no id, whether a
/// widget is found, nor another flag or the pressed-buttons count of the
/// widget found.
pub proof fn law_find_after_flag_edit(
    n: WidgetModel,
    w: WidgetId,
    f: u16,
    v: bool,
    t: WidgetId,
    g: u16,
)
    requires
        is_flag(f),
        is_flag(g),
        f != g,
    ensures
        same_flag_found(find(edit_at(n, w, NodeEdit::SetFlag(f, v)), t), find(n, t), g),
    decreases n, n.children.len() + 1,
{
    let e = NodeEdit::SetFlag(f, v);
    let len = n.children.len() as int;
    lemma_with(n.flags, f, g, v);
    if n.id == w {
        lemma_find_kids_same_children(apply_edit(n, e), n, len, t);
    } else if n.id != t {
        lemma_edit_kids(n, len, w, e);
        lemma_find_flag_edit_kids(n, len, w, f, v, t, g);
    }
}

proof fn lemma_find_flag_edit_kids(
    n: WidgetModel,
    k: int,
    w: WidgetId,
    f: u16,
    v: bool,
    t: WidgetId,
    g: u16,
)
    requires
        0 <= k <= n.children.len(),
        is_flag(f),
        is_flag(g),
        f != g,
    ensures
        same_flag_found(
            find_kids(
                n.with_children(
                    edit_kids(n, n.children.len() as int, w, NodeEdit::SetFlag(f, v)),
                ),
                k,
                t,
            ),
            find_kids(n, k, t),
            g,
        ),
    decreases n, k,
{
    if k > 0 {
        let e = NodeEdit::SetFlag(f, v);
        lemma_find_flag_edit_kids(n, k - 1, w, f, v, t, g);
        lemma_edit_kids(n, n.children.len() as int, w, e);
        law_find_after_flag_edit(n.children[k - 1], w, f, v, t, g);
    }
}

} // verus!
