//! Named render objects of a theme.
//!
//! A theme keeps, per kind of widget, a list of render objects registered
//! under unique names; the predefined button styles are registered under
//! the names of [ButtonDefined].

use vstd::prelude::*;
use std::rc::Rc;

verus! {

/// The predefined button styles.
#[derive(PartialEq, Eq, Structural, Copy, Clone, Debug)]
pub enum ButtonDefined {
    Normal,
    Accent,
}

/// The name under which a predefined button style is registered.
pub open spec fn button_defined_name(b: ButtonDefined) -> Seq<char> {
    match b {
        ButtonDefined::Normal => "normal"@,
        ButtonDefined::Accent => "accent"@,
    }
}

impl ButtonDefined {
    /// The name under which the style is registered.
    pub fn into_str(self) -> (s: &'static str)
        ensures
            s@ == button_defined_name(self),
    {
        match self {
            ButtonDefined::Normal => "normal",
            ButtonDefined::Accent => "accent",
        }
    }
}

/// Why a registration was refused.
#[derive(PartialEq, Eq, Copy, Clone, Debug)]
pub enum ThemeError {
    /// A render object with this name has already been registered.
    AlreadyRegistered(&'static str),
}

/// A registry entry as the contracts see it: the name's characters and the
/// render object.
pub type Entry<T> = (Seq<char>, Rc<T>);

/// Whether some entry has the name.
pub open spec fn registered<T>(v: Seq<Entry<T>>, name: Seq<char>) -> bool {
    exists|i: int| 0 <= i < v.len() && #[trigger] v[i].0 == name
}

/// No two entries share a name.
pub open spec fn unique_names<T>(v: Seq<Entry<T>>) -> bool {
    forall|i: int, j: int| 0 <= i < j < v.len() ==> #[trigger] v[i].0 != #[trigger] v[j].0
}

/// The render object of the first entry with the name.
pub open spec fn style_of<T>(v: Seq<Entry<T>>, name: Seq<char>) -> Option<Rc<T>>
    decreases v.len(),
{
    if v.len() == 0 {
        None
    } else {
        let p = style_of(v.drop_last(), name);
        if p is Some {
            p
        } else if v.last().0 == name {
            Some(v.last().1)
        } else {
            None
        }
    }
}

/// Registering the entries in order: each is added unless its name is
/// taken, and the first one whose name is taken stops the registration.
/// Returns the entries afterwards and the index of the refused one.
pub open spec fn register_seq<T>(v: Seq<Entry<T>>, items: Seq<Entry<T>>) -> (Seq<Entry<T>>, Option<int>)
    decreases items.len(),
{
    if items.len() == 0 {
        (v, None)
    } else {
        let p = register_seq(v, items.drop_last());
        if p.1 is Some {
            p
        } else if registered(p.0, items.last().0) {
            (p.0, Some(items.len() - 1))
        } else {
            (p.0.push(items.last()), None)
        }
    }
}

/// An entry is found exactly when some entry has the name.
pub proof fn lemma_style_of_registered<T>(v: Seq<Entry<T>>, name: Seq<char>)
    ensures
        style_of(v, name) is Some <==> registered(v, name),
        style_of(v, name) is Some ==> exists|i: int|
            0 <= i < v.len() && v[i].0 == name && style_of(v, name) == Some(#[trigger] v[i].1),
    decreases v.len(),
{
    if v.len() > 0 {
        let w = v.drop_last();
        lemma_style_of_registered(w, name);
        if registered(w, name) {
            let i = choose|i: int| 0 <= i < w.len() && #[trigger] w[i].0 == name;
            assert(v[i].0 == name);
        }
        if registered(v, name) && !registered(w, name) {
            let i = choose|i: int| 0 <= i < v.len() && #[trigger] v[i].0 == name;
            if i < w.len() {
                assert(w[i].0 == name);
            }
        }
        if style_of(w, name) is Some {
            let i = choose|i: int|
                0 <= i < w.len() && w[i].0 == name && style_of(w, name) == Some(#[trigger] w[i].1);
            assert(v[i] == w[i]);
        } else if v.last().0 == name {
            assert(v[v.len() - 1] == v.last());
        }
    }
}

/// With unique names, the entry with the name is the one found.
pub proof fn lemma_style_of_unique<T>(v: Seq<Entry<T>>, i: int)
    requires
        unique_names(v),
        0 <= i < v.len(),
    ensures
        style_of(v, v[i].0) == Some(v[i].1),
{
    lemma_style_of_registered(v, v[i].0);
    let j = choose|j: int|
        0 <= j < v.len() && v[j].0 == v[i].0 && style_of(v, v[i].0) == Some(#[trigger] v[j].1);
    if j != i {
        if j < i {
            assert(v[j].0 != v[i].0);
        } else {
            assert(v[i].0 != v[j].0);
        }
    }
}

/// `Rc::clone`: another pointer to the same allocation, hence the same
/// value.
#[verifier::external_body]
fn rc_clone<T>(r: &Rc<T>) -> (c: Rc<T>)
    ensures
        c == *r,
{
    Rc::clone(r)
}

/// Whether two names are the same text.
fn same_name(a: &str, b: &str) -> (r: bool)
    ensures
        r == (a@ == b@),
{
    let x = a.to_owned();
    let y = b.to_owned();
    x == y
}

/// Render objects of one kind, registered under unique names.
pub struct ThemeRenderObjects<T> {
    data: Vec<(&'static str, Rc<T>)>,
}

/// The entries of a list as the contracts see them.
pub open spec fn entries<T>(data: Seq<(&'static str, Rc<T>)>) -> Seq<Entry<T>> {
    data.map_values(|e: (&'static str, Rc<T>)| (e.0@, e.1))
}

impl<T> View for ThemeRenderObjects<T> {
    type V = Seq<Entry<T>>;

    closed spec fn view(&self) -> Seq<Entry<T>> {
        entries(self.data@)
    }
}

impl<T> ThemeRenderObjects<T> {
    #[verifier::type_invariant]
    spec fn names_unique(self) -> bool {
        unique_names(entries(self.data@))
    }

    /// An empty registry with room for `capacity` objects.
    pub fn new(capacity: usize) -> (r: Self)
        ensures
            r@ == Seq::<Entry<T>>::empty(),
    {
        let r = ThemeRenderObjects { data: Vec::with_capacity(capacity) };
        proof {
            assert(entries(r.data@) =~= Seq::<Entry<T>>::empty());
        }
        r
    }

    /// Index of the entry with the name, if any.
    fn position(&self, name: &str) -> (r: Option<usize>)
        ensures
            match r {
                Some(i) => i < self@.len() && self@[i as int].0 == name@,
                None => !registered(self@, name@),
            },
    {
        let mut i: usize = 0;
        while i < self.data.len()
            invariant
                i <= self.data@.len(),
                self@ == entries(self.data@),
                forall|j: int| 0 <= j < i ==> #[trigger] self@[j].0 != name@,
            decreases self.data@.len() - i,
        {
            if same_name(self.data[i].0, name) {
                return Some(i);
            }
            i = i + 1;
        }
        None
    }

    /// Registers `style` under `name`; refused when the name is taken.
    pub fn register(&mut self, name: &'static str, style: Rc<T>) -> (r: Result<(), ThemeError>)
        ensures
            registered(old(self)@, name@) ==> r == Err::<(), ThemeError>(
                ThemeError::AlreadyRegistered(name),
            ) && final(self)@ == old(self)@,
            !registered(old(self)@, name@) ==> r == Ok::<(), ThemeError>(()) && final(self)@
                == old(self)@.push((name@, style)),
    {
        proof {
            use_type_invariant(&*self);
        }
        if self.position(name).is_some() {
            return Err(ThemeError::AlreadyRegistered(name));
        }
        let ghost before = self.data@;
        proof {
            let v = entries(before).push((name@, style));
            assert(entries(before.push((name, style))) =~= v);
            assert forall|i: int, j: int| 0 <= i < j < v.len() implies #[trigger] v[i].0
                != #[trigger] v[j].0 by {
                if j == v.len() - 1 {
                    assert(entries(before)[i].0 != name@);
                }
            }
        }
        let mut data: Vec<(&'static str, Rc<T>)> = Vec::new();
        std::mem::swap(&mut data, &mut self.data);
        data.push((name, style));
        self.data = data;
        Ok(())
    }

    /// Registers the objects in order; the first name that is taken stops
    /// the registration with its error, the objects before it stay
    /// registered.
    pub fn register_multi(&mut self, items: Vec<(&'static str, Rc<T>)>) -> (r: Result<(), ThemeError>)
        ensures
            ({
                let p = register_seq(old(self)@, entries(items@));
                &&& final(self)@ == p.0
                &&& r == match p.1 {
                    None => Ok::<(), ThemeError>(()),
                    Some(k) => Err(ThemeError::AlreadyRegistered(items@[k].0)),
                }
            }),
    {
        let mut i: usize = 0;
        while i < items.len()
            invariant
                i <= items@.len(),
                ({
                    let p = register_seq(old(self)@, entries(items@.take(i as int)));
                    p.1 is None && self@ == p.0
                }),
            decreases items@.len() - i,
        {
            let ghost pre = self@;
            proof {
                assert(entries(items@.take(i + 1)).drop_last() =~= entries(items@.take(i as int)));
                assert(entries(items@.take(i + 1)).last() == (items@[i as int].0@, items@[i as int].1));
            }
            let name = items[i].0;
            let style = rc_clone(&items[i].1);
            match self.register(name, style) {
                Ok(()) => {},
                Err(e) => {
                    proof {
                        let full = entries(items@);
                        assert(full.take(i + 1) =~= entries(items@.take(i + 1)));
                        lemma_register_seq_stopped(old(self)@, full, i as int + 1);
                    }
                    return Err(e);
                },
            }
            i = i + 1;
        }
        proof {
            assert(items@.take(i as int) =~= items@);
        }
        Ok(())
    }

    /// The render object registered under `name`, if any.
    pub fn get(&self, name: &'static str) -> (r: Option<Rc<T>>)
        ensures
            r == style_of(self@, name@),
    {
        proof {
            use_type_invariant(self);
        }
        match self.position(name) {
            Some(i) => {
                proof {
                    lemma_style_of_unique(self@, i as int);
                }
                Some(rc_clone(&self.data[i].1))
            },
            None => {
                proof {
                    lemma_style_of_registered(self@, name@);
                }
                None
            },
        }
    }
}

/// Once the registration of a prefix stopped, a longer prefix stops at the
/// same entry with the same result.
proof fn lemma_register_seq_stopped<T>(v: Seq<Entry<T>>, items: Seq<Entry<T>>, k: int)
    requires
        0 < k <= items.len(),
        register_seq(v, items.take(k)).1 is Some,
    ensures
        register_seq(v, items) == register_seq(v, items.take(k)),
    decreases items.len() - k,
{
    if k < items.len() {
        assert(items.take(k + 1).drop_last() =~= items.take(k));
        lemma_register_seq_stopped(v, items, k + 1);
    } else {
        assert(items.take(k) =~= items);
    }
}

/// Registering an object under a free name keeps the names unique and makes
/// the object the one found under that name.
pub proof fn law_get_after_register<T>(v: Seq<Entry<T>>, name: Seq<char>, style: Rc<T>)
    requires
        unique_names(v),
        !registered(v, name),
    ensures
        unique_names(v.push((name, style))),
        style_of(v.push((name, style)), name) == Some(style),
{
    let w = v.push((name, style));
    assert forall|i: int, j: int| 0 <= i < j < w.len() implies #[trigger] w[i].0
        != #[trigger] w[j].0 by {
        if j == w.len() - 1 {
            assert(v[i].0 != name);
        }
    }
    lemma_style_of_unique(w, v.len() as int);
}

/// A name that is registered stays registered, with the same object, when
/// other objects are registered.
pub proof fn law_registration_is_stable<T>(v: Seq<Entry<T>>, name: Seq<char>, other: Seq<char>, style: Rc<T>)
    requires
        registered(v, name),
    ensures
        style_of(v.push((other, style)), name) == style_of(v, name),
{
    lemma_style_of_registered(v, name);
    assert(v.push((other, style)).drop_last() =~= v);
}

} // verus!
