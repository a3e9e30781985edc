//! The data handed to a lit-html template: a table from property names to
//! values, from which the JavaScript object that the template reads is built.
//!
//! Assigning a name that the table already has replaces its value in place;
//! assigning a new name appends it.  The table's order is therefore the order
//! in which the names were first assigned.  (That is the table's own order: a
//! JavaScript object lists integer-like names first, and a plain assignment
//! to `__proto__` does not create a property.)

use vstd::prelude::*;

verus! {

/// A handle to an object kept on the JavaScript side (a rendered template, a
/// DOM element, an event target).
#[derive(Clone, Copy, Debug, PartialEq, Eq, Structural)]
pub struct JsObject {
    pub handle: u32,
}

/// A rendered template is a JavaScript object.
pub type Template = JsObject;

/// A handle to a Rust closure registered as a JavaScript callback.
#[derive(Clone, Copy, Debug, PartialEq, Eq, Structural)]
pub struct CallbackHandle {
    pub id: u32,
}

/// A value that a template property can hold.
#[derive(Clone, Debug, PartialEq, Eq)]
pub enum TemplateValue {
    /// A string.
    Text(String),
    /// A number given as `u32`.
    Unsigned(u32),
    /// A number given as `i32`.
    Signed(i32),
    /// A number given as the bit pattern of an IEEE-754 double.
    Number(u64),
    /// A boolean.
    Flag(bool),
    /// A nested template or other JavaScript object.
    Object(JsObject),
    /// An array of nested templates.
    Objects(Vec<JsObject>),
    /// A registered callback (a closure, or a key or mouse event handler).
    Callback(CallbackHandle),
}

impl TemplateValue {
    /// The string value `s`.
    pub fn text(s: &str) -> (v: TemplateValue)
        ensures
            v matches TemplateValue::Text(t) && t@ == s@,
    {
        TemplateValue::Text(String::from_str(s))
    }
}

/// One property: its name and its value.
pub type Entry = (Seq<char>, TemplateValue);

/// The names of the properties in `s` are pairwise distinct.
pub open spec fn distinct_names(s: Seq<Entry>) -> bool {
    forall|i: int, j: int| 0 <= i < s.len() && 0 <= j < s.len() && i != j ==> s[i].0 != s[j].0
}

/// `s` has a property called `name`.
pub open spec fn has_name(s: Seq<Entry>, name: Seq<char>) -> bool {
    exists|i: int| 0 <= i < s.len() && #[trigger] s[i].0 == name
}

/// The position of the property called `name` (meaningful when `has_name`).
pub open spec fn position_of(s: Seq<Entry>, name: Seq<char>) -> int {
    choose|i: int| 0 <= i < s.len() && #[trigger] s[i].0 == name
}

/// The value of the property called `name`, if there is one.
pub open spec fn lookup(s: Seq<Entry>, name: Seq<char>) -> Option<TemplateValue> {
    if has_name(s, name) {
        Some(s[position_of(s, name)].1)
    } else {
        None
    }
}

/// The table after assigning `v` to `name`: an existing entry keeps its place
/// and takes the new value; a new one goes last.
pub open spec fn assigned(s: Seq<Entry>, name: Seq<char>, v: TemplateValue) -> Seq<Entry> {
    if has_name(s, name) {
        s.update(position_of(s, name), (name, v))
    } else {
        s.push((name, v))
    }
}

/// The properties of a template: what `data` is in `html!(template, data)`.
pub struct TemplateData {
    entries: Vec<(String, TemplateValue)>,
}

/// The view of one stored property.
pub open spec fn entry_view(e: (String, TemplateValue)) -> Entry {
    (e.0@, e.1)
}

impl View for TemplateData {
    type V = Seq<Entry>;

    closed spec fn view(&self) -> Seq<Entry> {
        self.entries@.map_values(|e: (String, TemplateValue)| entry_view(e))
    }
}

impl TemplateData {
    #[verifier::type_invariant]
    spec fn well_formed(self) -> bool {
        distinct_names(self@)
    }

    /// An object with no properties.
    pub fn new() -> (d: TemplateData)
        ensures
            d@ == Seq::<Entry>::empty(),
            distinct_names(d@),
    {
        let d = TemplateData { entries: Vec::new() };
        assert(d@ =~= Seq::<Entry>::empty());
        d
    }

    /// The position of the property called `name`, if there is one.
    fn find(&self, name: &String) -> (r: Option<usize>)
        ensures
            match r {
                Some(i) => i < self@.len() && self@[i as int].0 == name@,
                None => !has_name(self@, name@),
            },
    {
        let n: usize = self.entries.len();
        for i in 0..n
            invariant
                n == self.entries@.len(),
                self@ == self.entries@.map_values(|e: (String, TemplateValue)| entry_view(e)),
                forall|j: int| 0 <= j < i ==> self@[j].0 != name@,
        {
            assert(self@[i as int] == entry_view(self.entries@[i as int]));
            if self.entries[i].0 == *name {
                return Some(i);
            }
        }
        None
    }

    /// Assigns `value` to the property `name`: the value that `obj[name]` will
    /// hold in the object built from the table.
    pub fn set(&mut self, name: &str, value: TemplateValue)
        ensures
            final(self)@ == assigned(old(self)@, name@, value),
            distinct_names(old(self)@),
            distinct_names(final(self)@),
    {
        proof {
            use_type_invariant(&*self);
        }
        let key = String::from_str(name);
        let ghost before = self@;
        let found = self.find(&key);
        let mut entries: Vec<(String, TemplateValue)> = Vec::new();
        std::mem::swap(&mut entries, &mut self.entries);
        assert(entries@.map_values(|e: (String, TemplateValue)| entry_view(e)) == before);
        match found {
            Some(i) => {
                proof {
                    lemma_position_unique(before, name@, i as int);
                }
                entries.set(i, (key, value));
                assert(entries@.map_values(|e: (String, TemplateValue)| entry_view(e))
                    =~= before.update(i as int, (name@, value)));
            },
            None => {
                entries.push((key, value));
                assert(entries@.map_values(|e: (String, TemplateValue)| entry_view(e))
                    =~= before.push((name@, value)));
            },
        }
        proof {
            lemma_assigned_keeps_names_distinct(before, name@, value);
        }
        self.entries = entries;
    }

    /// The value of the property `name`, if it has been assigned.
    pub fn get(&self, name: &str) -> (r: Option<&TemplateValue>)
        ensures
            match r {
                Some(v) => lookup(self@, name@) == Some(*v),
                None => lookup(self@, name@) is None,
            },
            distinct_names(self@),
    {
        proof {
            use_type_invariant(self);
        }
        let key = String::from_str(name);
        match self.find(&key) {
            Some(i) => {
                proof {
                    lemma_position_unique(self@, name@, i as int);
                }
                Some(&self.entries[i].1)
            },
            None => None,
        }
    }

    /// The number of properties.
    pub fn len(&self) -> (n: usize)
        ensures
            n == self@.len(),
            distinct_names(self@),
    {
        proof {
            use_type_invariant(self);
        }
        self.entries.len()
    }

    /// The properties in the table's order: the order in which their names
    /// were first assigned.
    pub fn entries(&self) -> (r: &Vec<(String, TemplateValue)>)
        ensures
            r@.map_values(|e: (String, TemplateValue)| entry_view(e)) == self@,
            distinct_names(self@),
    {
        proof {
            use_type_invariant(self);
        }
        &self.entries
    }
}

/// In a list with distinct names, the property called `name` sits at the one
/// position that carries that name.
pub proof fn lemma_position_unique(s: Seq<Entry>, name: Seq<char>, i: int)
    requires
        distinct_names(s),
        0 <= i < s.len(),
        s[i].0 == name,
    ensures
        has_name(s, name),
        position_of(s, name) == i,
{
    assert(has_name(s, name));
    let p: int = position_of(s, name);
    assert(s[p].0 == name);
}

/// Assigning a property keeps the names distinct.
pub proof fn lemma_assigned_keeps_names_distinct(s: Seq<Entry>, name: Seq<char>, v: TemplateValue)
    requires
        distinct_names(s),
    ensures
        distinct_names(assigned(s, name, v)),
{
    if has_name(s, name) {
        let p: int = position_of(s, name);
        assert(s[p].0 == name);
    }
}

/// Reading a property gives back the value last assigned to it.
pub proof fn law_read_after_write(s: Seq<Entry>, name: Seq<char>, v: TemplateValue)
    requires
        distinct_names(s),
    ensures
        lookup(assigned(s, name, v), name) == Some(v),
{
    let t = assigned(s, name, v);
    lemma_assigned_keeps_names_distinct(s, name, v);
    if has_name(s, name) {
        let p: int = position_of(s, name);
        assert(t[p].0 == name);
        lemma_position_unique(t, name, p);
    } else {
        assert(t[s.len() as int].0 == name);
        lemma_position_unique(t, name, s.len() as int);
    }
}

/// Assigning one property leaves every other property as it was.
pub proof fn law_other_names_unchanged(
    s: Seq<Entry>,
    name: Seq<char>,
    v: TemplateValue,
    other: Seq<char>,
)
    requires
        distinct_names(s),
        other != name,
    ensures
        lookup(assigned(s, name, v), other) == lookup(s, other),
{
    let t = assigned(s, name, v);
    lemma_assigned_keeps_names_distinct(s, name, v);
    if has_name(s, other) {
        let q: int = position_of(s, other);
        assert(s[q].0 == other);
        assert(t[q] == s[q]);
        lemma_position_unique(t, other, q);
    } else {
        if has_name(t, other) {
            let q: int = position_of(t, other);
            assert(t[q].0 == other);
            assert(q < s.len());
            assert(s[q].0 == other);
        }
    }
}

/// A second assignment to the same property overrides the first.
pub proof fn law_last_write_wins(s: Seq<Entry>, name: Seq<char>, v1: TemplateValue, v2: TemplateValue)
    requires
        distinct_names(s),
    ensures
        assigned(assigned(s, name, v1), name, v2) == assigned(s, name, v2),
{
    let t = assigned(s, name, v1);
    if has_name(s, name) {
        let p: int = position_of(s, name);
        assert(s[p].0 == name);
        assert(t[p].0 == name);
        lemma_assigned_keeps_names_distinct(s, name, v1);
        lemma_position_unique(t, name, p);
        assert(assigned(t, name, v2) =~= assigned(s, name, v2));
    } else {
        let n: int = s.len() as int;
        assert(t[n].0 == name);
        lemma_assigned_keeps_names_distinct(s, name, v1);
        lemma_position_unique(t, name, n);
        assert(assigned(t, name, v2) =~= assigned(s, name, v2));
    }
}

/// Assigning adds a property exactly when the name is new, and every property
/// that was there before keeps its name and its position.
pub proof fn law_assignment_keeps_order(s: Seq<Entry>, name: Seq<char>, v: TemplateValue)
    requires
        distinct_names(s),
    ensures
        assigned(s, name, v).len() == if has_name(s, name) { s.len() } else { s.len() + 1 },
        forall|i: int| 0 <= i < s.len() ==> #[trigger] assigned(s, name, v)[i].0 == s[i].0,
{
    if has_name(s, name) {
        let p: int = position_of(s, name);
        assert(s[p].0 == name);
    }
}

} // verus!
