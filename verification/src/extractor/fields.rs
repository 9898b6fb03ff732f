//! The fields that an extraction fills.

use crate::text;
use vstd::prelude::*;

verus! {

/// Values by field name, in the order in which the fields were first filled. No name occurs twice.
#[derive(Debug)]
pub struct FieldMap {
    entries: Vec<(String, String)>,
}

/// The value of the field `name` among entries.
spec fn entry_value(entries: Seq<(Seq<char>, Seq<char>)>, name: Seq<char>) -> Option<Seq<char>>
    decreases entries.len(),
{
    if entries.len() == 0 {
        None
    } else if entries.last().0 == name {
        Some(entries.last().1)
    } else {
        entry_value(entries.drop_last(), name)
    }
}

impl View for FieldMap {
    type V = Map<Seq<char>, Seq<char>>;

    closed spec fn view(&self) -> Map<Seq<char>, Seq<char>> {
        Map::new(
            |name: Seq<char>| entry_value(self.entries.deep_view(), name) is Some,
            |name: Seq<char>| entry_value(self.entries.deep_view(), name)->0,
        )
    }
}

/// A map with one more value for a field: after the others, with a space between; an empty value
/// adds nothing.
pub open spec fn with_value(
    fields: Map<Seq<char>, Seq<char>>,
    name: Seq<char>,
    value: Seq<char>,
) -> Map<Seq<char>, Seq<char>> {
    if value.len() == 0 {
        fields
    } else if fields.contains_key(name) {
        fields.insert(name, fields[name] + " "@ + value)
    } else {
        fields.insert(name, value)
    }
}

impl FieldMap {
    #[verifier::type_invariant]
    spec fn names_differ(self) -> bool {
        forall|i: int, j: int|
            0 <= i < j < self.entries.len() ==> (#[trigger] self.entries@[i]).0@ != (
            #[trigger] self.entries@[j]).0@
    }

    /// No fields.
    #[must_use]
    pub fn new() -> (r: Self)
        ensures
            r@ == Map::<Seq<char>, Seq<char>>::empty(),
    {
        let r = FieldMap { entries: Vec::new() };
        assert(r@ =~= Map::<Seq<char>, Seq<char>>::empty());
        r
    }

    fn position(&self, name: &str) -> (r: Option<usize>)
        ensures
            match r {
                Some(i) => i < self.entries.len() && self.entries@[i as int].0@ == name@ && self@.contains_key(
                    name@,
                ) && self@[name@] == self.entries@[i as int].1@,
                None => !self@.contains_key(name@) && forall|j: int|
                    0 <= j < self.entries.len() ==> (#[trigger] self.entries@[j]).0@ != name@,
            },
    {
        proof {
            use_type_invariant(self);
        }
        let ghost all = self.entries.deep_view();
        let mut i: usize = self.entries.len();
        assert(all.take(i as int) == all);
        while i > 0
            invariant
                i <= self.entries.len(),
                all == self.entries.deep_view(),
                entry_value(all, name@) == entry_value(all.take(i as int), name@),
                forall|j: int|
                    i <= j < self.entries.len() ==> (#[trigger] self.entries@[j]).0@ != name@,
            decreases i,
        {
            i = i - 1;
            proof {
                let now = all.take(i + 1);
                assert(now.drop_last() == all.take(i as int));
                assert(now.last() == (self.entries@[i as int].0@, self.entries@[i as int].1@));
            }
            if text::same_text(self.entries[i].0.as_str(), name) {
                return Some(i);
            }
        }
        None
    }

    /// The value of a field.
    #[must_use]
    pub fn get(&self, name: &str) -> (r: Option<&String>)
        ensures
            match r {
                Some(value) => self@.contains_key(name@) && value@ == self@[name@],
                None => !self@.contains_key(name@),
            },
    {
        match self.position(name) {
            Some(i) => Some(&self.entries[i].1),
            None => None,
        }
    }

    /// Adds a value to a field.
    pub fn append(&mut self, name: &str, value: &str)
        ensures
            final(self)@ == with_value(old(self)@, name@, value@),
    {
        if value.is_empty() {
            return;
        }
        proof {
            use_type_invariant(&*self);
        }
        let ghost before = self.entries.deep_view();
        let mut entries: Vec<(String, String)> = Vec::new();
        match self.position(name) {
            Some(i) => {
                let joined = text::glue3(self.entries[i].1.as_str(), " ", value);
                std::mem::swap(&mut entries, &mut self.entries);
                let ghost had = entries@;
                entries.set(i, (name.to_string(), joined));
                proof {
                    let after = entries.deep_view();
                    assert(after == before.update(i as int, (name@, joined@)));
                    assert forall|n: Seq<char>|
                        #![trigger entry_value(after, n)]
                        entry_value(after, n) == if n == name@ {
                            Some(joined@)
                        } else {
                            entry_value(before, n)
                        } by {
                        assert forall|j: int| 0 <= j < before.len() && j != i implies before[j].0
                            != name@ by {
                            assert(had[j].0@ == before[j].0);
                            assert(had[i as int].0@ == name@);
                        }
                        lemma_updated(before, i as int, name@, joined@, n);
                    }
                    assert forall|a: int, b: int| 0 <= a < b < entries@.len() implies (
                    #[trigger] entries@[a]).0@ != (#[trigger] entries@[b]).0@ by {
                        assert(entries@[a].0@ == had[a].0@);
                        assert(entries@[b].0@ == had[b].0@);
                    }
                }
                std::mem::swap(&mut entries, &mut self.entries);
                assert(self@ =~= with_value(old(self)@, name@, value@));
            },
            None => {
                std::mem::swap(&mut entries, &mut self.entries);
                entries.push((name.to_string(), value.to_string()));
                proof {
                    let after = entries.deep_view();
                    assert(after == before.push((name@, value@)));
                    assert(after.drop_last() == before);
                }
                std::mem::swap(&mut entries, &mut self.entries);
                assert(self@ =~= with_value(old(self)@, name@, value@));
            },
        }
    }

    /// How many fields are filled.
    #[must_use]
    pub fn len(&self) -> (r: usize)
        ensures
            r == self@.dom().len(),
            self@.dom().finite(),
    {
        proof {
            use_type_invariant(self);
            let all = self.entries.deep_view();
            assert forall|i: int, j: int| 0 <= i < j < all.len() implies all[i].0 != all[j].0 by {
                assert(self.entries@[i].0@ != self.entries@[j].0@);
            }
            lemma_names(all);
            assert(self@.dom() =~= names(all));
        }
        self.entries.len()
    }

    /// Whether no field is filled.
    #[must_use]
    pub fn is_empty(&self) -> (r: bool)
        ensures
            r == (self@ == Map::<Seq<char>, Seq<char>>::empty()),
    {
        proof {
            if self.entries.len() == 0 {
                assert(self@ =~= Map::<Seq<char>, Seq<char>>::empty());
            } else {
                let name = self.entries.deep_view().last().0;
                assert(self@.contains_key(name));
            }
        }
        self.entries.len() == 0
    }

    /// The fields with their values, in the order in which they were first filled.
    #[must_use]
    pub fn entries(&self) -> (r: &[(String, String)])
        ensures
            r.len() == self@.dom().len(),
            forall|i: int|
                0 <= i < r.len() ==> self@.contains_key((#[trigger] r@[i]).0@) && self@[r@[i].0@]
                    == r@[i].1@,
    {
        proof {
            use_type_invariant(self);
            let all = self.entries.deep_view();
            assert forall|i: int, j: int| 0 <= i < j < all.len() implies all[i].0 != all[j].0 by {
                assert(self.entries@[i].0@ != self.entries@[j].0@);
            }
            lemma_names(all);
            assert(self@.dom() =~= names(all));
            assert forall|i: int| 0 <= i < all.len() implies entry_value(
                all,
                (#[trigger] self.entries@[i]).0@,
            ) == Some(self.entries@[i].1@) by {
                lemma_entry(all, i);
            }
        }
        self.entries.as_slice()
    }
}

impl PartialEq for FieldMap {
    fn eq(&self, other: &FieldMap) -> (r: bool) {
        let len = self.len();
        if len != other.len() {
            return false;
        }
        proof {
            use_type_invariant(self);
        }
        let ghost all = self.entries.deep_view();
        let mut i: usize = 0;
        while i < self.entries.len()
            invariant
                i <= self.entries.len(),
                all == self.entries.deep_view(),
                forall|a: int, b: int| 0 <= a < b < all.len() ==> all[a].0 != all[b].0,
                forall|j: int|
                    0 <= j < i ==> other@.contains_key((#[trigger] all[j]).0) && other@[all[j].0]
                        == all[j].1,
            decreases self.entries.len() - i,
        {
            let (name, value) = &self.entries[i];
            proof {
                assert(all[i as int] == (name@, value@));
                lemma_entry(all, i as int);
                assert(self@.contains_key(name@) && self@[name@] == value@);
            }
            match other.get(name.as_str()) {
                Some(found) if text::same_text(found.as_str(), value.as_str()) => {},
                _ => {
                    return false;
                },
            }
            i = i + 1;
        }
        proof {
            assert forall|name: Seq<char>| #[trigger] self@.dom().contains(name) implies other@.dom().contains(
                name,
            ) && other@[name] == self@[name] by {
                lemma_value_has_entry(all, name);
                let j = choose|j: int| 0 <= j < all.len() && (#[trigger] all[j]).0 == name;
                lemma_entry(all, j);
                assert(other@.contains_key(all[j].0));
            }
            assert(self@.dom().subset_of(other@.dom()));
            vstd::set_lib::lemma_subset_equality(self@.dom(), other@.dom());
            assert(self@ =~= other@);
        }
        true
    }
}

impl Eq for FieldMap {

}

impl vstd::std_specs::cmp::PartialEqSpecImpl for FieldMap {
    open spec fn obeys_eq_spec() -> bool {
        true
    }

    open spec fn eq_spec(&self, other: &FieldMap) -> bool {
        self@ == other@
    }
}

impl Clone for FieldMap {
    fn clone(&self) -> (r: Self)
        ensures
            r@ == self@,
    {
        proof {
            use_type_invariant(self);
        }
        let mut entries: Vec<(String, String)> = Vec::new();
        let mut i: usize = 0;
        while i < self.entries.len()
            invariant
                i <= self.entries.len(),
                entries.len() == i,
                forall|j: int|
                    0 <= j < i ==> (#[trigger] entries@[j]).0@ == self.entries@[j].0@
                        && entries@[j].1@ == self.entries@[j].1@,
            decreases self.entries.len() - i,
        {
            let (name, value) = &self.entries[i];
            entries.push((name.clone(), value.clone()));
            i = i + 1;
        }
        assert(entries.deep_view() =~= self.entries.deep_view());
        let ghost copied = entries@;
        assert forall|a: int, b: int| 0 <= a < b < copied.len() implies (#[trigger] copied[a]).0@
            != (#[trigger] copied[b]).0@ by {
            assert(self.entries@[a].0@ != self.entries@[b].0@);
        }
        FieldMap { entries }
    }
}

/// The names of entries.
spec fn names(entries: Seq<(Seq<char>, Seq<char>)>) -> Set<Seq<char>> {
    Set::new(|name: Seq<char>| entry_value(entries, name) is Some)
}

proof fn lemma_entry(entries: Seq<(Seq<char>, Seq<char>)>, i: int)
    requires
        0 <= i < entries.len(),
        forall|a: int, b: int| 0 <= a < b < entries.len() ==> entries[a].0 != entries[b].0,
    ensures
        entry_value(entries, entries[i].0) == Some(entries[i].1),
    decreases entries.len(),
{
    if i < entries.len() - 1 {
        assert(entries[i].0 != entries[entries.len() - 1].0);
        lemma_entry(entries.drop_last(), i);
    }
}

proof fn lemma_names(entries: Seq<(Seq<char>, Seq<char>)>)
    requires
        forall|a: int, b: int| 0 <= a < b < entries.len() ==> entries[a].0 != entries[b].0,
    ensures
        names(entries).finite(),
        names(entries).len() == entries.len(),
    decreases entries.len(),
{
    if entries.len() == 0 {
        assert(names(entries) =~= Set::empty());
    } else {
        let before = entries.drop_last();
        lemma_names(before);
        assert(names(entries) =~= names(before).insert(entries.last().0));
        if entry_value(before, entries.last().0) is Some {
            lemma_value_has_entry(before, entries.last().0);
        }
    }
}

proof fn lemma_value_has_entry(entries: Seq<(Seq<char>, Seq<char>)>, name: Seq<char>)
    requires
        entry_value(entries, name) is Some,
    ensures
        exists|i: int| 0 <= i < entries.len() && (#[trigger] entries[i]).0 == name,
    decreases entries.len(),
{
    if entries.last().0 == name {
        assert(entries[entries.len() - 1].0 == name);
    } else {
        lemma_value_has_entry(entries.drop_last(), name);
        let i = choose|i: int|
            0 <= i < entries.drop_last().len() && (#[trigger] entries.drop_last()[i]).0 == name;
        assert(entries[i].0 == name);
    }
}

proof fn lemma_updated(
    entries: Seq<(Seq<char>, Seq<char>)>,
    i: int,
    name: Seq<char>,
    value: Seq<char>,
    n: Seq<char>,
)
    requires
        0 <= i < entries.len(),
        entries[i].0 == name,
        forall|j: int| 0 <= j < entries.len() && j != i ==> entries[j].0 != name,
    ensures
        entry_value(entries.update(i, (name, value)), n) == if n == name {
            Some(value)
        } else {
            entry_value(entries, n)
        },
    decreases entries.len(),
{
    let after = entries.update(i, (name, value));
    let last = entries.len() - 1;
    if i == last {
        assert(after.drop_last() == entries.drop_last());
    } else {
        assert(after.drop_last() == entries.drop_last().update(i, (name, value)));
        assert(after.last() == entries.last());
        assert(entries[last].0 != name);
        lemma_updated(entries.drop_last(), i, name, value, n);
    }
}

} // verus!
