//! The header fields of a request: a map from names to values.

use crate::text::same_text;
use vstd::prelude::*;

verus! {

/// One header field as it is stored: its name, then its value.
type Field = (String, String);

/// The map that the fields `fields` make when they are entered one after
/// the other: where a name comes twice, its last value stays.
spec fn map_of(fields: Seq<Field>) -> Map<Seq<char>, Seq<char>>
    decreases fields.len(),
{
    if fields.len() == 0 {
        Map::empty()
    } else {
        map_of(fields.drop_last()).insert(fields.last().0@, fields.last().1@)
    }
}

/// Whether no name comes twice in `fields`.
spec fn distinct_names(fields: Seq<Field>) -> bool {
    forall|i: int, j: int|
        0 <= i < j < fields.len() ==> (#[trigger] fields[i]).0@ != (#[trigger] fields[j]).0@
}

/// The names in `map_of(fields)` are the names in `fields`.
proof fn lemma_map_of_names(fields: Seq<Field>)
    ensures
        map_of(fields).dom().finite(),
        forall|name: Seq<char>| #[trigger]
            map_of(fields).contains_key(name) <==> exists|i: int|
                0 <= i < fields.len() && (#[trigger] fields[i]).0@ == name,
    decreases fields.len(),
{
    if fields.len() > 0 {
        let front = fields.drop_last();
        lemma_map_of_names(front);
        assert forall|name: Seq<char>| #[trigger]
            map_of(fields).contains_key(name) implies exists|i: int|
            0 <= i < fields.len() && (#[trigger] fields[i]).0@ == name by {
            if name == fields.last().0@ {
                assert(fields[fields.len() - 1].0@ == name);
            } else {
                let i = choose|i: int| 0 <= i < front.len() && (#[trigger] front[i]).0@ == name;
                assert(fields[i].0@ == name);
            }
        }
        assert forall|name: Seq<char>|
            (exists|i: int|
                0 <= i < fields.len() && (#[trigger] fields[i]).0@ == name) implies #[trigger]
            map_of(fields).contains_key(name) by {
            let i = choose|i: int| 0 <= i < fields.len() && (#[trigger] fields[i]).0@ == name;
            if i < fields.len() - 1 {
                assert(front[i].0@ == name);
            }
        }
    }
}

/// Where no name comes twice, each field of `fields` is in `map_of(fields)`
/// as it stands, and the map has as many entries as there are fields.
proof fn lemma_map_of_distinct(fields: Seq<Field>)
    requires
        distinct_names(fields),
    ensures
        map_of(fields).dom().finite(),
        map_of(fields).len() == fields.len(),
        forall|i: int|
            0 <= i < fields.len() ==> map_of(fields).contains_key((#[trigger] fields[i]).0@)
                && map_of(fields)[fields[i].0@] == fields[i].1@,
    decreases fields.len(),
{
    lemma_map_of_names(fields);
    if fields.len() > 0 {
        let front = fields.drop_last();
        let last = fields.last();
        assert(distinct_names(front)) by {
            assert forall|i: int, j: int| 0 <= i < j < front.len() implies (#[trigger] front[i]).0@
                != (#[trigger] front[j]).0@ by {
                assert(fields[i].0@ != fields[j].0@);
            }
        }
        lemma_map_of_distinct(front);
        lemma_map_of_names(front);
        assert(!map_of(front).contains_key(last.0@)) by {
            if map_of(front).contains_key(last.0@) {
                let i = choose|i: int| 0 <= i < front.len() && (#[trigger] front[i]).0@ == last.0@;
                assert(fields[i].0@ != fields[fields.len() - 1].0@);
            }
        }
        assert forall|i: int| 0 <= i < fields.len() implies map_of(fields).contains_key(
            (#[trigger] fields[i]).0@,
        ) && map_of(fields)[fields[i].0@] == fields[i].1@ by {
            if i < fields.len() - 1 {
                assert(front[i] == fields[i]);
                assert(fields[i].0@ != fields[fields.len() - 1].0@);
            }
        }
    }
}

/// The header fields of a request. Each name has one value: a value that is
/// entered under a name that is already there takes the place of the old one.
#[derive(Debug)]
pub struct Headers {
    fields: Vec<Field>,
}

impl View for Headers {
    type V = Map<Seq<char>, Seq<char>>;

    closed spec fn view(&self) -> Map<Seq<char>, Seq<char>> {
        map_of(self.fields@)
    }
}

impl Headers {
    #[verifier::type_invariant]
    spec fn distinct(&self) -> bool {
        distinct_names(self.fields@)
    }

    /// No header fields.
    pub fn new() -> (headers: Headers)
        ensures
            headers@ == Map::<Seq<char>, Seq<char>>::empty(),
            headers@.dom().finite(),
    {
        Headers { fields: Vec::new() }
    }

    /// The names of the fields, in the order in which `entry` numbers them.
    pub closed spec fn names(&self) -> Seq<Seq<char>> {
        Seq::new(self.fields@.len(), |i: int| self.fields@[i].0@)
    }

    /// The number of header fields. The fields are numbered from zero up to
    /// this number: each name has one number.
    pub fn len(&self) -> (n: usize)
        ensures
            self@.dom().finite(),
            n == self@.len(),
            n == self.names().len(),
            self.names().no_duplicates(),
            forall|name: Seq<char>| self@.contains_key(name) <==> self.names().contains(name),
    {
        proof {
            use_type_invariant(self);
            lemma_map_of_distinct(self.fields@);
            lemma_map_of_names(self.fields@);
            let names = self.names();
            assert forall|name: Seq<char>| self@.contains_key(name) implies names.contains(
                name,
            ) by {
                let i = choose|i: int|
                    0 <= i < self.fields@.len() && (#[trigger] self.fields@[i]).0@ == name;
                assert(names[i] == name);
            }
            assert forall|name: Seq<char>| names.contains(name) implies self@.contains_key(
                name,
            ) by {
                let i = choose|i: int| 0 <= i < names.len() && names[i] == name;
                assert(self.fields@[i].0@ == name);
            }
            assert forall|i: int, j: int| 0 <= i < names.len() && 0 <= j < names.len() && i
                != j implies names[i] != names[j] by {
                if i < j {
                    assert(self.fields@[i].0@ != self.fields@[j].0@);
                } else {
                    assert(self.fields@[j].0@ != self.fields@[i].0@);
                }
            }
        }
        self.fields.len()
    }

    /// The place of the field named `name`, if there is one.
    fn position(&self, name: &str) -> (r: Option<usize>)
        ensures
            match r {
                Some(i) => i < self.fields.len() && self.fields[i as int].0@ == name@,
                None => forall|i: int| 0 <= i < self.fields.len() ==> self.fields[i].0@ != name@,
            },
    {
        let mut i: usize = 0;
        while i < self.fields.len()
            invariant
                i <= self.fields.len(),
                forall|j: int| 0 <= j < i ==> self.fields[j].0@ != name@,
            decreases self.fields.len() - i,
        {
            if same_text(self.fields[i].0.as_str(), name) {
                return Some(i);
            }
            i += 1;
        }
        None
    }

    /// The value of the field named `name`, if there is one.
    pub fn get(&self, name: &str) -> (value: Option<&str>)
        ensures
            match value {
                Some(v) => self@.contains_key(name@) && v@ == self@[name@],
                None => !self@.contains_key(name@),
            },
    {
        proof {
            use_type_invariant(self);
            lemma_map_of_distinct(self.fields@);
            lemma_map_of_names(self.fields@);
        }
        match self.position(name) {
            Some(i) => Some(self.fields[i].1.as_str()),
            None => None,
        }
    }

    /// The field with the number `i`, as name and value. The fields are
    /// numbered in no particular order.
    pub fn entry(&self, i: usize) -> (field: (&str, &str))
        requires
            i < self@.len(),
        ensures
            field.0@ == self.names()[i as int],
            self@.contains_key(field.0@),
            field.1@ == self@[field.0@],
    {
        proof {
            use_type_invariant(self);
            lemma_map_of_distinct(self.fields@);
        }
        (self.fields[i].0.as_str(), self.fields[i].1.as_str())
    }

    /// Enters the field `name` with the value `value`, in place of the field
    /// of that name if there is one.
    pub fn insert(&mut self, name: String, value: String)
        ensures
            final(self)@ == old(self)@.insert(name@, value@),
            final(self)@.dom().finite(),
    {
        proof {
            use_type_invariant(&*self);
            lemma_map_of_names(self.fields@);
        }
        let found = self.position(name.as_str());
        let mut fields = Vec::new();
        std::mem::swap(&mut fields, &mut self.fields);
        let ghost before = fields@;
        match found {
            Some(i) => {
                fields.set(i, (name, value));
                proof {
                    let after = fields@;
                    assert(distinct_names(after)) by {
                        assert forall|a: int, b: int| 0 <= a < b < after.len() implies (
                        #[trigger] after[a]).0@ != (#[trigger] after[b]).0@ by {
                            assert(before[a].0@ != before[b].0@);
                        }
                    }
                    lemma_map_of_distinct(before);
                    lemma_map_of_names(before);
                    lemma_map_of_distinct(after);
                    lemma_map_of_names(after);
                    assert(map_of(after) =~= map_of(before).insert(name@, value@)) by {
                        assert forall|key: Seq<char>| #[trigger]
                            map_of(after).contains_key(key) implies map_of(before).insert(
                            name@,
                            value@,
                        ).contains_key(key) by {
                            let j = choose|j: int|
                                0 <= j < after.len() && (#[trigger] after[j]).0@ == key;
                            assert(before[j].0@ == key);
                        }
                        assert forall|key: Seq<char>| #[trigger]
                            map_of(before).insert(name@, value@).contains_key(
                                key,
                            ) implies map_of(after).contains_key(key) && map_of(after)[key]
                            == map_of(before).insert(name@, value@)[key] by {
                            if key == name@ {
                                assert(after[i as int].0@ == key);
                            } else {
                                let j = choose|j: int|
                                    0 <= j < before.len() && (#[trigger] before[j]).0@ == key;
                                assert(after[j] == before[j]);
                            }
                        }
                    }
                }
            },
            None => {
                fields.push((name, value));
                proof {
                    assert(fields@.drop_last() =~= before);
                    assert(distinct_names(fields@)) by {
                        assert forall|a: int, b: int| 0 <= a < b < fields@.len() implies (
                        #[trigger] fields@[a]).0@ != (#[trigger] fields@[b]).0@ by {
                            if b < before.len() {
                                assert(before[a].0@ != before[b].0@);
                            } else {
                                assert(before[a].0@ != name@);
                            }
                        }
                    }
                }
            },
        }
        self.fields = fields;
    }
}

impl PartialEq for Headers {
    /// Whether `self` and `other` hold the same values under the same names,
    /// in whatever order they were entered.
    fn eq(&self, other: &Headers) -> (r: bool) {
        proof {
            use_type_invariant(self);
            use_type_invariant(other);
            lemma_map_of_distinct(self.fields@);
            lemma_map_of_names(self.fields@);
            lemma_map_of_distinct(other.fields@);
        }
        if self.fields.len() != other.fields.len() {
            return false;
        }
        let mut i: usize = 0;
        while i < self.fields.len()
            invariant
                i <= self.fields.len(),
                self@ == map_of(self.fields@),
                forall|j: int|
                    0 <= j < self.fields.len() ==> self@.contains_key(
                        (#[trigger] self.fields[j]).0@,
                    ) && self@[self.fields[j].0@] == self.fields[j].1@,
                forall|j: int|
                    0 <= j < i ==> other@.contains_key((#[trigger] self.fields[j]).0@)
                        && other@[self.fields[j].0@] == self.fields[j].1@,
            decreases self.fields.len() - i,
        {
            match other.get(self.fields[i].0.as_str()) {
                Some(value) => {
                    if !same_text(value, self.fields[i].1.as_str()) {
                        return false;
                    }
                },
                None => {
                    return false;
                },
            }
            i += 1;
        }
        proof {
            assert(self@.dom().subset_of(other@.dom())) by {
                assert forall|name: Seq<char>|
                    self@.dom().contains(name) implies other@.dom().contains(name) by {
                    let j = choose|j: int|
                        0 <= j < self.fields.len() && (#[trigger] self.fields[j]).0@ == name;
                    assert(other@.contains_key(self.fields[j].0@));
                }
            }
            vstd::set_lib::lemma_subset_equality(self@.dom(), other@.dom());
            assert(self@ =~= other@) by {
                assert forall|name: Seq<char>| self@.dom().contains(name) implies self@[name]
                    == other@[name] by {
                    let j = choose|j: int|
                        0 <= j < self.fields.len() && (#[trigger] self.fields[j]).0@ == name;
                    assert(other@[self.fields[j].0@] == self.fields[j].1@);
                }
            }
        }
        true
    }
}

impl vstd::std_specs::cmp::PartialEqSpecImpl for Headers {
    open spec fn obeys_eq_spec() -> bool {
        true
    }

    open spec fn eq_spec(&self, other: &Headers) -> bool {
        self@ == other@
    }
}

impl Eq for Headers {

}

} // verus!
