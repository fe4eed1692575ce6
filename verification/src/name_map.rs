//! A mapping from names to values that keeps its names in the order in which
//! they first came.

use vstd::prelude::*;

verus! {

/// A finite mapping from names to values. No name occurs twice; a name keeps
/// the place at which it was first inserted.
pub struct NameMap<V> {
    names: Vec<String>,
    values: Vec<V>,
}

impl<V> NameMap<V> {
    /// The names, in the order of their first insertion.
    pub closed spec fn spec_names(&self) -> Seq<Seq<char>> {
        Seq::new(self.names@.len(), |i: int| self.names@[i]@)
    }

    /// The values, each at the place of its name.
    pub closed spec fn spec_values(&self) -> Seq<V> {
        self.values@
    }

    /// Every name has one value, and no name occurs twice.
    pub open spec fn wf(&self) -> bool {
        &&& self.spec_names().len() == self.spec_values().len()
        &&& self.spec_names().no_duplicates()
    }

    /// The values with their names, in the order of the names.
    pub open spec fn items(&self) -> Seq<Named<V>> {
        Seq::new(
            self.spec_names().len(),
            |i: int| Named { name: self.spec_names()[i], value: self.spec_values()[i] },
        )
    }

    /// The place of a name that the mapping holds.
    pub open spec fn place_of(&self, name: Seq<char>) -> int {
        self.spec_names().index_of(name)
    }

    /// The mapping itself.
    pub open spec fn view(&self) -> Map<Seq<char>, V> {
        Map::new(
            |name: Seq<char>| self.spec_names().contains(name),
            |name: Seq<char>| self.spec_values()[self.place_of(name)],
        )
    }

    /// A mapping without names.
    pub fn new() -> (m: Self)
        ensures
            m.wf(),
            m.spec_names() == Seq::<Seq<char>>::empty(),
            m.spec_values() == Seq::<V>::empty(),
            m@ == Map::<Seq<char>, V>::empty(),
    {
        let m = NameMap { names: Vec::new(), values: Vec::new() };
        assert(m.spec_names() =~= Seq::<Seq<char>>::empty());
        assert(m@ =~= Map::<Seq<char>, V>::empty());
        m
    }

    /// The number of names.
    pub fn len(&self) -> (n: usize)
        requires
            self.wf(),
        ensures
            n == self.spec_names().len(),
            n == self@.dom().len(),
    {
        proof {
            self.lemma_domain();
        }
        self.names.len()
    }

    /// The name at a place.
    pub fn name_at(&self, i: usize) -> (name: &String)
        requires
            self.wf(),
            i < self.spec_names().len(),
        ensures
            name@ == self.spec_names()[i as int],
    {
        &self.names[i]
    }

    /// The value at a place.
    pub fn value_at(&self, i: usize) -> (value: &V)
        requires
            self.wf(),
            i < self.spec_names().len(),
        ensures
            *value == self.spec_values()[i as int],
    {
        &self.values[i]
    }

    /// The place of a name, if the mapping holds it.
    pub fn position(&self, name: &str) -> (p: Option<usize>)
        requires
            self.wf(),
        ensures
            p is Some <==> self.spec_names().contains(name@),
            p matches Some(i) ==> i < self.spec_names().len() && self.spec_names()[i as int]
                == name@ && i == self.place_of(name@),
    {
        let mut i: usize = 0;
        while i < self.names.len()
            invariant
                self.wf(),
                i <= self.names@.len(),
                forall|j: int| 0 <= j < i ==> self.spec_names()[j] != name@,
            decreases self.names@.len() - i,
        {
            if str_equal(self.names[i].as_str(), name) {
                assert(self.spec_names()[i as int] == name@);
                return Some(i);
            }
            i += 1;
        }
        None
    }

    /// The value of a name, if the mapping holds it.
    pub fn get(&self, name: &str) -> (r: Option<&V>)
        requires
            self.wf(),
        ensures
            r is Some <==> self@.contains_key(name@),
            r matches Some(v) ==> *v == self@[name@],
    {
        match self.position(name) {
            Some(i) => Some(&self.values[i]),
            None => None,
        }
    }

    /// The value of a name, to be changed in place, if the mapping holds the
    /// name. The names stay as they are.
    pub fn get_mut(&mut self, name: &str) -> (r: Option<&mut V>)
        requires
            old(self).wf(),
        ensures
            r is Some <==> old(self)@.contains_key(name@),
            r matches Some(v) ==> *v == old(self)@[name@],
            r matches Some(v) ==> final(self).wf(),
            r matches Some(v) ==> final(self).spec_names() == old(self).spec_names(),
            r matches Some(v) ==> final(self).spec_values() == old(self).spec_values().update(
                old(self).place_of(name@),
                *final(v),
            ),
            r matches Some(v) ==> final(self)@ == old(self)@.insert(name@, *final(v)),
            r is None ==> *final(self) == *old(self),
    {
        match self.position(name) {
            Some(i) => {
                let v = &mut self.values[i];
                Some(v)
            },
            None => None,
        }
    }

    /// Gives a name its value: the value takes the place of the one that the
    /// name had, or the name comes last with it.
    pub fn insert(&mut self, name: String, value: V)
        requires
            old(self).wf(),
        ensures
            final(self).wf(),
            final(self)@ == old(self)@.insert(name@, value),
            final(self).items() == put_named(old(self).items(), Named { name: name@, value }),
            old(self).spec_names().contains(name@) ==> final(self).spec_names() == old(
                self,
            ).spec_names() && final(self).spec_values() == old(self).spec_values().update(
                old(self).place_of(name@),
                value,
            ),
            !old(self).spec_names().contains(name@) ==> final(self).spec_names() == old(
                self,
            ).spec_names().push(name@) && final(self).spec_values() == old(
                self,
            ).spec_values().push(value),
    {
        let ghost before = *self;
        assert(names_of(before.items()) =~= before.spec_names());
        match self.position(name.as_str()) {
            Some(i) => {
                self.values[i] = value;
                assert(self.spec_names() =~= before.spec_names());
                assert(self@ =~= before@.insert(name@, value));
                assert(self.items() =~= put_named(before.items(), Named { name: name@, value }));
            },
            None => {
                self.names.push(name);
                self.values.push(value);
                assert(self.spec_names() =~= before.spec_names().push(name@));
                assert forall|k: Seq<char>| #[trigger]
                    self.spec_names().contains(k) implies self.spec_values()[self.place_of(k)]
                    == before@.insert(name@, value)[k] by {
                    let p = self.place_of(k);
                    if k != name@ {
                        assert(before.spec_names()[p] == k);
                        assert(before.spec_names()[before.place_of(k)] == k);
                    }
                }
                assert forall|k: Seq<char>| #[trigger]
                    before@.insert(name@, value).contains_key(k) implies self.spec_names().contains(
                    k,
                ) by {
                    if k == name@ {
                        assert(self.spec_names()[before.spec_names().len() as int] == k);
                    } else {
                        let p = before.place_of(k);
                        assert(self.spec_names()[p] == k);
                    }
                }
                assert(self@ =~= before@.insert(name@, value));
                assert(self.items() =~= put_named(before.items(), Named { name: name@, value }));
            },
        }
    }

    /// The names, in the order of their first insertion.
    pub fn names(&self) -> (r: Vec<String>)
        requires
            self.wf(),
        ensures
            r@.len() == self.spec_names().len(),
            forall|i: int| 0 <= i < r@.len() ==> (#[trigger] r@[i])@ == self.spec_names()[i],
    {
        let mut r: Vec<String> = Vec::new();
        let mut i: usize = 0;
        while i < self.names.len()
            invariant
                i <= self.names@.len(),
                r@.len() == i,
                forall|j: int| 0 <= j < i ==> (#[trigger] r@[j])@ == self.spec_names()[j],
            decreases self.names@.len() - i,
        {
            r.push(self.names[i].clone());
            i += 1;
        }
        r
    }

    /// The domain of the mapping is the set of its names, one element for
    /// each place.
    pub proof fn lemma_domain(&self)
        requires
            self.wf(),
        ensures
            self@.dom() == self.spec_names().to_set(),
            self@.dom().finite(),
            self@.dom().len() == self.spec_names().len(),
    {
        assert(self@.dom() =~= self.spec_names().to_set());
        self.spec_names().unique_seq_to_set();
    }
}

/// A value together with the name under which it is kept.
pub struct Named<T> {
    pub name: Seq<char>,
    pub value: T,
}

/// The names of named values, in their order.
pub open spec fn names_of<T>(items: Seq<Named<T>>) -> Seq<Seq<char>> {
    Seq::new(items.len(), |i: int| items[i].name)
}

/// Named values with one more put among them: it takes the place of the
/// value of the same name, or comes last.
pub open spec fn put_named<T>(items: Seq<Named<T>>, item: Named<T>) -> Seq<Named<T>> {
    if names_of(items).contains(item.name) {
        items.update(names_of(items).index_of(item.name), item)
    } else {
        items.push(item)
    }
}

/// The named values that are kept when named values are put one by one,
/// first to last, into an empty mapping.
pub open spec fn collected<T>(items: Seq<Named<T>>) -> Seq<Named<T>>
    decreases items.len(),
{
    if items.len() == 0 {
        Seq::empty()
    } else {
        put_named(collected(items.drop_last()), items.last())
    }
}

/// What putting a named value among named values of distinct names does:
/// the names stay distinct, the value is kept under its name, and what is
/// kept under every other name stays as it was.
pub proof fn lemma_put_named<T>(items: Seq<Named<T>>, item: Named<T>)
    requires
        names_of(items).no_duplicates(),
    ensures
        names_of(put_named(items, item)).no_duplicates(),
        names_of(put_named(items, item)).contains(item.name),
        put_named(items, item)[names_of(put_named(items, item)).index_of(item.name)] == item,
        put_named(items, item).len() == if names_of(items).contains(item.name) {
            items.len()
        } else {
            items.len() + 1
        },
        forall|t: Seq<char>|
            t != item.name ==> (#[trigger] names_of(put_named(items, item)).contains(t) <==> names_of(
                items,
            ).contains(t)),
        forall|t: Seq<char>|
            t != item.name && names_of(items).contains(t) ==> put_named(items, item)[#[trigger] names_of(
                put_named(items, item),
            ).index_of(t)] == items[names_of(items).index_of(t)],
{
    let old_names = names_of(items);
    let new = put_named(items, item);
    let new_names = names_of(new);
    if old_names.contains(item.name) {
        assert(new_names =~= old_names);
    } else {
        assert(new_names =~= old_names.push(item.name));
        assert(new_names[items.len() as int] == item.name);
        assert forall|t: Seq<char>| t != item.name && old_names.contains(t) implies new[
        #[trigger] new_names.index_of(t)] == items[old_names.index_of(t)] by {
            let i = old_names.index_of(t);
            assert(new_names[i] == t);
            let j = new_names.index_of(t);
            assert(new_names[j] == t);
        }
        assert forall|t: Seq<char>| t != item.name implies (#[trigger] new_names.contains(t)
            <==> old_names.contains(t)) by {
            if old_names.contains(t) {
                let i = old_names.index_of(t);
                assert(new_names[i] == t);
            }
            if new_names.contains(t) {
                let j = new_names.index_of(t);
                assert(old_names[j] == t);
            }
        }
    }
    let k = new_names.index_of(item.name);
    assert(new_names[k] == item.name);
}

/// Putting a named value and then another of the same name leaves what
/// putting the second alone leaves: the name is kept once, with the second
/// value.
pub proof fn lemma_put_named_twice<T>(items: Seq<Named<T>>, first: Named<T>, second: Named<T>)
    requires
        names_of(items).no_duplicates(),
        first.name == second.name,
    ensures
        put_named(put_named(items, first), second) == put_named(items, second),
        names_of(put_named(items, second)).no_duplicates(),
        names_of(put_named(items, second)).contains(second.name),
        put_named(items, second)[names_of(put_named(items, second)).index_of(second.name)] == second,
{
    lemma_put_named(items, first);
    lemma_put_named(items, second);
    let mid = put_named(items, first);
    lemma_put_named(mid, second);
    let p = names_of(mid).index_of(second.name);
    assert(names_of(mid)[p] == second.name);
    if names_of(items).contains(first.name) {
        assert(names_of(mid) =~= names_of(items));
        assert(put_named(mid, second) =~= put_named(items, second));
    } else {
        assert(names_of(mid) =~= names_of(items).push(first.name));
        assert(names_of(mid)[items.len() as int] == second.name);
        assert(p == items.len());
        assert(put_named(mid, second) =~= put_named(items, second));
    }
}

/// Named values of distinct names are all kept, in their order.
pub proof fn lemma_collected_distinct<T>(items: Seq<Named<T>>)
    requires
        names_of(items).no_duplicates(),
    ensures
        collected(items) == items,
    decreases items.len(),
{
    if items.len() == 0 {
        assert(items =~= Seq::<Named<T>>::empty());
    } else {
        let front = items.drop_last();
        assert(names_of(front) =~= names_of(items).drop_last());
        assert(names_of(front).no_duplicates());
        lemma_collected_distinct(front);
        if names_of(front).contains(items.last().name) {
            let i = names_of(front).index_of(items.last().name);
            assert(names_of(items)[i] == names_of(items)[items.len() - 1]);
        }
        assert(front.push(items.last()) =~= items);
    }
}

/// Whether two texts hold the same characters.
pub fn str_equal(a: &str, b: &str) -> (r: bool)
    ensures
        r == (a@ == b@),
{
    let x = a.as_bytes();
    let y = b.as_bytes();
    proof {
        vstd::utf8::encode_utf8_decode_utf8(a@);
        vstd::utf8::encode_utf8_decode_utf8(b@);
    }
    if x.len() != y.len() {
        return false;
    }
    let mut i: usize = 0;
    while i < x.len()
        invariant
            x@ == vstd::utf8::encode_utf8(a@),
            y@ == vstd::utf8::encode_utf8(b@),
            x@.len() == y@.len(),
            i <= x@.len(),
            forall|j: int| 0 <= j < i ==> x@[j] == y@[j],
        decreases x@.len() - i,
    {
        if x[i] != y[i] {
            assert(x@ != y@);
            return false;
        }
        i += 1;
    }
    assert(x@ =~= y@);
    true
}

} // verus!
