//! A list of values by name, in which no name stands twice.

use vstd::prelude::*;
use vstd::string::*;

use crate::text::text_same;

verus! {

/// Values by name.
pub struct Keyed<V> {
    entries: Vec<(String, V)>,
}

/// Whether no name stands twice.
pub open spec fn distinct<V>(list: Seq<(String, V)>) -> bool {
    forall|i: int, j: int|
        0 <= i < j < list.len() ==> (#[trigger] list[i]).0@ != (#[trigger] list[j]).0@
}

/// The values of a list by name.
pub open spec fn by_name<V>(list: Seq<(String, V)>) -> Map<Seq<char>, V>
    decreases list.len(),
{
    if list.len() == 0 {
        Map::empty()
    } else {
        by_name(list.drop_last()).insert(list.last().0@, list.last().1)
    }
}

impl<V> View for Keyed<V> {
    type V = Map<Seq<char>, V>;

    closed spec fn view(&self) -> Map<Seq<char>, V> {
        by_name(self.entries@)
    }
}

proof fn lemma_by_name<V>(list: Seq<(String, V)>)
    requires
        distinct(list),
    ensures
        forall|i: int|
            0 <= i < list.len() ==> by_name(list).contains_pair(
                (#[trigger] list[i]).0@,
                list[i].1,
            ),
        forall|name: Seq<char>| #[trigger]
            by_name(list).contains_key(name) ==> exists|i: int|
                0 <= i < list.len() && (#[trigger] list[i]).0@ == name,
    decreases list.len(),
{
    if list.len() > 0 {
        let front = list.drop_last();
        assert forall|i: int, j: int| 0 <= i < j < front.len() implies (#[trigger] front[i]).0@ != (
        #[trigger] front[j]).0@ by {
            assert(list[i].0@ != list[j].0@);
        }
        lemma_by_name(front);
        assert forall|i: int| 0 <= i < list.len() implies by_name(list).contains_pair(
            (#[trigger] list[i]).0@,
            list[i].1,
        ) by {
            if i < front.len() {
                assert(front[i] == list[i]);
                assert(list[i].0@ != list[list.len() - 1].0@);
            }
        }
        assert forall|name: Seq<char>| #[trigger] by_name(list).contains_key(name) implies exists|
            i: int,
        |
            0 <= i < list.len() && (#[trigger] list[i]).0@ == name by {
            if name == list.last().0@ {
                assert(list[list.len() - 1].0@ == name);
            } else {
                assert(by_name(front).contains_key(name));
                let i = choose|i: int| 0 <= i < front.len() && (#[trigger] front[i]).0@ == name;
                assert(list[i].0@ == name);
            }
        }
    }
}

/// Lists with the same entries have the same values by name.
proof fn lemma_same_entries<V>(list: Seq<(String, V)>, m: Map<Seq<char>, V>)
    requires
        distinct(list),
        forall|i: int|
            0 <= i < list.len() ==> m.contains_pair((#[trigger] list[i]).0@, list[i].1),
        forall|name: Seq<char>| #[trigger]
            m.contains_key(name) ==> exists|i: int|
                0 <= i < list.len() && (#[trigger] list[i]).0@ == name,
    ensures
        by_name(list) == m,
{
    lemma_by_name(list);
    let n = by_name(list);
    assert forall|name: Seq<char>|
        #![trigger m.dom().contains(name)]
        #![trigger n.dom().contains(name)]
        m.dom().contains(name) == n.dom().contains(name) && (m.dom().contains(name) ==> m[name]
            == n[name]) by {
        if n.contains_key(name) {
            let i = choose|i: int| 0 <= i < list.len() && (#[trigger] list[i]).0@ == name;
            assert(m.contains_pair(list[i].0@, list[i].1));
            assert(n.contains_pair(list[i].0@, list[i].1));
        }
        if m.contains_key(name) {
            let i = choose|i: int| 0 <= i < list.len() && (#[trigger] list[i]).0@ == name;
            assert(n.contains_pair(list[i].0@, list[i].1));
        }
    }
    assert(n =~= m);
}

impl<V> Keyed<V> {
    /// No name stands twice.
    pub closed spec fn wf(&self) -> bool {
        distinct(self.entries@)
    }

    /// No values.
    pub fn new() -> (r: Keyed<V>)
        ensures
            r.wf(),
            r@ == Map::<Seq<char>, V>::empty(),
    {
        Keyed { entries: Vec::new() }
    }

    /// The place of a name, or the length where it is not there.
    fn place(&self, name: &str) -> (r: usize)
        requires
            self.wf(),
        ensures
            r <= self.entries@.len(),
            r < self.entries@.len() ==> self.entries@[r as int].0@ == name@ && self@.contains_pair(
                name@,
                self.entries@[r as int].1,
            ),
            r == self.entries@.len() ==> !self@.contains_key(name@) && forall|i: int|
                0 <= i < self.entries@.len() ==> (#[trigger] self.entries@[i]).0@ != name@,
    {
        proof {
            lemma_by_name(self.entries@);
        }
        let mut i: usize = 0;
        while i < self.entries.len()
            invariant
                i <= self.entries@.len(),
                forall|k: int| 0 <= k < i ==> (#[trigger] self.entries@[k]).0@ != name@,
                forall|k: int|
                    0 <= k < self.entries@.len() ==> self@.contains_pair(
                        (#[trigger] self.entries@[k]).0@,
                        self.entries@[k].1,
                    ),
            decreases self.entries@.len() - i,
        {
            if text_same(self.entries[i].0.as_str(), name) {
                assert(self@.contains_pair(self.entries@[i as int].0@, self.entries@[i as int].1));
                return i;
            }
            i = i + 1;
        }
        i
    }

    /// The value of a name.
    pub fn get(&self, name: &str) -> (r: Option<&V>)
        requires
            self.wf(),
        ensures
            if self@.contains_key(name@) {
                r is Some && *r->0 == self@[name@]
            } else {
                r is None
            },
    {
        let i: usize = self.place(name);
        if i < self.entries.len() {
            Some(&self.entries[i].1)
        } else {
            None
        }
    }

    /// Takes the value of a name out.
    pub fn take(&mut self, name: &str) -> (r: Option<V>)
        requires
            old(self).wf(),
        ensures
            final(self).wf(),
            final(self)@ == old(self)@.remove(name@),
            if old(self)@.contains_key(name@) {
                r is Some && r->0 == old(self)@[name@]
            } else {
                r is None
            },
    {
        let i: usize = self.place(name);
        let ghost before = self.entries@;
        if i < self.entries.len() {
            let (_, value) = self.entries.remove(i);
            proof {
                let after = self.entries@;
                assert(after =~= before.remove(i as int));
                lemma_by_name(before);
                assert forall|a: int, b: int| 0 <= a < b < after.len() implies (
                #[trigger] after[a]).0@ != (#[trigger] after[b]).0@ by {
                    let oa = if a < i { a } else { a + 1 };
                    let ob = if b < i { b } else { b + 1 };
                    assert(before[oa].0@ != before[ob].0@);
                }
                let m = old(self)@.remove(name@);
                assert forall|a: int| 0 <= a < after.len() implies m.contains_pair(
                    (#[trigger] after[a]).0@,
                    after[a].1,
                ) by {
                    let oa = if a < i { a } else { a + 1 };
                    assert(after[a] == before[oa]);
                    assert(old(self)@.contains_pair(before[oa].0@, before[oa].1));
                    if oa < i {
                        assert(before[oa].0@ != before[i as int].0@);
                    } else {
                        assert(before[i as int].0@ != before[oa].0@);
                    }
                }
                assert forall|n: Seq<char>| #[trigger] m.contains_key(n) implies exists|a: int|
                    0 <= a < after.len() && (#[trigger] after[a]).0@ == n by {
                    assert(old(self)@.contains_key(n));
                    let oa = choose|oa: int|
                        0 <= oa < before.len() && (#[trigger] before[oa]).0@ == n;
                    let a = if oa < i { oa } else { oa - 1 };
                    assert(after[a].0@ == n);
                }
                lemma_same_entries(after, m);
            }
            Some(value)
        } else {
            assert(old(self)@.remove(name@) =~= old(self)@);
            None
        }
    }

    /// Gives a name a value, in the place of the one that it may have had.
    pub fn put(&mut self, name: String, value: V)
        requires
            old(self).wf(),
        ensures
            final(self).wf(),
            final(self)@ == old(self)@.insert(name@, value),
    {
        let _ = self.take(name.as_str());
        let ghost before = self.entries@;
        let i: usize = self.place(name.as_str());
        self.entries.push((name, value));
        proof {
            let after = self.entries@;
            assert(after.drop_last() =~= before);
            assert forall|a: int, b: int| 0 <= a < b < after.len() implies (
            #[trigger] after[a]).0@ != (#[trigger] after[b]).0@ by {
                if b < before.len() {
                    assert(before[a].0@ != before[b].0@);
                } else {
                    assert(before[a].0@ != name@);
                }
            }
            assert(old(self)@.remove(name@).insert(name@, value) =~= old(self)@.insert(
                name@,
                value,
            ));
        }
    }
}

} // verus!
