use vstd::prelude::*;

use crate::runtime::function::HostFunction;
use crate::runtime::memory::Memory;

verus! {

/// Something a module can import.
pub enum Extern {
    Function(HostFunction),
    Memory(Memory),
}

/// Host definitions that modules import, keyed by (namespace, name).
pub struct Imports {
    /// Each key occurs at most once.
    entries: Vec<(String, String, Extern)>,
}

/// The key of an entry.
pub open spec fn entry_key(e: (String, String, Extern)) -> (Seq<char>, Seq<char>) {
    (e.0@, e.1@)
}

impl Imports {
    /// No key occurs twice.
    pub closed spec fn wf(&self) -> bool {
        forall|i: int, j: int|
            0 <= i < j < self.entries@.len() ==> entry_key(#[trigger] self.entries@[i]) != entry_key(
                #[trigger] self.entries@[j],
            )
    }

    /// Index of the entry with this key, if any.
    closed spec fn index_of(&self, k: (Seq<char>, Seq<char>)) -> int {
        choose|i: int| 0 <= i < self.entries@.len() && entry_key(#[trigger] self.entries@[i]) == k
    }

    /// The definitions, as a map from (namespace, name) to what is defined.
    pub closed spec fn map(&self) -> Map<(Seq<char>, Seq<char>), Extern> {
        Map::new(
            |k: (Seq<char>, Seq<char>)| exists|i: int| 0 <= i < self.entries@.len() && entry_key(#[trigger] self.entries@[i]) == k,
            |k: (Seq<char>, Seq<char>)| self.entries@[self.index_of(k)].2,
        )
    }

    /// No definitions.
    pub fn new() -> (r: Self)
        ensures
            r.wf(),
            r.map() == Map::<(Seq<char>, Seq<char>), Extern>::empty(),
    {
        let r = Self { entries: Vec::new() };
        assert(r.map() =~= Map::<(Seq<char>, Seq<char>), Extern>::empty());
        r
    }

    /// Index of the entry with key (`ns`, `name`), if any.
    fn find(&self, ns: &String, name: &String) -> (r: Option<usize>)
        requires
            self.wf(),
        ensures
            match r {
                Some(i) => i < self.entries@.len() && entry_key(self.entries@[i as int]) == (ns@, name@),
                None => forall|i: int|
                    0 <= i < self.entries@.len() ==> entry_key(#[trigger] self.entries@[i]) != (ns@, name@),
            },
    {
        let mut i: usize = 0;
        while i < self.entries.len()
            invariant
                0 <= i <= self.entries@.len(),
                forall|j: int| 0 <= j < i ==> entry_key(#[trigger] self.entries@[j]) != (ns@, name@),
            decreases self.entries@.len() - i,
        {
            let e = &self.entries[i];
            if e.0 == *ns && e.1 == *name {
                return Some(i);
            }
            i = i + 1;
        }
        None
    }

    /// Defines (`ns`, `name`), replacing any earlier definition of it.
    pub fn define(&mut self, ns: &str, name: &str, val: Extern)
        requires
            old(self).wf(),
        ensures
            final(self).wf(),
            final(self).map() == old(self).map().insert((ns@, name@), val),
    {
        let key_ns = ns.to_owned();
        let key_name = name.to_owned();
        let ghost k = (ns@, name@);
        let ghost before = self.entries@;
        let ghost old_map = self.map();
        match self.find(&key_ns, &key_name) {
            Some(i) => {
                let ghost v = val;
                self.entries.set(i, (key_ns, key_name, val));
                assert(self.wf()) by {
                    assert forall|a: int, b: int| 0 <= a < b < self.entries@.len() implies entry_key(
                        #[trigger] self.entries@[a],
                    ) != entry_key(#[trigger] self.entries@[b]) by {
                        assert(entry_key(self.entries@[a]) == entry_key(before[a]));
                        assert(entry_key(self.entries@[b]) == entry_key(before[b]));
                    }
                }
                assert forall|kk: (Seq<char>, Seq<char>)| #[trigger] self.map().contains_key(kk)
                    == old_map.insert(k, v).contains_key(kk) by {
                    if old_map.contains_key(kk) {
                        let j = choose|j: int| 0 <= j < before.len() && entry_key(#[trigger] before[j]) == kk;
                        assert(entry_key(self.entries@[j]) == kk);
                    }
                    if self.map().contains_key(kk) {
                        let j = choose|j: int| 0 <= j < self.entries@.len() && entry_key(#[trigger] self.entries@[j]) == kk;
                        assert(entry_key(before[j]) == kk);
                    }
                    assert(entry_key(self.entries@[i as int]) == k);
                }
                assert forall|kk: (Seq<char>, Seq<char>)| #[trigger] self.map().contains_key(kk)
                    implies self.map()[kk] == old_map.insert(k, v)[kk] by {
                    let j = self.index_of(kk);
                    assert(entry_key(self.entries@[j]) == kk);
                    if kk == k {
                        assert(entry_key(self.entries@[i as int]) == k);
                        assert(j == i);
                    } else {
                        let j0 = choose|j0: int| 0 <= j0 < before.len() && entry_key(#[trigger] before[j0]) == kk;
                        assert(entry_key(before[j]) == kk);
                        assert(old_map.contains_key(kk));
                        assert(j0 == j);
                    }
                }
                assert(self.map() =~= old_map.insert(k, v));
            },
            None => {
                let ghost v = val;
                self.entries.push((key_ns, key_name, val));
                let ghost n = before.len() as int;
                assert(self.wf()) by {
                    assert forall|a: int, b: int| 0 <= a < b < self.entries@.len() implies entry_key(
                        #[trigger] self.entries@[a],
                    ) != entry_key(#[trigger] self.entries@[b]) by {
                        assert(self.entries@[a] == before[a]);
                        if b < n {
                            assert(self.entries@[b] == before[b]);
                        }
                    }
                }
                assert forall|kk: (Seq<char>, Seq<char>)| #[trigger] self.map().contains_key(kk)
                    == old_map.insert(k, v).contains_key(kk) by {
                    if old_map.contains_key(kk) {
                        let j = choose|j: int| 0 <= j < before.len() && entry_key(#[trigger] before[j]) == kk;
                        assert(entry_key(self.entries@[j]) == kk);
                    }
                    if self.map().contains_key(kk) {
                        let j = choose|j: int| 0 <= j < self.entries@.len() && entry_key(#[trigger] self.entries@[j]) == kk;
                        if j < n {
                            assert(entry_key(before[j]) == kk);
                        }
                    }
                    assert(entry_key(self.entries@[n]) == k);
                }
                assert forall|kk: (Seq<char>, Seq<char>)| #[trigger] self.map().contains_key(kk)
                    implies self.map()[kk] == old_map.insert(k, v)[kk] by {
                    let j = self.index_of(kk);
                    assert(entry_key(self.entries@[j]) == kk);
                    if kk == k {
                        assert(entry_key(self.entries@[n]) == k);
                        assert(j == n);
                    } else {
                        assert(j < n);
                        assert(entry_key(before[j]) == kk);
                        let j0 = choose|j0: int| 0 <= j0 < before.len() && entry_key(#[trigger] before[j0]) == kk;
                        assert(j0 == j);
                    }
                }
                assert(self.map() =~= old_map.insert(k, v));
            },
        }
    }

    /// The definition of (`module`, `name`), if there is one.
    pub fn resolve(&self, module: &str, name: &str) -> (r: Option<&Extern>)
        requires
            self.wf(),
        ensures
            match r {
                Some(x) => self.map().contains_key((module@, name@)) && *x == self.map()[(module@, name@)],
                None => !self.map().contains_key((module@, name@)),
            },
    {
        let key_ns = module.to_owned();
        let key_name = name.to_owned();
        match self.find(&key_ns, &key_name) {
            Some(i) => {
                proof {
                    let k = (module@, name@);
                    assert(self.map().contains_key(k));
                    let j = self.index_of(k);
                    assert(entry_key(self.entries@[j]) == k);
                    assert(j == i);
                }
                Some(&self.entries[i].2)
            },
            None => None,
        }
    }
}

/// A name resolves to what was last defined for it, and defining one name
/// leaves every other name's resolution as it was.
pub proof fn law_resolve_after_define(
    before: Map<(Seq<char>, Seq<char>), Extern>,
    key: (Seq<char>, Seq<char>),
    val: Extern,
    other: (Seq<char>, Seq<char>),
)
    requires
        other != key,
    ensures
        before.insert(key, val).contains_key(key),
        before.insert(key, val)[key] == val,
        before.insert(key, val).contains_key(other) == before.contains_key(other),
        before.contains_key(other) ==> before.insert(key, val)[other] == before[other],
{
}

} // verus!
