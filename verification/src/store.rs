//! One transaction's typed view of the key-value store: the entities it
//! reads and writes, keyed as the key schema keys them. The surrounding
//! process fills it from a snapshot and commits it back; the operations in
//! `transaction` read and mutate it, and leave it untouched when they fail.

use vstd::prelude::*;
use crate::dir::Directory;
use crate::file_handler::FileHandler;
use crate::inode::{Inode, spec_blocks_for};
use crate::key::ROOT_INODE;
use crate::meta::Meta;
use crate::mode::FileType;
use crate::reply::DirItem;

verus! {

/// The contents of an association list, as a map.
pub open spec fn alist_map<K, V>(s: Seq<(K, V)>) -> Map<K, V>
    decreases s.len(),
{
    if s.len() == 0 {
        Map::empty()
    } else {
        alist_map(s.drop_last()).insert(s.last().0, s.last().1)
    }
}

/// No two entries carry the same key.
pub open spec fn alist_wf<K, V>(s: Seq<(K, V)>) -> bool {
    forall|i: int, j: int| 0 <= i < j < s.len() ==> (#[trigger] s[i]).0 != (#[trigger] s[j]).0
}

pub proof fn lemma_alist_absent<K, V>(s: Seq<(K, V)>, k: K)
    requires
        forall|i: int| 0 <= i < s.len() ==> (#[trigger] s[i]).0 != k,
    ensures
        !alist_map(s).contains_key(k),
    decreases s.len(),
{
    if s.len() > 0 {
        assert(s.drop_last() =~= s.take(s.len() - 1));
        assert forall|i: int| 0 <= i < s.drop_last().len() implies (#[trigger] s.drop_last()[i]).0
            != k by {
            assert(s[i] == s.drop_last()[i]);
        }
        lemma_alist_absent(s.drop_last(), k);
        assert(s.last() == s[s.len() - 1]);
    }
}

pub proof fn lemma_alist_at<K, V>(s: Seq<(K, V)>, i: int)
    requires
        alist_wf(s),
        0 <= i < s.len(),
    ensures
        alist_map(s).contains_key(s[i].0),
        alist_map(s)[s[i].0] == s[i].1,
    decreases s.len(),
{
    if i == s.len() - 1 {
        assert(s.last() == s[i]);
    } else {
        assert(alist_wf(s.drop_last())) by {
            assert forall|a: int, b: int| 0 <= a < b < s.drop_last().len() implies (
            #[trigger] s.drop_last()[a]).0 != (#[trigger] s.drop_last()[b]).0 by {
                assert(s[a] == s.drop_last()[a] && s[b] == s.drop_last()[b]);
            }
        }
        assert(s.drop_last()[i] == s[i]);
        lemma_alist_at(s.drop_last(), i);
        assert(s.last() == s[s.len() - 1]);
        assert(s[i].0 != s.last().0);
    }
}

pub proof fn lemma_alist_remove<K, V>(s: Seq<(K, V)>, i: int)
    requires
        alist_wf(s),
        0 <= i < s.len(),
    ensures
        alist_wf(s.remove(i)),
        alist_map(s.remove(i)) == alist_map(s).remove(s[i].0),
    decreases s.len(),
{
    let r = s.remove(i);
    s.remove_ensures(i);
    assert(alist_wf(r)) by {
        assert forall|a: int, b: int| 0 <= a < b < r.len() implies (#[trigger] r[a]).0 != (
        #[trigger] r[b]).0 by {
            let a2: int = if a < i { a } else { a + 1 };
            let b2: int = if b < i { b } else { b + 1 };
            assert(r[a] == s[a2] && r[b] == s[b2]);
        }
    }
    if i == s.len() - 1 {
        assert(r =~= s.drop_last());
        assert forall|j: int| 0 <= j < s.drop_last().len() implies (
        #[trigger] s.drop_last()[j]).0 != s[i].0 by {
            assert(s.drop_last()[j] == s[j]);
        }
        lemma_alist_absent(s.drop_last(), s[i].0);
        assert(alist_map(s) == alist_map(s.drop_last()).insert(s.last().0, s.last().1));
        assert(alist_map(r) =~= alist_map(s).remove(s[i].0));
    } else {
        assert(alist_wf(s.drop_last())) by {
            assert forall|a: int, b: int| 0 <= a < b < s.drop_last().len() implies (
            #[trigger] s.drop_last()[a]).0 != (#[trigger] s.drop_last()[b]).0 by {
                assert(s[a] == s.drop_last()[a] && s[b] == s.drop_last()[b]);
            }
        }
        assert(s.drop_last()[i] == s[i]);
        lemma_alist_remove(s.drop_last(), i);
        assert(r.drop_last() =~= s.drop_last().remove(i));
        assert(r.last() == s.last());
        assert(alist_map(r) == alist_map(s.drop_last().remove(i)).insert(
            s.last().0,
            s.last().1,
        ));
        assert(s[i].0 != s.last().0);
        assert(alist_map(r) =~= alist_map(s).remove(s[i].0));
    }
}

/// A map from inode ids to values, held as an association list.
pub struct U64Map<V> {
    pub entries: Vec<(u64, V)>,
}

impl<V> U64Map<V> {
    pub open spec fn view(&self) -> Map<u64, V> {
        alist_map(self.entries@)
    }

    pub open spec fn wf(&self) -> bool {
        alist_wf(self.entries@)
    }

    pub fn new() -> (r: Self)
        ensures
            r.wf(),
            r@ == Map::<u64, V>::empty(),
            r.entries@.len() == 0,
    {
        U64Map { entries: Vec::new() }
    }

    fn position(&self, k: u64) -> (r: Option<usize>)
        ensures
            match r {
                Some(i) => i < self.entries@.len() && self.entries@[i as int].0 == k,
                None => forall|i: int|
                    0 <= i < self.entries@.len() ==> (#[trigger] self.entries@[i]).0 != k,
            },
    {
        let mut i: usize = 0;
        while i < self.entries.len()
            invariant
                i <= self.entries@.len(),
                forall|j: int| 0 <= j < i ==> (#[trigger] self.entries@[j]).0 != k,
            decreases self.entries@.len() - i,
        {
            if self.entries[i].0 == k {
                return Some(i);
            }
            i += 1;
        }
        None
    }

    pub fn contains(&self, k: u64) -> (r: bool)
        requires
            self.wf(),
        ensures
            r == self@.contains_key(k),
    {
        match self.position(k) {
            Some(i) => {
                proof {
                    lemma_alist_at(self.entries@, i as int);
                }
                true
            }
            None => {
                proof {
                    lemma_alist_absent(self.entries@, k);
                }
                false
            }
        }
    }

    pub fn get(&self, k: u64) -> (r: Option<&V>)
        requires
            self.wf(),
        ensures
            match r {
                Some(v) => self@.contains_key(k) && *v == self@[k],
                None => !self@.contains_key(k),
            },
    {
        match self.position(k) {
            Some(i) => {
                proof {
                    lemma_alist_at(self.entries@, i as int);
                }
                Some(&self.entries[i].1)
            }
            None => {
                proof {
                    lemma_alist_absent(self.entries@, k);
                }
                None
            }
        }
    }

    /// Removes and hands back the value under `k`.
    pub fn take(&mut self, k: u64) -> (r: Option<V>)
        requires
            old(self).wf(),
        ensures
            final(self).wf(),
            match r {
                Some(v) => old(self)@.contains_key(k) && v == old(self)@[k] && final(self)@
                    == old(self)@.remove(k),
                None => !old(self)@.contains_key(k) && *final(self) == *old(self),
            },
    {
        match self.position(k) {
            Some(i) => {
                proof {
                    lemma_alist_at(self.entries@, i as int);
                    lemma_alist_remove(self.entries@, i as int);
                }
                let (_, v) = self.entries.remove(i);
                Some(v)
            }
            None => {
                proof {
                    lemma_alist_absent(self.entries@, k);
                }
                None
            }
        }
    }

    pub fn remove(&mut self, k: u64)
        requires
            old(self).wf(),
        ensures
            final(self).wf(),
            final(self)@ == old(self)@.remove(k),
    {
        let r = self.take(k);
        proof {
            if r is None {
                assert(final(self)@ =~= old(self)@.remove(k));
            }
        }
    }

    pub fn insert(&mut self, k: u64, v: V)
        requires
            old(self).wf(),
        ensures
            final(self).wf(),
            final(self)@ == old(self)@.insert(k, v),
    {
        self.remove(k);
        let ghost mid = self.entries@;
        proof {
            assert forall|i: int| 0 <= i < mid.len() implies (#[trigger] mid[i]).0 != k by {
                if mid[i].0 == k {
                    lemma_alist_at(mid, i);
                }
            }
            lemma_alist_absent(mid, k);
        }
        self.entries.push((k, v));
        proof {
            assert(self.entries@.drop_last() =~= mid);
            assert(self.entries@.last() == (k, v));
            assert forall|a: int, b: int| 0 <= a < b < self.entries@.len() implies (
            #[trigger] self.entries@[a]).0 != (#[trigger] self.entries@[b]).0 by {
                if b < self.entries@.len() - 1 {
                    assert(mid[a] == self.entries@[a] && mid[b] == self.entries@[b]);
                } else {
                    assert(self.entries@[b] == (k, v));
                    assert(mid[a] == self.entries@[a]);
                    if self.entries@[a].0 == k {
                        lemma_alist_at(mid, a);
                    }
                }
            }
            assert(final(self)@ =~= old(self)@.insert(k, v));
        }
    }
}

/// How many entries carry `ino` as their first key component.
pub open spec fn count_fst<V>(s: Seq<((u64, u64), V)>, ino: u64) -> nat
    decreases s.len(),
{
    if s.len() == 0 {
        0
    } else {
        count_fst(s.drop_last(), ino) + if s.last().0.0 == ino {
            1nat
        } else {
            0nat
        }
    }
}

/// Removing entry `i` lowers the count of its inode by one and leaves
/// every other count alone.
pub proof fn lemma_count_fst_remove<V>(s: Seq<((u64, u64), V)>, i: int)
    requires
        0 <= i < s.len(),
    ensures
        forall|ino: u64|
            count_fst(s.remove(i), ino) == count_fst(s, ino) - (if s[i].0.0 == ino {
                1int
            } else {
                0int
            }),
    decreases s.len(),
{
    if i == s.len() - 1 {
        assert(s.remove(i) =~= s.drop_last());
    } else {
        lemma_count_fst_remove(s.drop_last(), i);
        assert(s.remove(i).drop_last() =~= s.drop_last().remove(i));
        assert(s.remove(i).last() == s.last());
        assert(s.drop_last()[i] == s[i]);
        assert forall|ino: u64| count_fst(s.remove(i), ino) == count_fst(s, ino) - (if s[i].0.0
            == ino {
            1int
        } else {
            0int
        }) by {
            assert(count_fst(s.remove(i), ino) == count_fst(s.remove(i).drop_last(), ino) + (
            if s.remove(i).last().0.0 == ino {
                1nat
            } else {
                0nat
            }));
        }
    }
}

/// A map keyed by an inode id and a second 64-bit index: data blocks and
/// open handles.
pub struct PairMap<V> {
    pub entries: Vec<((u64, u64), V)>,
}

impl<V> PairMap<V> {
    pub open spec fn view(&self) -> Map<(u64, u64), V> {
        alist_map(self.entries@)
    }

    pub open spec fn wf(&self) -> bool {
        alist_wf(self.entries@)
    }

    pub fn new() -> (r: Self)
        ensures
            r.wf(),
            r@ == Map::<(u64, u64), V>::empty(),
            r.entries@.len() == 0,
    {
        PairMap { entries: Vec::new() }
    }

    fn position(&self, k: (u64, u64)) -> (r: Option<usize>)
        ensures
            match r {
                Some(i) => i < self.entries@.len() && self.entries@[i as int].0 == k,
                None => forall|i: int|
                    0 <= i < self.entries@.len() ==> (#[trigger] self.entries@[i]).0 != k,
            },
    {
        let mut i: usize = 0;
        while i < self.entries.len()
            invariant
                i <= self.entries@.len(),
                forall|j: int| 0 <= j < i ==> (#[trigger] self.entries@[j]).0 != k,
            decreases self.entries@.len() - i,
        {
            if self.entries[i].0.0 == k.0 && self.entries[i].0.1 == k.1 {
                proof {
                    assert(self.entries@[i as int].0 == k);
                }
                return Some(i);
            }
            i += 1;
        }
        None
    }

    pub fn contains(&self, k: (u64, u64)) -> (r: bool)
        requires
            self.wf(),
        ensures
            r == self@.contains_key(k),
    {
        match self.position(k) {
            Some(i) => {
                proof {
                    lemma_alist_at(self.entries@, i as int);
                }
                true
            }
            None => {
                proof {
                    lemma_alist_absent(self.entries@, k);
                }
                false
            }
        }
    }

    pub fn get(&self, k: (u64, u64)) -> (r: Option<&V>)
        requires
            self.wf(),
        ensures
            match r {
                Some(v) => self@.contains_key(k) && *v == self@[k],
                None => !self@.contains_key(k),
            },
    {
        match self.position(k) {
            Some(i) => {
                proof {
                    lemma_alist_at(self.entries@, i as int);
                }
                Some(&self.entries[i].1)
            }
            None => {
                proof {
                    lemma_alist_absent(self.entries@, k);
                }
                None
            }
        }
    }

    pub fn take(&mut self, k: (u64, u64)) -> (r: Option<V>)
        requires
            old(self).wf(),
        ensures
            final(self).wf(),
            match r {
                Some(v) => old(self)@.contains_key(k) && v == old(self)@[k] && final(self)@
                    == old(self)@.remove(k),
                None => !old(self)@.contains_key(k) && *final(self) == *old(self),
            },
            forall|ino: u64|
                count_fst(final(self).entries@, ino) == count_fst(old(self).entries@, ino) - (
                if old(self)@.contains_key(k) && k.0 == ino {
                    1int
                } else {
                    0int
                }),
    {
        match self.position(k) {
            Some(i) => {
                proof {
                    lemma_alist_at(self.entries@, i as int);
                    lemma_alist_remove(self.entries@, i as int);
                    lemma_count_fst_remove(self.entries@, i as int);
                }
                let (_, v) = self.entries.remove(i);
                Some(v)
            }
            None => {
                proof {
                    lemma_alist_absent(self.entries@, k);
                }
                None
            }
        }
    }

    pub fn remove(&mut self, k: (u64, u64))
        requires
            old(self).wf(),
        ensures
            final(self).wf(),
            final(self)@ == old(self)@.remove(k),
            forall|ino: u64|
                count_fst(final(self).entries@, ino) == count_fst(old(self).entries@, ino) - (
                if old(self)@.contains_key(k) && k.0 == ino {
                    1int
                } else {
                    0int
                }),
    {
        let r = self.take(k);
        proof {
            if r is None {
                assert(final(self)@ =~= old(self)@.remove(k));
            }
        }
    }

    pub fn insert(&mut self, k: (u64, u64), v: V)
        requires
            old(self).wf(),
        ensures
            final(self).wf(),
            final(self)@ == old(self)@.insert(k, v),
            forall|ino: u64|
                count_fst(final(self).entries@, ino) == count_fst(old(self).entries@, ino) - (
                if old(self)@.contains_key(k) && k.0 == ino {
                    1int
                } else {
                    0int
                }) + (if k.0 == ino {
                    1int
                } else {
                    0int
                }),
    {
        self.remove(k);
        let ghost mid = self.entries@;
        proof {
            assert forall|i: int| 0 <= i < mid.len() implies (#[trigger] mid[i]).0 != k by {
                if mid[i].0 == k {
                    lemma_alist_at(mid, i);
                }
            }
            lemma_alist_absent(mid, k);
        }
        self.entries.push((k, v));
        proof {
            assert(self.entries@.drop_last() =~= mid);
            assert(self.entries@.last() == (k, v));
            assert forall|a: int, b: int| 0 <= a < b < self.entries@.len() implies (
            #[trigger] self.entries@[a]).0 != (#[trigger] self.entries@[b]).0 by {
                if b < self.entries@.len() - 1 {
                    assert(mid[a] == self.entries@[a] && mid[b] == self.entries@[b]);
                } else {
                    assert(self.entries@[b] == (k, v));
                    assert(mid[a] == self.entries@[a]);
                    if self.entries@[a].0 == k {
                        lemma_alist_at(mid, a);
                    }
                }
            }
            assert(final(self)@ =~= old(self)@.insert(k, v));
            assert forall|ino: u64| count_fst(self.entries@, ino) == count_fst(mid, ino) + (
            if k.0 == ino {
                1int
            } else {
                0int
            }) by {
                assert(count_fst(self.entries@, ino) == count_fst(self.entries@.drop_last(), ino)
                    + (if self.entries@.last().0.0 == ino {
                    1nat
                } else {
                    0nat
                }));
                assert(count_fst(self.entries@.drop_last(), ino) == count_fst(mid, ino));
            }
        }
    }
}

/// Two byte strings hold the same bytes.
pub fn bytes_eq(a: &Vec<u8>, b: &Vec<u8>) -> (r: bool)
    ensures
        r == (a@ == b@),
{
    if a.len() != b.len() {
        proof {
            assert(a@ != b@);
        }
        return false;
    }
    let mut i: usize = 0;
    while i < a.len()
        invariant
            i <= a@.len(),
            a@.len() == b@.len(),
            forall|j: int| 0 <= j < i ==> a@[j] == b@[j],
        decreases a@.len() - i,
    {
        if a[i] != b[i] {
            proof {
                assert(a@ != b@);
            }
            return false;
        }
        i += 1;
    }
    proof {
        assert(a@ =~= b@);
    }
    true
}

/// One name-index entry: parent inode, child name, child inode.
pub type IndexEntry = (u64, Vec<u8>, u64);

/// The entries as key-value pairs over mathematical names.
pub open spec fn imap_seq(s: Seq<IndexEntry>) -> Seq<((u64, Seq<u8>), u64)> {
    Seq::new(s.len(), |i: int| ((s[i].0, s[i].1@), s[i].2))
}

/// How many index entries point at `ino`: the link count the entry's
/// inode must carry.
pub open spec fn count_links(s: Seq<IndexEntry>, ino: u64) -> nat
    decreases s.len(),
{
    if s.len() == 0 {
        0
    } else {
        count_links(s.drop_last(), ino) + if s.last().2 == ino {
            1nat
        } else {
            0nat
        }
    }
}

/// The authoritative name-to-inode map, keyed by parent inode and name.
pub struct IndexMap {
    pub entries: Vec<IndexEntry>,
}

impl IndexMap {
    pub open spec fn view(&self) -> Map<(u64, Seq<u8>), u64> {
        alist_map(imap_seq(self.entries@))
    }

    pub open spec fn wf(&self) -> bool {
        alist_wf(imap_seq(self.entries@))
    }

    pub fn new() -> (r: Self)
        ensures
            r.wf(),
            r@ == Map::<(u64, Seq<u8>), u64>::empty(),
            r.entries@.len() == 0,
    {
        proof {
            assert(imap_seq(Seq::<IndexEntry>::empty()) =~= Seq::<(
                (u64, Seq<u8>),
                u64,
            )>::empty());
        }
        IndexMap { entries: Vec::new() }
    }

    fn position(&self, parent: u64, name: &Vec<u8>) -> (r: Option<usize>)
        ensures
            match r {
                Some(i) => i < self.entries@.len() && self.entries@[i as int].0 == parent
                    && self.entries@[i as int].1@ == name@,
                None => forall|i: int|
                    0 <= i < self.entries@.len() ==> (#[trigger] self.entries@[i]).0 != parent
                        || self.entries@[i].1@ != name@,
            },
    {
        let mut i: usize = 0;
        while i < self.entries.len()
            invariant
                i <= self.entries@.len(),
                forall|j: int|
                    0 <= j < i ==> (#[trigger] self.entries@[j]).0 != parent
                        || self.entries@[j].1@ != name@,
            decreases self.entries@.len() - i,
        {
            if self.entries[i].0 == parent && bytes_eq(&self.entries[i].1, name) {
                return Some(i);
            }
            i += 1;
        }
        None
    }

    pub fn get(&self, parent: u64, name: &Vec<u8>) -> (r: Option<u64>)
        requires
            self.wf(),
        ensures
            match r {
                Some(ino) => self@.contains_key((parent, name@)) && ino == self@[(parent, name@)],
                None => !self@.contains_key((parent, name@)),
            },
    {
        let s = Ghost(imap_seq(self.entries@));
        match self.position(parent, name) {
            Some(i) => {
                proof {
                    assert(s@[i as int] == ((parent, name@), self.entries@[i as int].2));
                    lemma_alist_at(s@, i as int);
                }
                Some(self.entries[i].2)
            }
            None => {
                proof {
                    assert forall|i: int| 0 <= i < s@.len() implies (#[trigger] s@[i]).0 != (
                        parent,
                        name@,
                    ) by {
                        assert(s@[i] == ((self.entries@[i].0, self.entries@[i].1@),
                            self.entries@[i].2));
                    }
                    lemma_alist_absent(s@, (parent, name@));
                }
                None
            }
        }
    }

    pub fn remove(&mut self, parent: u64, name: &Vec<u8>)
        requires
            old(self).wf(),
        ensures
            final(self).wf(),
            final(self)@ == old(self)@.remove((parent, name@)),
            forall|ino: u64|
                count_links(final(self).entries@, ino) == count_links(old(self).entries@, ino)
                    - (if old(self)@.contains_key((parent, name@)) && old(self)@[(parent, name@)]
                    == ino {
                    1int
                } else {
                    0int
                }),
    {
        let ghost s = imap_seq(self.entries@);
        match self.position(parent, name) {
            Some(i) => {
                proof {
                    assert(s[i as int] == ((parent, name@), self.entries@[i as int].2));
                    lemma_alist_at(s, i as int);
                    lemma_alist_remove(s, i as int);
                    assert(imap_seq(self.entries@.remove(i as int)) =~= s.remove(i as int));
                    lemma_count_links_remove(self.entries@, i as int);
                }
                self.entries.remove(i);
            }
            None => {
                proof {
                    assert forall|i: int| 0 <= i < s.len() implies (#[trigger] s[i]).0 != (
                        parent,
                        name@,
                    ) by {
                        assert(s[i] == ((self.entries@[i].0, self.entries@[i].1@),
                            self.entries@[i].2));
                    }
                    lemma_alist_absent(s, (parent, name@));
                    assert(final(self)@ =~= old(self)@.remove((parent, name@)));
                }
            }
        }
    }

    pub fn insert(&mut self, parent: u64, name: Vec<u8>, ino: u64)
        requires
            old(self).wf(),
        ensures
            final(self).wf(),
            final(self)@ == old(self)@.insert((parent, name@), ino),
            forall|x: u64|
                count_links(final(self).entries@, x) == count_links(old(self).entries@, x) - (
                if old(self)@.contains_key((parent, name@)) && old(self)@[(parent, name@)] == x {
                    1int
                } else {
                    0int
                }) + (if x == ino {
                    1int
                } else {
                    0int
                }),
    {
        self.remove(parent, &name);
        let ghost mid = self.entries@;
        let ghost ms = imap_seq(mid);
        proof {
            assert forall|i: int| 0 <= i < ms.len() implies (#[trigger] ms[i]).0 != (
                parent,
                name@,
            ) by {
                if ms[i].0 == (parent, name@) {
                    assert(ms[i] == ((mid[i].0, mid[i].1@), mid[i].2));
                    lemma_alist_at(ms, i);
                }
            }
            lemma_alist_absent(ms, (parent, name@));
        }
        self.entries.push((parent, name, ino));
        proof {
            let ns = imap_seq(self.entries@);
            assert(self.entries@.drop_last() =~= mid);
            assert(ns.drop_last() =~= ms);
            assert(ns.last() == ((parent, name@), ino));
            assert(ns == ns.drop_last().push(ns.last()));
            assert(alist_map(ns) == alist_map(ns.drop_last()).insert(ns.last().0, ns.last().1));
            assert forall|a: int, b: int| 0 <= a < b < ns.len() implies (#[trigger] ns[a]).0 != (
            #[trigger] ns[b]).0 by {
                if b < ns.len() - 1 {
                    assert(ms[a] == ns[a] && ms[b] == ns[b]);
                } else {
                    assert(ns[b] == ((parent, name@), ino));
                    assert(ms[a] == ns[a]);
                    if ns[a].0 == (parent, name@) {
                        lemma_alist_at(ms, a);
                    }
                }
            }
            assert(final(self)@ =~= old(self)@.insert((parent, name@), ino));
            assert forall|x: u64| count_links(self.entries@, x) == count_links(mid, x) + (if x
                == ino {
                1int
            } else {
                0int
            }) by {
                assert(count_links(self.entries@, x) == count_links(self.entries@.drop_last(), x)
                    + (if self.entries@.last().2 == x {
                    1nat
                } else {
                    0nat
                }));
                assert(count_links(self.entries@.drop_last(), x) == count_links(mid, x));
            }
        }
    }
}

/// Removing entry `i` lowers the count of the inode it names by one and
/// leaves every other count alone.
pub proof fn lemma_count_links_remove(s: Seq<IndexEntry>, i: int)
    requires
        0 <= i < s.len(),
    ensures
        forall|ino: u64|
            count_links(s.remove(i), ino) == count_links(s, ino) - (if s[i].2 == ino {
                1int
            } else {
                0int
            }),
    decreases s.len(),
{
    if i == s.len() - 1 {
        assert(s.remove(i) =~= s.drop_last());
    } else {
        lemma_count_links_remove(s.drop_last(), i);
        assert(s.remove(i).drop_last() =~= s.drop_last().remove(i));
        assert(s.remove(i).last() == s.last());
        assert(s.drop_last()[i] == s[i]);
        assert forall|ino: u64| count_links(s.remove(i), ino) == count_links(s, ino) - (if s[i].2
            == ino {
            1int
        } else {
            0int
        }) by {
            assert(count_links(s.remove(i), ino) == count_links(s.remove(i).drop_last(), ino) + (
            if s.remove(i).last().2 == ino {
                1nat
            } else {
                0nat
            }));
        }
    }
}

/// A map with no entries names no inode.
pub proof fn lemma_count_links_empty(s: Seq<IndexEntry>)
    requires
        s.len() == 0,
    ensures
        forall|ino: u64| count_links(s, ino) == 0,
{
}

} // verus!

use vstd::prelude::*;

verus! {

/// The typed snapshot one transaction works on.
pub struct Store {
    pub meta: Option<Meta>,
    pub inodes: U64Map<Inode>,
    pub dirs: U64Map<Directory>,
    pub blocks: PairMap<Vec<u8>>,
    pub handlers: PairMap<FileHandler>,
    pub index: IndexMap,
}

/// No two items of a directory carry the same name.
pub open spec fn dir_names_unique(items: Seq<DirItem>) -> bool {
    forall|i: int, j: int|
        0 <= i < j < items.len() ==> (#[trigger] items[i]).name@ != (#[trigger] items[j]).name@
}

/// Some item of the directory carries this name, and it names this inode.
pub open spec fn dir_has_entry(items: Seq<DirItem>, name: Seq<u8>, ino: u64) -> bool {
    exists|i: int| 0 <= i < items.len() && (#[trigger] items[i]).name@ == name && items[i].ino == ino
}

/// Some item of the directory carries this name.
pub open spec fn dir_has_name(items: Seq<DirItem>, name: Seq<u8>) -> bool {
    exists|i: int| 0 <= i < items.len() && (#[trigger] items[i]).name@ == name
}

impl Store {
    pub fn new() -> (r: Store)
        ensures
            r.meta is None,
            r.inodes@ == Map::<u64, Inode>::empty(),
            r.dirs@ == Map::<u64, Directory>::empty(),
            r.blocks@ == Map::<(u64, u64), Vec<u8>>::empty(),
            r.handlers@ == Map::<(u64, u64), FileHandler>::empty(),
            r.index@ == Map::<(u64, Seq<u8>), u64>::empty(),
            r.maps_wf(),
            r.handlers.entries@.len() == 0,
            r.index.entries@.len() == 0,
    {
        Store {
            meta: None,
            inodes: U64Map::new(),
            dirs: U64Map::new(),
            blocks: PairMap::new(),
            handlers: PairMap::new(),
            index: IndexMap::new(),
        }
    }

    pub open spec fn maps_wf(self) -> bool {
        &&& self.inodes.wf()
        &&& self.dirs.wf()
        &&& self.blocks.wf()
        &&& self.handlers.wf()
        &&& self.index.wf()
    }

    pub open spec fn inode_of(self, ino: u64) -> Option<Inode> {
        if self.inodes@.contains_key(ino) {
            Some(self.inodes@[ino])
        } else {
            None
        }
    }

    pub open spec fn dir_of(self, ino: u64) -> Option<Seq<DirItem>> {
        if self.dirs@.contains_key(ino) {
            Some(self.dirs@[ino]@)
        } else {
            None
        }
    }

    pub open spec fn block_of(self, ino: u64, b: u64) -> Option<Seq<u8>> {
        if self.blocks@.contains_key((ino, b)) {
            Some(self.blocks@[(ino, b)]@)
        } else {
            None
        }
    }

    pub open spec fn handler_of(self, ino: u64, fh: u64) -> Option<FileHandler> {
        if self.handlers@.contains_key((ino, fh)) {
            Some(self.handlers@[(ino, fh)])
        } else {
            None
        }
    }

    pub open spec fn index_of(self, parent: u64, name: Seq<u8>) -> Option<u64> {
        if self.index@.contains_key((parent, name)) {
            Some(self.index@[(parent, name)])
        } else {
            None
        }
    }

    /// The inode id the next allocation hands out.
    pub open spec fn alloc_ino(self) -> u64 {
        match self.meta {
            None => ROOT_INODE,
            Some(m) => m.inode_next,
        }
    }

    /// Byte `i` of the file stored under `ino`: inline data when present,
    /// otherwise the byte of the covering block; holes and short blocks
    /// read as zero.
    pub open spec fn file_byte(self, bs: u64, ino: u64, i: int) -> u8 {
        match self.inode_of(ino) {
            None => 0,
            Some(ind) => match ind.inline_data {
                Some(d) => if 0 <= i < d@.len() {
                    d@[i]
                } else {
                    0
                },
                None => {
                    let b = i / bs as int;
                    let off = i % bs as int;
                    if 0 <= b <= u64::MAX {
                        match self.block_of(ino, b as u64) {
                            Some(blk) => if off < blk.len() {
                                blk[off]
                            } else {
                                0
                            },
                            None => 0,
                        }
                    } else {
                        0
                    }
                },
            },
        }
    }

    /// The well-formedness of one inode record within this store.
    pub open spec fn wf_inode_at(self, bs: u64, ino: u64) -> bool {
        let ind = self.inodes@[ino];
        &&& ind.file_attr.ino == ino
        &&& ind.file_attr.size <= i64::MAX
        &&& ind.file_attr.blocks == spec_blocks_for(ind.file_attr.size, bs)
        &&& ind.lock_state.wf()
        &&& (ind.inline_data matches Some(d) ==> d@.len() == ind.file_attr.size && (
        ind.file_attr.kind == FileType::Symlink || ind.file_attr.size <= bs / 16))
        &&& ind.file_attr.nlink == count_links(self.index.entries@, ino) + (if ino == ROOT_INODE {
            1int
        } else {
            0int
        })
        &&& ind.opened_fh == count_fst(self.handlers.entries@, ino)
    }

    /// The store's whole well-formedness: what every transaction preserves
    /// from one commit to the next.
    ///
    /// - inode ids stay below the allocator, and the root exists once
    ///   anything was allocated;
    /// - every inode record is internally coherent: its block figure is
    ///   `ceil(size / block_size)`, its lock state matches its owner
    ///   count, its link count equals the number of index entries naming
    ///   it (plus one for the root), and its open-handle count equals the
    ///   number of live handles;
    /// - the name index and the directories agree: every index entry has
    ///   exactly one directory item of that name, naming the same inode,
    ///   and every directory item has its index entry;
    /// - every live handle belongs to a live inode and sits below its
    ///   handle allocator.
    pub open spec fn wf(self, bs: u64) -> bool {
        &&& self.maps_wf()
        &&& bs >= 1
        &&& (self.meta is None ==> forall|ino: u64| !self.inodes@.contains_key(ino))
        &&& (self.meta matches Some(m) ==> {
            &&& m.inode_next >= ROOT_INODE
            &&& (forall|ino: u64|
                self.inodes@.contains_key(ino) ==> ROOT_INODE <= ino < m.inode_next)
            &&& (m.inode_next > ROOT_INODE ==> self.inodes@.contains_key(ROOT_INODE))
        })
        &&& (forall|p: u64| #[trigger] self.dirs@.contains_key(p) ==> p < self.alloc_ino())
        &&& (self.alloc_ino() == ROOT_INODE ==> forall|p: u64| !self.dirs@.contains_key(p))
        &&& (forall|ino: u64|
            self.inodes@.contains_key(ino) ==> #[trigger] self.wf_inode_at(bs, ino))
        &&& (forall|parent: u64, name: Seq<u8>|
            #[trigger] self.index@.contains_key((parent, name)) ==> {
                &&& self.inodes@.contains_key(self.index@[(parent, name)])
                &&& self.dirs@.contains_key(parent)
                &&& dir_has_entry(self.dirs@[parent]@, name, self.index@[(parent, name)])
            })
        &&& (forall|p: u64|
            #[trigger] self.dirs@.contains_key(p) ==> {
                &&& dir_names_unique(self.dirs@[p]@)
                &&& (forall|i: int|
                    0 <= i < self.dirs@[p]@.len() ==> {
                        &&& self.index@.contains_key((p, (#[trigger] self.dirs@[p]@[i]).name@))
                        &&& self.index@[(p, self.dirs@[p]@[i].name@)] == self.dirs@[p]@[i].ino
                    })
            })
        &&& (forall|k: (u64, u64)|
            #[trigger] self.handlers@.contains_key(k) ==> self.inodes@.contains_key(k.0)
                && k.1 < self.inodes@[k.0].next_fh)
    }
}

} // verus!

verus! {

/// A key the map holds sits in some entry, carrying the map's value.
pub proof fn lemma_alist_exists_entry<K, V>(s: Seq<(K, V)>, k: K)
    requires
        alist_map(s).contains_key(k),
    ensures
        exists|i: int|
            0 <= i < s.len() && (#[trigger] s[i]).0 == k && s[i].1 == alist_map(s)[k],
    decreases s.len(),
{
    if s.len() > 0 {
        if s.last().0 == k {
            assert(s[s.len() - 1] == s.last());
        } else {
            lemma_alist_exists_entry(s.drop_last(), k);
            let i = choose|i: int|
                0 <= i < s.drop_last().len() && (#[trigger] s.drop_last()[i]).0 == k
                    && s.drop_last()[i].1 == alist_map(s.drop_last())[k];
            assert(s[i] == s.drop_last()[i]);
        }
    }
}

/// An entry with this inode keeps its count at one at least.
pub proof fn lemma_count_fst_at<V>(s: Seq<((u64, u64), V)>, i: int)
    requires
        0 <= i < s.len(),
    ensures
        count_fst(s, s[i].0.0) >= 1,
    decreases s.len(),
{
    if i == s.len() - 1 {
        assert(s.last() == s[i]);
    } else {
        assert(s.drop_last()[i] == s[i]);
        lemma_count_fst_at(s.drop_last(), i);
    }
}

/// A zero count means no entry carries the inode.
pub proof fn lemma_count_fst_zero<V>(s: Seq<((u64, u64), V)>, ino: u64)
    requires
        count_fst(s, ino) == 0,
    ensures
        forall|i: int| 0 <= i < s.len() ==> (#[trigger] s[i]).0.0 != ino,
{
    assert forall|i: int| 0 <= i < s.len() implies (#[trigger] s[i]).0.0 != ino by {
        if s[i].0.0 == ino {
            lemma_count_fst_at(s, i);
        }
    }
}

/// The count never exceeds the number of entries.
pub proof fn lemma_count_fst_le_len<V>(s: Seq<((u64, u64), V)>, ino: u64)
    ensures
        count_fst(s, ino) <= s.len(),
    decreases s.len(),
{
    if s.len() > 0 {
        lemma_count_fst_le_len(s.drop_last(), ino);
    }
}

/// An entry naming this inode keeps its link count at one at least.
pub proof fn lemma_count_links_at(s: Seq<IndexEntry>, i: int)
    requires
        0 <= i < s.len(),
    ensures
        count_links(s, s[i].2) >= 1,
    decreases s.len(),
{
    if i == s.len() - 1 {
        assert(s.last() == s[i]);
    } else {
        assert(s.drop_last()[i] == s[i]);
        lemma_count_links_at(s.drop_last(), i);
    }
}

/// Two distinct entries pointing at one inode keep its count at two at
/// least.
pub proof fn lemma_count_links_at_two(s: Seq<IndexEntry>, i: int, j: int)
    requires
        0 <= i < s.len(),
        0 <= j < s.len(),
        i != j,
        s[i].2 == s[j].2,
    ensures
        count_links(s, s[i].2) >= 2,
    decreases s.len(),
{
    let k = if i > j {
        i
    } else {
        j
    };
    let m = if i > j {
        j
    } else {
        i
    };
    if k == s.len() - 1 {
        assert(s.last() == s[k]);
        assert(s.drop_last()[m] == s[m]);
        lemma_count_links_at(s.drop_last(), m);
    } else {
        assert(s.drop_last()[i] == s[i]);
        assert(s.drop_last()[j] == s[j]);
        lemma_count_links_at_two(s.drop_last(), i, j);
    }
}

/// A zero link count means no index entry names the inode.
pub proof fn lemma_count_links_zero(s: Seq<IndexEntry>, ino: u64)
    requires
        count_links(s, ino) == 0,
    ensures
        forall|i: int| 0 <= i < s.len() ==> (#[trigger] s[i]).2 != ino,
{
    assert forall|i: int| 0 <= i < s.len() implies (#[trigger] s[i]).2 != ino by {
        if s[i].2 == ino {
            lemma_count_links_at(s, i);
        }
    }
}

/// If no entry names the inode, its link count is zero.
pub proof fn lemma_count_links_none(s: Seq<IndexEntry>, ino: u64)
    requires
        forall|i: int| 0 <= i < s.len() ==> (#[trigger] s[i]).2 != ino,
    ensures
        count_links(s, ino) == 0,
    decreases s.len(),
{
    if s.len() > 0 {
        assert forall|i: int| 0 <= i < s.drop_last().len() implies (
        #[trigger] s.drop_last()[i]).2 != ino by {
            assert(s[i] == s.drop_last()[i]);
        }
        lemma_count_links_none(s.drop_last(), ino);
        assert(s.last() == s[s.len() - 1]);
    }
}

/// If no entry carries the inode, its handle count is zero.
pub proof fn lemma_count_fst_none<V>(s: Seq<((u64, u64), V)>, ino: u64)
    requires
        forall|i: int| 0 <= i < s.len() ==> (#[trigger] s[i]).0.0 != ino,
    ensures
        count_fst(s, ino) == 0,
    decreases s.len(),
{
    if s.len() > 0 {
        assert forall|i: int| 0 <= i < s.drop_last().len() implies (
        #[trigger] s.drop_last()[i]).0.0 != ino by {
            assert(s[i] == s.drop_last()[i]);
        }
        lemma_count_fst_none(s.drop_last(), ino);
        assert(s.last() == s[s.len() - 1]);
    }
}

/// Two distinct entries naming one inode put its link count at two at
/// least.
pub proof fn lemma_count_links_pair(s: Seq<IndexEntry>, j1: int, j2: int)
    requires
        0 <= j1 < j2 < s.len(),
        s[j1].2 == s[j2].2,
    ensures
        count_links(s, s[j1].2) >= 2,
    decreases s.len(),
{
    if j2 == s.len() - 1 {
        assert(s.last() == s[j2]);
        assert(s.drop_last()[j1] == s[j1]);
        lemma_count_links_at(s.drop_last(), j1);
    } else {
        assert(s.drop_last()[j1] == s[j1]);
        assert(s.drop_last()[j2] == s[j2]);
        lemma_count_links_pair(s.drop_last(), j1, j2);
    }
}

/// The link count never exceeds the number of entries.
pub proof fn lemma_count_links_le_len(s: Seq<IndexEntry>, ino: u64)
    ensures
        count_links(s, ino) <= s.len(),
    decreases s.len(),
{
    if s.len() > 0 {
        lemma_count_links_le_len(s.drop_last(), ino);
    }
}

} // verus!
