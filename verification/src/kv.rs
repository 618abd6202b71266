//! One keyspace of the store: byte keys associated with byte values.
//!
//! A `Space` never holds a key twice; it is read, in specifications, as a
//! `Map` from key bytes to value bytes.

use vstd::prelude::*;

use crate::codec::{bytes_eq, copy_range};

verus! {

/// A keyspace: rows of key and value bytes, each key held at most once.
pub struct Space {
    rows: Vec<(Vec<u8>, Vec<u8>)>,
}

/// No two rows share a key.
pub open spec fn distinct_keys(s: Seq<(Vec<u8>, Vec<u8>)>) -> bool {
    forall|i: int, j: int| 0 <= i < j < s.len() ==> s[i].0@ != s[j].0@
}

/// The rows read as a map; a later row would shadow an earlier one, though
/// a well-formed space never holds a key twice.
pub open spec fn assoc_map(s: Seq<(Vec<u8>, Vec<u8>)>) -> Map<Seq<u8>, Seq<u8>>
    decreases s.len(),
{
    if s.len() == 0 {
        Map::empty()
    } else {
        assoc_map(s.drop_last()).insert(s.last().0@, s.last().1@)
    }
}

/// A key is in the map exactly when some row holds it.
proof fn lemma_assoc_contains(s: Seq<(Vec<u8>, Vec<u8>)>, k: Seq<u8>)
    ensures
        assoc_map(s).contains_key(k) <==> exists|i: int| 0 <= i < s.len() && s[i].0@ == k,
    decreases s.len(),
{
    if s.len() > 0 {
        lemma_assoc_contains(s.drop_last(), k);
        if assoc_map(s).contains_key(k) {
            if s.last().0@ == k {
                assert(s[s.len() - 1].0@ == k);
            } else {
                let i = choose|i: int| 0 <= i < s.drop_last().len() && s.drop_last()[i].0@ == k;
                assert(s[i].0@ == k);
            }
        }
        if exists|i: int| 0 <= i < s.len() && s[i].0@ == k {
            let i = choose|i: int| 0 <= i < s.len() && s[i].0@ == k;
            if i < s.len() - 1 {
                assert(s.drop_last()[i].0@ == k);
            }
        }
    }
}

/// With distinct keys, each row is read back from the map as it stands.
proof fn lemma_assoc_at(s: Seq<(Vec<u8>, Vec<u8>)>, i: int)
    requires
        distinct_keys(s),
        0 <= i < s.len(),
    ensures
        assoc_map(s).contains_pair(s[i].0@, s[i].1@),
    decreases s.len(),
{
    if i == s.len() - 1 {
    } else {
        assert(distinct_keys(s.drop_last()));
        assert(s.drop_last()[i] == s[i]);
        lemma_assoc_at(s.drop_last(), i);
        assert(s[i].0@ != s.last().0@);
    }
}

/// Removing the row that holds a key removes exactly that key.
proof fn lemma_assoc_remove(s: Seq<(Vec<u8>, Vec<u8>)>, i: int)
    requires
        distinct_keys(s),
        0 <= i < s.len(),
    ensures
        assoc_map(s.remove(i)) == assoc_map(s).remove(s[i].0@),
    decreases s.len(),
{
    let k = s[i].0@;
    if i == s.len() - 1 {
        assert(s.remove(i) =~= s.drop_last());
        lemma_assoc_contains(s.drop_last(), k);
        assert(forall|j: int|
            0 <= j < s.drop_last().len() ==> s.drop_last()[j].0@ == s[j].0@ && s[j].0@ != k);
        assert(!assoc_map(s.drop_last()).contains_key(k));
        assert(assoc_map(s.drop_last()).insert(k, s.last().1@).remove(k) =~= assoc_map(
            s.drop_last(),
        ));
    } else {
        assert(distinct_keys(s.drop_last()));
        lemma_assoc_remove(s.drop_last(), i);
        assert(s.remove(i).drop_last() =~= s.drop_last().remove(i));
        assert(s.remove(i).last() == s.last());
        assert(s.remove(i).len() == s.len() - 1);
        assert(assoc_map(s.remove(i)) == assoc_map(s.drop_last().remove(i)).insert(
            s.last().0@,
            s.last().1@,
        ));
        assert(k != s.last().0@);
        assert(assoc_map(s.drop_last()).remove(k).insert(s.last().0@, s.last().1@) =~= assoc_map(
            s.drop_last(),
        ).insert(s.last().0@, s.last().1@).remove(k));
    }
}

/// Rows that agree key for key and value for value read as the same map.
proof fn lemma_assoc_map_congruent(s1: Seq<(Vec<u8>, Vec<u8>)>, s2: Seq<(Vec<u8>, Vec<u8>)>)
    requires
        s1.len() == s2.len(),
        forall|i: int| 0 <= i < s1.len() ==> s1[i].0@ == s2[i].0@ && s1[i].1@ == s2[i].1@,
    ensures
        assoc_map(s1) == assoc_map(s2),
    decreases s1.len(),
{
    if s1.len() > 0 {
        lemma_assoc_map_congruent(s1.drop_last(), s2.drop_last());
    }
}

/// Rows that hold each key of a map once, with its value, read back as
/// exactly that map.
proof fn lemma_assoc_map_of_faithful_rows(s: Seq<(Vec<u8>, Vec<u8>)>, m: Map<Seq<u8>, Seq<u8>>)
    requires
        distinct_keys(s),
        forall|i: int| 0 <= i < s.len() ==> m.contains_pair(#[trigger] s[i].0@, s[i].1@),
        forall|k: Seq<u8>|
            m.contains_key(k) ==> exists|i: int| 0 <= i < s.len() && s[i].0@ == k,
    ensures
        assoc_map(s) == m,
{
    assert forall|k: Seq<u8>| assoc_map(s).contains_key(k) implies m.contains_key(k) by {
        lemma_assoc_contains(s, k);
    }
    assert forall|k: Seq<u8>| m.contains_key(k) implies assoc_map(s).contains_key(k)
        && assoc_map(s)[k] == m[k] by {
        let i = choose|i: int| 0 <= i < s.len() && s[i].0@ == k;
        lemma_assoc_at(s, i);
    }
    assert(assoc_map(s) =~= m);
}

/// A fresh vector holding the same bytes.
fn dup_bytes(v: &Vec<u8>) -> (r: Vec<u8>)
    ensures
        r@ == v@,
{
    let r = copy_range(v, 0, v.len());
    assert(v@.subrange(0, v@.len() as int) =~= v@);
    r
}

/// The index of the row holding `key`, if any row does.
fn find_key(rows: &Vec<(Vec<u8>, Vec<u8>)>, key: &Vec<u8>) -> (r: Option<usize>)
    ensures
        match r {
            Some(i) => i < rows@.len() && rows@[i as int].0@ == key@,
            None => forall|j: int| 0 <= j < rows@.len() ==> rows@[j].0@ != key@,
        },
{
    let n = rows.len();
    let mut i: usize = 0;
    while i < n
        invariant
            0 <= i <= n,
            rows@.len() == n,
            forall|j: int| 0 <= j < i ==> rows@[j].0@ != key@,
        decreases n - i,
    {
        if bytes_eq(&rows[i].0, key) {
            return Some(i);
        }
        i = i + 1;
    }
    None
}

impl Space {
    #[verifier::type_invariant]
    spec fn inv(self) -> bool {
        distinct_keys(self.rows@)
    }

    /// An empty keyspace.
    pub fn new() -> (s: Space)
        ensures
            s@ == Map::<Seq<u8>, Seq<u8>>::empty(),
    {
        Space { rows: Vec::new() }
    }

    /// Writes `value` under `key`, overwriting whatever the key held.
    pub fn put(&mut self, key: &Vec<u8>, value: &Vec<u8>)
        ensures
            final(self)@ == old(self)@.insert(key@, value@),
    {
        proof {
            use_type_invariant(&*self);
        }
        let ghost m0 = self@;
        let mut rows: Vec<(Vec<u8>, Vec<u8>)> = Vec::new();
        std::mem::swap(&mut rows, &mut self.rows);
        match find_key(&rows, key) {
            Some(i) => {
                let ghost pre = rows@;
                proof {
                    lemma_assoc_remove(pre, i as int);
                }
                rows.remove(i);
                assert(rows@ == pre.remove(i as int));
                assert(distinct_keys(rows@)) by {
                    assert forall|a: int, b: int| 0 <= a < b < rows@.len() implies rows@[a].0@
                        != rows@[b].0@ by {
                        let a0: int = if a < i { a } else { a + 1 };
                        let b0: int = if b < i { b } else { b + 1 };
                        assert(rows@[a] == pre[a0] && rows@[b] == pre[b0]);
                    }
                }
                assert(assoc_map(rows@) == m0.remove(key@));
            },
            None => {
                assert(assoc_map(rows@) == m0);
            },
        }
        assert(forall|j: int| 0 <= j < rows@.len() ==> rows@[j].0@ != key@) by {
            lemma_assoc_contains(rows@, key@);
        }
        let ghost before_push = rows@;
        let row = (dup_bytes(key), dup_bytes(value));
        assert(row.0@ == key@ && row.1@ == value@);
        rows.push(row);
        assert(distinct_keys(rows@)) by {
            assert forall|a: int, b: int| 0 <= a < b < rows@.len() implies rows@[a].0@
                != rows@[b].0@ by {
                if b == rows@.len() - 1 {
                    assert(rows@[a] == before_push[a]);
                    assert(rows@[b].0@ == key@);
                } else {
                    assert(rows@[a] == before_push[a] && rows@[b] == before_push[b]);
                }
            }
        }
        assert(rows@.drop_last() =~= before_push);
        assert(assoc_map(rows@) == assoc_map(before_push).insert(key@, value@));
        assert(assoc_map(rows@) =~= m0.insert(key@, value@));
        self.rows = rows;
    }

    /// The value under `key`, or nothing when the key holds none.
    pub fn get(&self, key: &Vec<u8>) -> (r: Option<Vec<u8>>)
        ensures
            match r {
                Some(v) => self@.contains_key(key@) && v@ == self@[key@],
                None => !self@.contains_key(key@),
            },
    {
        proof {
            use_type_invariant(&*self);
        }
        match find_key(&self.rows, key) {
            Some(i) => {
                proof {
                    lemma_assoc_at(self.rows@, i as int);
                }
                Some(dup_bytes(&self.rows[i].1))
            },
            None => {
                proof {
                    lemma_assoc_contains(self.rows@, key@);
                }
                None
            },
        }
    }

    /// Every row of the keyspace, each key once: the rows read back as
    /// the keyspace's own map, so they can be carried away and reloaded.
    pub fn entries(&self) -> (r: Vec<(Vec<u8>, Vec<u8>)>)
        ensures
            distinct_keys(r@),
            forall|i: int| 0 <= i < r@.len() ==> self@.contains_pair(r@[i].0@, r@[i].1@),
            forall|k: Seq<u8>|
                self@.contains_key(k) ==> exists|i: int| 0 <= i < r@.len() && r@[i].0@ == k,
            assoc_map(r@) == self@,
    {
        proof {
            use_type_invariant(&*self);
        }
        let n = self.rows.len();
        let mut out: Vec<(Vec<u8>, Vec<u8>)> = Vec::new();
        let mut i: usize = 0;
        while i < n
            invariant
                0 <= i <= n,
                self.rows@.len() == n,
                distinct_keys(self.rows@),
                out@.len() == i,
                forall|j: int|
                    0 <= j < i ==> out@[j].0@ == self.rows@[j].0@ && out@[j].1@
                        == self.rows@[j].1@,
            decreases n - i,
        {
            let row = (dup_bytes(&self.rows[i].0), dup_bytes(&self.rows[i].1));
            out.push(row);
            i = i + 1;
        }
        assert(distinct_keys(out@));
        assert(forall|j: int| 0 <= j < out@.len() ==> self@.contains_pair(
            out@[j].0@,
            out@[j].1@,
        )) by {
            assert forall|j: int| 0 <= j < out@.len() implies self@.contains_pair(
                out@[j].0@,
                out@[j].1@,
            ) by {
                lemma_assoc_at(self.rows@, j);
            }
        }
        assert forall|k: Seq<u8>| self@.contains_key(k) implies exists|i0: int|
            0 <= i0 < out@.len() && out@[i0].0@ == k by {
            lemma_assoc_contains(self.rows@, k);
            let i0 = choose|i0: int| 0 <= i0 < self.rows@.len() && self.rows@[i0].0@ == k;
            assert(out@[i0].0@ == k);
        }
        proof {
            lemma_assoc_map_of_faithful_rows(out@, self@);
        }
        out
    }

    /// A keyspace holding the given rows, read left to right: what
    /// `entries` handed out comes back as the same keyspace.
    pub fn from_rows(rows: Vec<(Vec<u8>, Vec<u8>)>) -> (s: Space)
        ensures
            s@ == assoc_map(rows@),
    {
        let mut s = Space::new();
        let n = rows.len();
        let mut i: usize = 0;
        assert(rows@.take(0) =~= Seq::<(Vec<u8>, Vec<u8>)>::empty());
        while i < n
            invariant
                0 <= i <= n,
                rows@.len() == n,
                s@ == assoc_map(rows@.take(i as int)),
            decreases n - i,
        {
            s.put(&rows[i].0, &rows[i].1);
            proof {
                assert(rows@.take(i + 1).drop_last() =~= rows@.take(i as int));
                assert(rows@.take(i + 1).last() == rows@[i as int]);
            }
            i = i + 1;
        }
        assert(rows@.take(n as int) =~= rows@);
        s
    }
}

impl View for Space {
    type V = Map<Seq<u8>, Seq<u8>>;

    closed spec fn view(&self) -> Map<Seq<u8>, Seq<u8>> {
        assoc_map(self.rows@)
    }
}

} // verus!
