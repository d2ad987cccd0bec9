//! A vector's metadata: a map from text to text, kept in ascending key order.

use vstd::prelude::*;
use vstd::utf8::encode_utf8;
use crate::text::str_eq;
use crate::text::str_before;
use crate::text::str_lt;
use crate::text::lemma_lex_irreflexive;
use crate::text::lemma_lex_total;
use crate::text::lemma_lex_transitive;
use crate::text::lemma_str_bytes_injective;

verus! {

/// One key with its value.
pub struct MetaEntry {
    pub key: String,
    pub value: String,
}

/// A vector's metadata: a finite mapping from text keys to text values, held as
/// entries in ascending key order.
pub struct Metadata {
    entries: Vec<MetaEntry>,
}

/// The keys of `ps` ascend strictly.
pub open spec fn keys_ascend(ps: Seq<(Seq<char>, Seq<char>)>) -> bool {
    forall|i: int, j: int| 0 <= i < j < ps.len() ==> str_lt(#[trigger] ps[i].0, #[trigger] ps[j].0)
}

/// Some entry of `ps` has key `k`.
pub open spec fn has_key(ps: Seq<(Seq<char>, Seq<char>)>, k: Seq<char>) -> bool {
    exists|i: int| 0 <= i < ps.len() && #[trigger] ps[i].0 == k
}

/// The position of an entry with key `k`.
pub open spec fn key_index(ps: Seq<(Seq<char>, Seq<char>)>, k: Seq<char>) -> int {
    choose|i: int| 0 <= i < ps.len() && #[trigger] ps[i].0 == k
}

/// The mapping that a list of entries stands for.
pub open spec fn pairs_map(ps: Seq<(Seq<char>, Seq<char>)>) -> Map<Seq<char>, Seq<char>> {
    Map::new(|k: Seq<char>| has_key(ps, k), |k: Seq<char>| ps[key_index(ps, k)].1)
}

/// Every entry of `filters` is an entry of `meta`, key and value alike.
pub open spec fn is_superset(meta: Map<Seq<char>, Seq<char>>, filters: Map<Seq<char>, Seq<char>>) -> bool {
    forall|k: Seq<char>| #[trigger]
        filters.contains_key(k) ==> meta.contains_key(k) && meta[k] == filters[k]
}

/// In an ascending list each key occurs once, so an entry is found at its own position.
pub proof fn lemma_key_position(ps: Seq<(Seq<char>, Seq<char>)>, i: int)
    requires
        keys_ascend(ps),
        0 <= i < ps.len(),
    ensures
        has_key(ps, ps[i].0),
        key_index(ps, ps[i].0) == i,
        pairs_map(ps).contains_key(ps[i].0),
        pairs_map(ps)[ps[i].0] == ps[i].1,
{
    let j = key_index(ps, ps[i].0);
    assert(ps[i].0 == ps[i].0);
    if j != i {
        lemma_lex_irreflexive(encode_utf8(ps[i].0));
        if j < i {
            assert(str_lt(ps[j].0, ps[i].0));
        } else {
            assert(str_lt(ps[i].0, ps[j].0));
        }
    }
}

/// Two ascending lists that stand for the same mapping are the same list.
pub proof fn lemma_pairs_canonical(a: Seq<(Seq<char>, Seq<char>)>, b: Seq<(Seq<char>, Seq<char>)>)
    requires
        keys_ascend(a),
        keys_ascend(b),
        pairs_map(a) == pairs_map(b),
    ensures
        a == b,
    decreases a.len(),
{
    if a.len() == 0 {
        if b.len() > 0 {
            lemma_key_position(b, 0);
            assert(pairs_map(a).contains_key(b[0].0));
        }
        assert(a =~= b);
    } else {
        lemma_key_position(a, a.len() - 1);
        let ka = a[a.len() - 1].0;
        assert(pairs_map(b).contains_key(ka));
        assert(b.len() > 0);
        lemma_key_position(b, b.len() - 1);
        let kb = b[b.len() - 1].0;
        assert(pairs_map(a).contains_key(kb));
        let ia = key_index(a, kb);
        let ib = key_index(b, ka);
        // the largest keys coincide
        if ka != kb {
            lemma_str_bytes_injective(ka, kb);
            lemma_lex_total(encode_utf8(ka), encode_utf8(kb));
            if str_lt(ka, kb) {
                assert(ia != a.len() - 1);
                assert(str_lt(a[ia].0, a[a.len() - 1].0));
                lemma_lex_transitive(encode_utf8(kb), encode_utf8(ka), encode_utf8(kb));
                lemma_lex_irreflexive(encode_utf8(kb));
            } else {
                assert(ib != b.len() - 1);
                assert(str_lt(b[ib].0, b[b.len() - 1].0));
                lemma_lex_transitive(encode_utf8(ka), encode_utf8(kb), encode_utf8(ka));
                lemma_lex_irreflexive(encode_utf8(ka));
            }
        }
        assert(ka == kb);
        assert(a[a.len() - 1].1 == b[b.len() - 1].1);
        let a0 = a.drop_last();
        let b0 = b.drop_last();
        assert(keys_ascend(a0));
        assert(keys_ascend(b0));
        assert forall|k: Seq<char>| has_key(a0, k) <==> has_key(b0, k) by {
            lemma_drop_last_keys(a, k);
            lemma_drop_last_keys(b, k);
            assert(pairs_map(a).contains_key(k) <==> has_key(a, k));
            assert(pairs_map(b).contains_key(k) <==> has_key(b, k));
            assert(a[a.len() - 1].0 == b[b.len() - 1].0);
        }
        assert forall|k: Seq<char>| has_key(a0, k) implies a0[key_index(a0, k)].1 == b0[key_index(
            b0,
            k,
        )].1 by {
            lemma_drop_last_keys(a, k);
            lemma_drop_last_keys(b, k);
            let i = key_index(a0, k);
            let j = key_index(b0, k);
            assert(a[i].0 == k && b[j].0 == k);
            lemma_key_position(a, i);
            lemma_key_position(b, j);
            assert(pairs_map(a)[k] == pairs_map(b)[k]);
        }
        assert(pairs_map(a0) =~= pairs_map(b0));
        lemma_pairs_canonical(a0, b0);
        assert(a =~= a0.push(a[a.len() - 1]));
        assert(b =~= b0.push(b[b.len() - 1]));
    }
}

/// A key is in all but the last entry exactly when it is in the list and is not the last key.
proof fn lemma_drop_last_keys(ps: Seq<(Seq<char>, Seq<char>)>, k: Seq<char>)
    requires
        keys_ascend(ps),
        ps.len() > 0,
    ensures
        has_key(ps.drop_last(), k) <==> (has_key(ps, k) && k != ps[ps.len() - 1].0),
{
    let p0 = ps.drop_last();
    if has_key(p0, k) {
        let i = key_index(p0, k);
        assert(ps[i].0 == k);
        lemma_key_position(ps, i);
        lemma_key_position(ps, ps.len() - 1);
    }
    if has_key(ps, k) && k != ps[ps.len() - 1].0 {
        let i = key_index(ps, k);
        assert(p0[i].0 == k);
    }
}

/// In an ascending list, the mapping of the first `i + 1` entries is the mapping of the
/// first `i` with the entry at `i` added.
pub proof fn lemma_pairs_map_step(ps: Seq<(Seq<char>, Seq<char>)>, i: int)
    requires
        keys_ascend(ps),
        0 <= i < ps.len(),
    ensures
        pairs_map(ps.take(i + 1)) == pairs_map(ps.take(i)).insert(ps[i].0, ps[i].1),
        !pairs_map(ps.take(i)).contains_key(ps[i].0),
{
    let done = ps.take(i);
    let next = ps.take(i + 1);
    let k = ps[i].0;
    let v = ps[i].1;
    assert(keys_ascend(next));
    assert(keys_ascend(done));
    lemma_key_position(next, i);
    assert forall|q: Seq<char>| has_key(next, q) <==> (q == k || has_key(done, q)) by {
        if has_key(next, q) {
            let j = key_index(next, q);
            if j < i {
                assert(done[j].0 == q);
            }
        }
        if has_key(done, q) {
            let j = key_index(done, q);
            assert(next[j].0 == q);
        }
    }
    assert forall|q: Seq<char>| has_key(done, q) implies pairs_map(next)[q] == pairs_map(done)[q] by {
        let j = key_index(done, q);
        lemma_key_position(done, j);
        assert(next[j] == done[j]);
        lemma_key_position(next, j);
    }
    assert(pairs_map(next) =~= pairs_map(done).insert(k, v));
    if has_key(done, k) {
        let j = key_index(done, k);
        assert(str_lt(ps[j].0, ps[i].0));
        lemma_lex_irreflexive(encode_utf8(k));
    }
}

impl MetaEntry {
    /// The entry as a pair of texts.
    pub open spec fn pair(&self) -> (Seq<char>, Seq<char>) {
        (self.key@, self.value@)
    }
}

impl View for Metadata {
    type V = Map<Seq<char>, Seq<char>>;

    open spec fn view(&self) -> Map<Seq<char>, Seq<char>> {
        pairs_map(self.pairs())
    }
}

impl Metadata {
    /// The entries in stored order.
    pub closed spec fn pairs(&self) -> Seq<(Seq<char>, Seq<char>)> {
        Seq::new(self.entries@.len(), |i: int| self.entries@[i].pair())
    }

    /// The entries are in ascending key order, so no key occurs twice.
    pub open spec fn wf(&self) -> bool {
        keys_ascend(self.pairs())
    }

    /// The empty mapping.
    pub fn new() -> (m: Metadata)
        ensures
            m.wf(),
            m.pairs() == Seq::<(Seq<char>, Seq<char>)>::empty(),
            m@ == Map::<Seq<char>, Seq<char>>::empty(),
    {
        let m = Metadata { entries: Vec::new() };
        assert(m.pairs() =~= Seq::<(Seq<char>, Seq<char>)>::empty());
        assert(m@ =~= Map::<Seq<char>, Seq<char>>::empty());
        m
    }

    /// The number of entries.
    pub fn len(&self) -> (n: usize)
        ensures
            n == self.pairs().len(),
    {
        self.entries.len()
    }

    pub fn is_empty(&self) -> (b: bool)
        ensures
            b == (self.pairs().len() == 0),
            self.wf() ==> b == (forall|k: Seq<char>| !self@.contains_key(k)),
    {
        proof {
            if self.wf() {
                if self.pairs().len() > 0 {
                    lemma_key_position(self.pairs(), 0);
                    assert(self@.contains_key(self.pairs()[0].0));
                } else {
                    assert forall|k: Seq<char>| !self@.contains_key(k) by {
                        if has_key(self.pairs(), k) {
                            let i = key_index(self.pairs(), k);
                            assert(0 <= i < self.pairs().len());
                        }
                    }
                }
            }
        }
        self.entries.len() == 0
    }

    /// The key of the `i`-th entry in ascending key order.
    pub fn key_at(&self, i: usize) -> (k: &String)
        requires
            i < self.pairs().len(),
        ensures
            k@ == self.pairs()[i as int].0,
    {
        &self.entries[i].key
    }

    /// The value of the `i`-th entry in ascending key order.
    pub fn value_at(&self, i: usize) -> (v: &String)
        requires
            i < self.pairs().len(),
        ensures
            v@ == self.pairs()[i as int].1,
    {
        &self.entries[i].value
    }

    /// The position of `key` among the entries, if it is there.
    fn position(&self, key: &str) -> (r: Option<usize>)
        requires
            self.wf(),
        ensures
            match r {
                Some(i) => i < self.pairs().len() && self.pairs()[i as int].0 == key@,
                None => !has_key(self.pairs(), key@),
            },
    {
        let mut i: usize = 0;
        while i < self.entries.len()
            invariant
                0 <= i <= self.entries@.len(),
                forall|j: int| 0 <= j < i ==> (#[trigger] self.pairs()[j]).0 != key@,
            decreases self.entries.len() - i,
        {
            if str_eq(self.entries[i].key.as_str(), key) {
                return Some(i);
            }
            i += 1;
        }
        None
    }

    /// The value stored under `key`.
    pub fn get(&self, key: &str) -> (r: Option<&String>)
        requires
            self.wf(),
        ensures
            match r {
                Some(v) => self@.contains_key(key@) && self@[key@] == v@,
                None => !self@.contains_key(key@),
            },
    {
        match self.position(key) {
            Some(i) => {
                proof {
                    lemma_key_position(self.pairs(), i as int);
                }
                Some(&self.entries[i].value)
            },
            None => None,
        }
    }

    pub fn contains_key(&self, key: &str) -> (b: bool)
        requires
            self.wf(),
        ensures
            b == self@.contains_key(key@),
    {
        self.position(key).is_some()
    }

    /// Stores `value` under `key`, replacing what was there.
    pub fn insert(&mut self, key: String, value: String)
        requires
            old(self).wf(),
        ensures
            final(self).wf(),
            final(self)@ == old(self)@.insert(key@, value@),
    {
        let ghost before = self.pairs();
        let mut pos: usize = 0;
        while pos < self.entries.len() && str_before(self.entries[pos].key.as_str(), key.as_str())
            invariant
                0 <= pos <= self.entries@.len(),
                self.pairs() == before,
                forall|a: int| 0 <= a < pos ==> str_lt((#[trigger] before[a]).0, key@),
            decreases self.entries.len() - pos,
        {
            pos += 1;
        }
        let ghost k = key@;
        let ghost v = value@;
        if pos < self.entries.len() && str_eq(self.entries[pos].key.as_str(), key.as_str()) {
            self.entries.set(pos, MetaEntry { key, value });
            proof {
                let after = self.pairs();
                assert(after =~= before.update(pos as int, (k, v)));
                assert(keys_ascend(after)) by {
                    assert forall|i: int, j: int| 0 <= i < j < after.len() implies str_lt(
                        #[trigger] after[i].0,
                        #[trigger] after[j].0,
                    ) by {
                        assert(after[i].0 == before[i].0 && after[j].0 == before[j].0);
                    }
                }
                assert forall|q: Seq<char>| has_key(after, q) <==> (q == k || has_key(before, q)) by {
                    if has_key(after, q) {
                        let i = key_index(after, q);
                        assert(before[i].0 == q);
                    }
                    if has_key(before, q) {
                        let i = key_index(before, q);
                        assert(after[i].0 == q);
                    }
                    if q == k {
                        assert(after[pos as int].0 == q);
                    }
                }
                assert forall|q: Seq<char>| has_key(after, q) implies after[key_index(after, q)].1
                    == old(self)@.insert(k, v)[q] by {
                    let i = key_index(after, q);
                    lemma_key_position(after, i);
                    if q != k {
                        assert(i != pos);
                        assert(before[i].0 == q);
                        lemma_key_position(before, i);
                    } else {
                        lemma_key_position(after, pos as int);
                    }
                }
                assert(self@ =~= old(self)@.insert(k, v));
            }
        } else {
            proof {
                // every entry from pos on has a larger key
                assert forall|b: int| pos <= b < before.len() implies str_lt(
                    k,
                    (#[trigger] before[b]).0,
                ) by {
                    let kp = before[pos as int].0;
                    lemma_str_bytes_injective(kp, k);
                    lemma_lex_total(encode_utf8(kp), encode_utf8(k));
                    assert(str_lt(k, kp));
                    if b > pos {
                        assert(str_lt(before[pos as int].0, before[b].0));
                        lemma_lex_transitive(encode_utf8(k), encode_utf8(kp), encode_utf8(before[b].0));
                    }
                }
            }
            self.entries.insert(pos, MetaEntry { key, value });
            proof {
                let after = self.pairs();
                assert(after =~= before.insert(pos as int, (k, v)));
                assert forall|i: int, j: int| 0 <= i < j < after.len() implies str_lt(
                    #[trigger] after[i].0,
                    #[trigger] after[j].0,
                ) by {
                    if j < pos {
                        assert(after[i] == before[i] && after[j] == before[j]);
                    } else if j == pos {
                        assert(after[i] == before[i]);
                    } else if i == pos {
                        assert(after[j] == before[j - 1]);
                    } else if i < pos {
                        assert(after[i] == before[i] && after[j] == before[j - 1]);
                    } else {
                        assert(after[i] == before[i - 1] && after[j] == before[j - 1]);
                    }
                }
                assert forall|q: Seq<char>| has_key(after, q) <==> (q == k || has_key(before, q)) by {
                    if has_key(after, q) {
                        let i = key_index(after, q);
                        if i < pos {
                            assert(before[i].0 == q);
                        } else if i > pos {
                            assert(before[i - 1].0 == q);
                        }
                    }
                    if has_key(before, q) {
                        let i = key_index(before, q);
                        if i < pos {
                            assert(after[i].0 == q);
                        } else {
                            assert(after[i + 1].0 == q);
                        }
                    }
                    if q == k {
                        assert(after[pos as int].0 == q);
                    }
                }
                assert forall|q: Seq<char>| has_key(after, q) implies after[key_index(after, q)].1
                    == old(self)@.insert(k, v)[q] by {
                    let i = key_index(after, q);
                    lemma_key_position(after, i);
                    if i < pos {
                        assert(before[i] == after[i]);
                        lemma_key_position(before, i);
                        lemma_key_position(after, pos as int);
                    } else if i > pos {
                        assert(before[i - 1] == after[i]);
                        lemma_key_position(before, i - 1);
                        lemma_key_position(after, pos as int);
                    }
                }
                assert(self@ =~= old(self)@.insert(k, v));
            }
        }
    }

    /// Drops the entry under `key`; says whether there was one.
    pub fn remove(&mut self, key: &str) -> (found: bool)
        requires
            old(self).wf(),
        ensures
            final(self).wf(),
            found == old(self)@.contains_key(key@),
            final(self)@ == old(self)@.remove(key@),
    {
        let ghost before = self.pairs();
        match self.position(key) {
            Some(pos) => {
                self.entries.remove(pos);
                proof {
                    let after = self.pairs();
                    let k = key@;
                    assert(after =~= before.remove(pos as int));
                    assert forall|i: int, j: int| 0 <= i < j < after.len() implies str_lt(
                        #[trigger] after[i].0,
                        #[trigger] after[j].0,
                    ) by {
                        let i0 = if i < pos { i } else { i + 1 };
                        let j0 = if j < pos { j } else { j + 1 };
                        assert(after[i] == before[i0] && after[j] == before[j0]);
                    }
                    lemma_key_position(before, pos as int);
                    assert forall|q: Seq<char>| has_key(after, q) <==> (q != k && has_key(
                        before,
                        q,
                    )) by {
                        if has_key(after, q) {
                            let i = key_index(after, q);
                            let i0 = if i < pos { i } else { i + 1 };
                            assert(before[i0].0 == q);
                            lemma_key_position(before, i0);
                        }
                        if q != k && has_key(before, q) {
                            let i = key_index(before, q);
                            if i < pos {
                                assert(after[i].0 == q);
                            } else {
                                assert(after[i - 1].0 == q);
                            }
                        }
                    }
                    assert forall|q: Seq<char>| has_key(after, q) implies after[key_index(
                        after,
                        q,
                    )].1 == old(self)@[q] by {
                        let i = key_index(after, q);
                        let i0 = if i < pos { i } else { i + 1 };
                        assert(before[i0] == after[i]);
                        lemma_key_position(before, i0);
                    }
                    assert(self@ =~= old(self)@.remove(k));
                }
                true
            },
            None => {
                assert(self@ =~= old(self)@.remove(key@));
                false
            },
        }
    }

    /// Appends an entry whose key comes after every key present; says whether it did.
    pub fn push_last(&mut self, key: String, value: String) -> (ok: bool)
        requires
            old(self).wf(),
        ensures
            final(self).wf(),
            ok == (old(self).pairs().len() == 0 || str_lt(old(self).pairs().last().0, key@)),
            ok ==> final(self).pairs() == old(self).pairs().push((key@, value@)),
            !ok ==> final(self).pairs() == old(self).pairs(),
    {
        let n = self.entries.len();
        let ghost before = self.pairs();
        if n > 0 && !str_before(self.entries[n - 1].key.as_str(), key.as_str()) {
            return false;
        }
        let ghost k = key@;
        let ghost v = value@;
        self.entries.push(MetaEntry { key, value });
        proof {
            let after = self.pairs();
            assert(after =~= before.push((k, v)));
            assert forall|i: int, j: int| 0 <= i < j < after.len() implies str_lt(
                #[trigger] after[i].0,
                #[trigger] after[j].0,
            ) by {
                if j < before.len() {
                    assert(after[i] == before[i] && after[j] == before[j]);
                } else {
                    assert(after[i] == before[i]);
                    if i < before.len() - 1 {
                        assert(str_lt(before[i].0, before[before.len() - 1].0));
                        lemma_lex_transitive(
                            encode_utf8(before[i].0),
                            encode_utf8(before[before.len() - 1].0),
                            encode_utf8(k),
                        );
                    }
                }
            }
        }
        true
    }

    /// Whether this metadata holds every entry of `filters`, key and value alike.
    pub fn matches(&self, filters: &Metadata) -> (b: bool)
        requires
            self.wf(),
            filters.wf(),
        ensures
            b == is_superset(self@, filters@),
    {
        let mut i: usize = 0;
        while i < filters.len()
            invariant
                0 <= i <= filters.pairs().len(),
                self.wf(),
                filters.wf(),
                forall|j: int|
                    0 <= j < i ==> self@.contains_key((#[trigger] filters.pairs()[j]).0) && self@[filters.pairs()[j].0]
                        == filters.pairs()[j].1,
            decreases filters.pairs().len() - i,
        {
            proof {
                lemma_key_position(filters.pairs(), i as int);
            }
            let ok = match self.get(filters.key_at(i).as_str()) {
                Some(v) => str_eq(v.as_str(), filters.value_at(i).as_str()),
                None => false,
            };
            if !ok {
                assert(filters@.contains_key(filters.pairs()[i as int].0));
                return false;
            }
            i += 1;
        }
        proof {
            assert forall|k: Seq<char>| #[trigger] filters@.contains_key(k) implies self@.contains_key(
                k,
            ) && self@[k] == filters@[k] by {
                let j = key_index(filters.pairs(), k);
                lemma_key_position(filters.pairs(), j);
                assert(filters.pairs()[j].0 == k);
            }
        }
        true
    }

    /// Adds every entry of `other`, replacing values under keys already present.
    pub fn extend(&mut self, other: &Metadata)
        requires
            old(self).wf(),
            other.wf(),
        ensures
            final(self).wf(),
            final(self)@ == old(self)@.union_prefer_right(other@),
    {
        let mut i: usize = 0;
        while i < other.len()
            invariant
                0 <= i <= other.pairs().len(),
                self.wf(),
                other.wf(),
                self@ == old(self)@.union_prefer_right(pairs_map(other.pairs().take(i as int))),
            decreases other.pairs().len() - i,
        {
            let ghost done = other.pairs().take(i as int);
            let ghost next = other.pairs().take(i + 1);
            let ghost k = other.pairs()[i as int].0;
            let ghost v = other.pairs()[i as int].1;
            self.insert(other.key_at(i).clone(), other.value_at(i).clone());
            proof {
                assert(keys_ascend(next));
                assert(keys_ascend(done));
                lemma_key_position(next, i as int);
                assert forall|q: Seq<char>| has_key(next, q) <==> (q == k || has_key(done, q)) by {
                    if has_key(next, q) {
                        let j = key_index(next, q);
                        if j < i {
                            assert(done[j].0 == q);
                        }
                    }
                    if has_key(done, q) {
                        let j = key_index(done, q);
                        assert(next[j].0 == q);
                    }
                }
                assert forall|q: Seq<char>| has_key(done, q) implies pairs_map(next)[q] == pairs_map(
                    done,
                )[q] by {
                    let j = key_index(done, q);
                    lemma_key_position(done, j);
                    assert(next[j] == done[j]);
                    lemma_key_position(next, j);
                }
                assert(pairs_map(next) =~= pairs_map(done).insert(k, v));
                assert(self@ =~= old(self)@.union_prefer_right(pairs_map(next)));
            }
            i += 1;
        }
        assert(other.pairs().take(i as int) == other.pairs());
    }

    /// A copy with the same entries.
    pub fn duplicate(&self) -> (m: Metadata)
        ensures
            m.pairs() == self.pairs(),
            m@ == self@,
    {
        let mut entries: Vec<MetaEntry> = Vec::new();
        let mut i: usize = 0;
        while i < self.entries.len()
            invariant
                0 <= i <= self.entries@.len(),
                entries@.len() == i,
                forall|j: int| 0 <= j < i ==> (#[trigger] entries@[j]).pair() == self.entries@[j].pair(),
            decreases self.entries.len() - i,
        {
            entries.push(
                MetaEntry { key: self.entries[i].key.clone(), value: self.entries[i].value.clone() },
            );
            i += 1;
        }
        let m = Metadata { entries };
        assert(m.pairs() =~= self.pairs());
        m
    }
}

impl Clone for Metadata {
    fn clone(&self) -> (m: Metadata)
        ensures
            m.pairs() == self.pairs(),
    {
        self.duplicate()
    }
}

} // verus!
