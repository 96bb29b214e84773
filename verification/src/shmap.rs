//! The path-keyed associative structure threaded through the pipeline: an
//! immutable-in-spirit mapping from relative file paths (or metadata keys) to
//! values, with the two algebraic combinators stages use to add, replace and
//! delete entries: a left-biased `union` and a key-only `difference`.

use crate::strutil::eq_str;
use vstd::prelude::*;

verus! {

/// No two entries share a key.
spec fn distinct_keys<V>(s: Seq<(String, V)>) -> bool {
    forall|i: int, j: int| 0 <= i < j < s.len() ==> s[i].0@ != s[j].0@
}

/// The mathematical mapping an entry list stands for; a later entry for the
/// same key would win, though well-formed maps never hold one.
spec fn as_map<V>(s: Seq<(String, V)>) -> Map<Seq<char>, V>
    decreases s.len(),
{
    if s.len() == 0 {
        Map::empty()
    } else {
        as_map(s.drop_last()).insert(s.last().0@, s.last().1)
    }
}

/// The mapping reached from `m` by inserting the entries of `s`, last first.
spec fn fold_ins<V>(m: Map<Seq<char>, V>, s: Seq<(String, V)>) -> Map<Seq<char>, V>
    decreases s.len(),
{
    if s.len() == 0 {
        m
    } else {
        fold_ins(m.insert(s.last().0@, s.last().1), s.drop_last())
    }
}

proof fn lemma_as_map_contains<V>(s: Seq<(String, V)>, k: Seq<char>)
    ensures
        as_map(s).contains_key(k) <==> (exists|i: int| 0 <= i < s.len() && s[i].0@ == k),
    decreases s.len(),
{
    if s.len() > 0 {
        lemma_as_map_contains(s.drop_last(), k);
        if as_map(s).contains_key(k) {
            if k == s.last().0@ {
                assert(s[s.len() - 1].0@ == k);
            } else {
                let i = choose|i: int|
                    0 <= i < s.drop_last().len() && s.drop_last()[i].0@ == k;
                assert(s[i].0@ == k);
            }
        }
        if exists|i: int| 0 <= i < s.len() && s[i].0@ == k {
            let i = choose|i: int| 0 <= i < s.len() && s[i].0@ == k;
            if i < s.len() - 1 {
                assert(s.drop_last()[i].0@ == k);
            }
        }
    }
}

proof fn lemma_distinct_drop_last<V>(s: Seq<(String, V)>)
    requires
        distinct_keys(s),
        s.len() > 0,
    ensures
        distinct_keys(s.drop_last()),
{
    assert forall|i: int, j: int| 0 <= i < j < s.drop_last().len() implies s.drop_last()[i].0@
        != s.drop_last()[j].0@ by {
        assert(s[i].0@ != s[j].0@);
    }
}

proof fn lemma_as_map_index<V>(s: Seq<(String, V)>, i: int)
    requires
        distinct_keys(s),
        0 <= i < s.len(),
    ensures
        as_map(s).contains_key(s[i].0@),
        as_map(s)[s[i].0@] == s[i].1,
    decreases s.len(),
{
    lemma_as_map_contains(s, s[i].0@);
    if i < s.len() - 1 {
        lemma_distinct_drop_last(s);
        lemma_as_map_index(s.drop_last(), i);
        assert(s[i].0@ != s.last().0@);
    }
}

proof fn lemma_as_map_finite<V>(s: Seq<(String, V)>)
    ensures
        as_map(s).dom().finite(),
    decreases s.len(),
{
    if s.len() > 0 {
        lemma_as_map_finite(s.drop_last());
    }
}

proof fn lemma_as_map_len<V>(s: Seq<(String, V)>)
    requires
        distinct_keys(s),
    ensures
        as_map(s).len() == s.len(),
    decreases s.len(),
{
    if s.len() > 0 {
        lemma_distinct_drop_last(s);
        lemma_as_map_len(s.drop_last());
        lemma_as_map_contains(s.drop_last(), s.last().0@);
        assert(!as_map(s.drop_last()).contains_key(s.last().0@));
        lemma_as_map_finite(s.drop_last());
        vstd::set::axiom_set_insert_len(as_map(s.drop_last()).dom(), s.last().0@);
    }
}

proof fn lemma_as_map_update<V>(s: Seq<(String, V)>, i: int, key: String, value: V)
    requires
        distinct_keys(s),
        0 <= i < s.len(),
        s[i].0@ == key@,
    ensures
        distinct_keys(s.update(i, (key, value))),
        as_map(s.update(i, (key, value))) == as_map(s).insert(key@, value),
    decreases s.len(),
{
    let t = s.update(i, (key, value));
    assert forall|p: int, q: int| 0 <= p < q < t.len() implies t[p].0@ != t[q].0@ by {
        assert(s[p].0@ != s[q].0@);
    }
    if i == s.len() - 1 {
        assert(t.drop_last() =~= s.drop_last());
        assert(as_map(t) == as_map(s.drop_last()).insert(key@, value));
        assert(as_map(s).insert(key@, value) =~= as_map(s.drop_last()).insert(key@, value));
    } else {
        lemma_distinct_drop_last(s);
        lemma_as_map_update(s.drop_last(), i, key, value);
        assert(t.drop_last() =~= s.drop_last().update(i, (key, value)));
        assert(s[i].0@ != s.last().0@);
        assert(as_map(t) == as_map(s.drop_last()).insert(key@, value).insert(
            s.last().0@,
            s.last().1,
        ));
        assert(as_map(s.drop_last()).insert(key@, value).insert(s.last().0@, s.last().1)
            =~= as_map(s).insert(key@, value));
    }
}

proof fn lemma_fold_ins_union<V>(m: Map<Seq<char>, V>, s: Seq<(String, V)>)
    requires
        distinct_keys(s),
    ensures
        fold_ins(m, s) == m.union_prefer_right(as_map(s)),
    decreases s.len(),
{
    if s.len() == 0 {
        assert(m.union_prefer_right(Map::empty()) =~= m);
    } else {
        let k = s.last().0@;
        let v = s.last().1;
        lemma_distinct_drop_last(s);
        lemma_fold_ins_union(m.insert(k, v), s.drop_last());
        lemma_as_map_contains(s.drop_last(), k);
        assert(!as_map(s.drop_last()).contains_key(k));
        assert(m.insert(k, v).union_prefer_right(as_map(s.drop_last())) =~= m.union_prefer_right(
            as_map(s.drop_last()).insert(k, v),
        ));
    }
}

/// Law: `union` is left-biased. `a.union(b)` yields the mapping
/// `b@.union_prefer_right(a@)`, which holds every key of both operands;
/// where a key `k` is present in both, the value is `a`'s, and a key present
/// in only one operand keeps that operand's value.
pub proof fn lemma_union_left_bias<V>(a: Map<Seq<char>, V>, b: Map<Seq<char>, V>, k: Seq<char>)
    ensures
        b.union_prefer_right(a).contains_key(k) <==> (a.contains_key(k) || b.contains_key(k)),
        a.contains_key(k) ==> b.union_prefer_right(a)[k] == a[k],
        !a.contains_key(k) && b.contains_key(k) ==> b.union_prefer_right(a)[k] == b[k],
{
}

/// Law: `difference` is exclusive and key-only. `a.difference(b)` yields the
/// mapping `b@.remove_keys(a@.dom())`, which contains exactly the keys of
/// `b` not present in `a`, with `b`'s original values, and no key of `a` —
/// whatever values `a` holds.
pub proof fn lemma_difference_exclusivity<V>(
    a: Map<Seq<char>, V>,
    b: Map<Seq<char>, V>,
    k: Seq<char>,
)
    ensures
        b.remove_keys(a.dom()).contains_key(k) <==> (b.contains_key(k) && !a.contains_key(k)),
        b.remove_keys(a.dom()).contains_key(k) ==> b.remove_keys(a.dom())[k] == b[k],
        a.contains_key(k) ==> !b.remove_keys(a.dom()).contains_key(k),
{
}

/// Law: when a stage both updates and deletes, applying `difference` last
/// makes deletion win. A key of the deletion mapping `d` is absent from
/// `d.difference(u.union(f))`, even when the update mapping `u` (or the
/// incoming mapping `f`) holds that key.
pub proof fn lemma_deletion_wins<V>(
    d: Map<Seq<char>, V>,
    u: Map<Seq<char>, V>,
    f: Map<Seq<char>, V>,
    k: Seq<char>,
)
    requires
        d.contains_key(k),
    ensures
        !f.union_prefer_right(u).remove_keys(d.dom()).contains_key(k),
{
}

/// A mapping from string keys to values. Keys are unique; no ordering is
/// semantically meaningful. Mutation idioms (`union`, `difference`, `update`)
/// consume their operands and return a new value, so a stage never observes
/// another stage's intermediate state.
pub struct ShMap<V> {
    entries: Vec<(String, V)>,
}

impl<V> View for ShMap<V> {
    type V = Map<Seq<char>, V>;

    closed spec fn view(&self) -> Map<Seq<char>, V> {
        as_map(self.entries@)
    }
}

impl<V> ShMap<V> {
    #[verifier::type_invariant]
    spec fn wf(&self) -> bool {
        distinct_keys(self.entries@)
    }

    /// Creates an empty mapping.
    pub fn new() -> (r: ShMap<V>)
        ensures
            r@ == Map::<Seq<char>, V>::empty(),
    {
        ShMap { entries: Vec::new() }
    }

    /// The number of entries.
    pub fn len(&self) -> (r: usize)
        ensures
            r == self@.len(),
    {
        proof {
            use_type_invariant(self);
            lemma_as_map_len(self.entries@);
        }
        self.entries.len()
    }

    /// Looks up the value stored under `key`, if any.
    pub fn get<'a>(&'a self, key: &str) -> (r: Option<&'a V>)
        ensures
            match r {
                Some(v) => self@.contains_key(key@) && *v == self@[key@],
                None => !self@.contains_key(key@),
            },
    {
        proof {
            use_type_invariant(self);
        }
        let n = self.entries.len();
        let mut i: usize = 0;
        while i < n
            invariant
                n == self.entries@.len(),
                0 <= i <= n,
                distinct_keys(self.entries@),
                self@ == as_map(self.entries@),
                forall|j: int| 0 <= j < i ==> self.entries@[j].0@ != key@,
            decreases n - i,
        {
            if eq_str(self.entries[i].0.as_str(), key) {
                proof {
                    lemma_as_map_index(self.entries@, i as int);
                }
                return Some(&self.entries[i].1);
            }
            i = i + 1;
        }
        proof {
            lemma_as_map_contains(self.entries@, key@);
        }
        None
    }

    /// Whether an entry is stored under `key`.
    pub fn contains_key(&self, key: &str) -> (r: bool)
        ensures
            r == self@.contains_key(key@),
    {
        self.get(key).is_some()
    }

    /// Stores `value` under `key`, replacing any previous entry for that key.
    pub fn insert(&mut self, key: String, value: V)
        ensures
            final(self)@ == old(self)@.insert(key@, value),
    {
        let mut taken = ShMap::new();
        core::mem::swap(self, &mut taken);
        *self = taken.update(key, value);
    }

    /// Returns the mapping with `value` stored under `key`; the receiver is
    /// consumed, so prior copies of the mapping are unaffected.
    pub fn update(self, key: String, value: V) -> (r: ShMap<V>)
        ensures
            r@ == self@.insert(key@, value),
    {
        proof {
            use_type_invariant(&self);
        }
        let ShMap { entries: mut s } = self;
        let ghost s0 = s@;
        let n = s.len();
        let mut i: usize = 0;
        while i < n
            invariant
                n == s@.len(),
                0 <= i <= n,
                s@ == s0,
                self@ == as_map(s0),
                distinct_keys(s0),
                forall|j: int| 0 <= j < i ==> s@[j].0@ != key@,
            decreases n - i,
        {
            if eq_str(s[i].0.as_str(), key.as_str()) {
                proof {
                    lemma_as_map_update(s0, i as int, key, value);
                }
                s.set(i, (key, value));
                proof {
                    assert(s@ == s0.update(i as int, (key, value)));
                    assert(as_map(s@) == as_map(s0).insert(key@, value));
                }
                return ShMap { entries: s };
            }
            i = i + 1;
        }
        proof {
            lemma_as_map_contains(s0, key@);
            assert(distinct_keys(s0.push((key, value)))) by {
                assert forall|p: int, q: int|
                    0 <= p < q < s0.push((key, value)).len() implies s0.push((key, value))[p].0@
                    != s0.push((key, value))[q].0@ by {
                    if q < s0.len() {
                        assert(s0[p].0@ != s0[q].0@);
                    } else {
                        assert(s0.push((key, value))[q] == (key, value));
                        assert(s0[p].0@ != key@);
                    }
                }
            }
            assert(s0.push((key, value)).drop_last() =~= s0);
        }
        s.push((key, value));
        ShMap { entries: s }
    }

    /// Left-biased union: the result holds every key of both operands, and
    /// where a key is present in both, the receiver's value wins. The
    /// receiver is the "updates" operand, applied over the base `other`.
    pub fn union(self, other: ShMap<V>) -> (r: ShMap<V>)
        ensures
            r@ == other@.union_prefer_right(self@),
    {
        proof {
            use_type_invariant(&self);
        }
        let ShMap { entries: mut updates } = self;
        let mut base = other;
        let ghost u0 = updates@;
        let ghost b0 = base@;
        proof {
            lemma_fold_ins_union(b0, u0);
        }
        while updates.len() > 0
            invariant
                distinct_keys(updates@),
                fold_ins(base@, updates@) == b0.union_prefer_right(as_map(u0)),
            decreases updates@.len(),
        {
            proof {
                lemma_distinct_drop_last(updates@);
            }
            let (k, v) = updates.pop().unwrap();
            base.insert(k, v);
        }
        base
    }

    /// Key-only difference: returns `other` with every key present in the
    /// receiver removed, regardless of the receiver's values. The receiver is
    /// the "deletions" operand.
    pub fn difference(self, other: ShMap<V>) -> (r: ShMap<V>)
        ensures
            r@ == other@.remove_keys(self@.dom()),
    {
        proof {
            use_type_invariant(&other);
        }
        let ShMap { entries: mut rest } = other;
        let ghost r0 = rest@;
        let mut kept: Vec<(String, V)> = Vec::new();
        proof {
            assert(as_map(kept@) =~= Map::<Seq<char>, V>::empty());
            assert(as_map(r0).remove_keys(self@.dom()) =~= as_map(rest@).remove_keys(
                self@.dom(),
            ).union_prefer_right(as_map(kept@)));
        }
        while rest.len() > 0
            invariant
                distinct_keys(rest@),
                distinct_keys(kept@),
                as_map(r0).remove_keys(self@.dom()) == as_map(rest@).remove_keys(
                    self@.dom(),
                ).union_prefer_right(as_map(kept@)),
                forall|i: int, j: int|
                    0 <= i < rest@.len() && 0 <= j < kept@.len() ==> rest@[i].0@ != kept@[j].0@,
            decreases rest@.len(),
        {
            proof {
                lemma_distinct_drop_last(rest@);
            }
            let ghost rb = rest@;
            let (k, v) = rest.pop().unwrap();
            let ghost rd = rest@;
            let ghost kd = kept@;
            let ghost key = k@;
            proof {
                assert(rb =~= rd.push((k, v)));
                lemma_as_map_contains(kd, key);
                lemma_as_map_contains(rd, key);
                assert(!as_map(kd).contains_key(key));
                assert(!as_map(rd).contains_key(key));
                assert(as_map(rd.push((k, v))) == as_map(rd).insert(key, v)) by {
                    assert(rd.push((k, v)).drop_last() =~= rd);
                }
            }
            if self.contains_key(k.as_str()) {
                proof {
                    assert(as_map(rd.push((k, v))).remove_keys(self@.dom()) =~= as_map(
                        rd,
                    ).remove_keys(self@.dom()));
                }
            } else {
                proof {
                    assert(as_map(kd.push((k, v))) == as_map(kd).insert(key, v)) by {
                        assert(kd.push((k, v)).drop_last() =~= kd);
                    }
                    assert(as_map(rd.push((k, v))).remove_keys(self@.dom()).union_prefer_right(
                        as_map(kd),
                    ) =~= as_map(rd).remove_keys(self@.dom()).union_prefer_right(
                        as_map(kd).insert(key, v),
                    ));
                    assert(distinct_keys(kd.push((k, v)))) by {
                        assert forall|p: int, q: int|
                            0 <= p < q < kd.push((k, v)).len() implies kd.push((k, v))[p].0@
                            != kd.push((k, v))[q].0@ by {
                            if q < kd.len() {
                                assert(kd[p].0@ != kd[q].0@);
                            } else {
                                assert(kd.push((k, v))[q] == (k, v));
                            }
                        }
                    }
                    assert forall|i: int, j: int|
                        0 <= i < rd.len() && 0 <= j < kd.push((k, v)).len() implies rd[i].0@
                        != kd.push((k, v))[j].0@ by {
                        if j < kd.len() {
                            assert(rd[i].0@ != kd[j].0@);
                        } else {
                            assert(kd.push((k, v))[j] == (k, v));
                            assert(rb[i].0@ != rb[rb.len() - 1].0@);
                        }
                    }
                }
                kept.push((k, v));
            }
        }
        proof {
            assert(as_map(r0).remove_keys(self@.dom()) =~= as_map(kept@));
        }
        ShMap { entries: kept }
    }

    /// Borrows the entry list: each pair holds a key and the value stored
    /// under it, every key of the mapping appears exactly once, and no
    /// ordering is semantically meaningful.
    pub fn pairs<'a>(&'a self) -> (r: &'a Vec<(String, V)>)
        ensures
            r@.len() == self@.len(),
            forall|i: int|
                0 <= i < r@.len() ==> self@.contains_key(#[trigger] r@[i].0@) && self@[r@[i].0@]
                    == r@[i].1,
            forall|i: int, j: int| 0 <= i < j < r@.len() ==> r@[i].0@ != r@[j].0@,
            forall|k: Seq<char>|
                self@.contains_key(k) ==> exists|i: int| 0 <= i < r@.len() && #[trigger] r@[i].0@
                    == k,
    {
        proof {
            use_type_invariant(self);
            lemma_as_map_len(self.entries@);
            assert forall|i: int| 0 <= i < self.entries@.len() implies self@.contains_key(
                #[trigger] self.entries@[i].0@,
            ) && self@[self.entries@[i].0@] == self.entries@[i].1 by {
                lemma_as_map_index(self.entries@, i);
            }
            assert forall|k: Seq<char>| self@.contains_key(k) implies exists|i: int|
                0 <= i < self.entries@.len() && #[trigger] self.entries@[i].0@ == k by {
                lemma_as_map_contains(self.entries@, k);
            }
        }
        &self.entries
    }
}



} // verus!
