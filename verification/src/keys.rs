//! The set of keys known to exist in the store, kept in ascending order.

use vstd::prelude::*;
use crate::order::{
    ascending, contents, count_below, insert_key, lemma_ascending_unique, lemma_contains_at,
    lemma_insert_key, lemma_str_lt_total, lemma_str_lt_transitive, lemma_union_keys, lower_bound,
    str_equal, str_less, str_lt, union_keys,
};

verus! {

/// An ordered set of strings. Its view is the ascending list of its members.
pub struct KeySet {
    keys: Vec<String>,
}

impl View for KeySet {
    type V = Seq<Seq<char>>;

    closed spec fn view(&self) -> Seq<Seq<char>> {
        contents(self.keys@)
    }
}

impl KeySet {
    #[verifier::type_invariant]
    spec fn inv(self) -> bool {
        ascending(contents(self.keys@))
    }

    /// The empty set.
    pub fn new() -> (r: KeySet)
        ensures
            r@ == Seq::<Seq<char>>::empty(),
    {
        let r = KeySet { keys: Vec::new() };
        assert(r@ =~= Seq::<Seq<char>>::empty());
        r
    }

    /// The number of keys.
    pub fn len(&self) -> (n: usize)
        ensures
            n == self@.len(),
            ascending(self@),
    {
        proof {
            use_type_invariant(self);
        }
        self.keys.len()
    }

    /// Whether the set holds no key.
    pub fn is_empty(&self) -> (r: bool)
        ensures
            r == (self@.len() == 0),
    {
        self.keys.len() == 0
    }

    /// The key at index `i` of the ascending list.
    pub fn get(&self, i: usize) -> (r: &String)
        requires
            i < self@.len(),
        ensures
            r@ == self@[i as int],
    {
        &self.keys[i]
    }

    /// The number of keys that sort before `key`: the index of the first key
    /// at or after it.
    pub fn rank(&self, key: &str) -> (i: usize)
        ensures
            i == count_below(self@, key@),
            i <= self@.len(),
    {
        proof {
            use_type_invariant(self);
        }
        lower_bound(&self.keys, key)
    }

    /// The key that stands `n` places after the first key at or after
    /// `start`; none where fewer keys are left.
    pub fn nth_from(&self, start: &str, n: usize) -> (r: Option<&String>)
        ensures
            match r {
                Some(k) => n < self@.len() - count_below(self@, start@) && k@ == self@[count_below(
                    self@,
                    start@,
                ) + n],
                None => n >= self@.len() - count_below(self@, start@),
            },
    {
        let first = self.rank(start);
        if n < self.keys.len() - first {
            Some(&self.keys[first + n])
        } else {
            None
        }
    }

    /// The greatest key; none where the set is empty.
    pub fn last(&self) -> (r: Option<&String>)
        ensures
            match r {
                Some(k) => self@.len() > 0 && k@ == self@.last(),
                None => self@.len() == 0,
            },
    {
        if self.keys.len() > 0 {
            Some(&self.keys[self.keys.len() - 1])
        } else {
            None
        }
    }

    /// Whether `key` is in the set.
    pub fn contains(&self, key: &str) -> (r: bool)
        ensures
            r == self@.contains(key@),
    {
        proof {
            use_type_invariant(self);
            lemma_contains_at(self@, key@);
        }
        let i = lower_bound(&self.keys, key);
        i < self.keys.len() && str_equal(self.keys[i].as_str(), key)
    }

    /// Adds `key` to the set and says whether it was new.
    pub fn insert(&mut self, key: String) -> (fresh: bool)
        ensures
            final(self)@ == insert_key(old(self)@, key@),
            fresh == !old(self)@.contains(key@),
            ascending(final(self)@),
    {
        proof {
            use_type_invariant(&*self);
            lemma_contains_at(self@, key@);
            lemma_insert_key(self@, key@);
        }
        let i = lower_bound(&self.keys, key.as_str());
        if i < self.keys.len() && str_equal(self.keys[i].as_str(), key.as_str()) {
            false
        } else {
            let mut keys: Vec<String> = Vec::new();
            std::mem::swap(&mut keys, &mut self.keys);
            let ghost before = contents(keys@);
            keys.insert(i, key);
            assert(contents(keys@) =~= before.insert(i as int, key@));
            self.keys = keys;
            true
        }
    }

    /// Adds every key of `other` to the set.
    pub fn extend(&mut self, other: &KeySet)
        ensures
            final(self)@ == union_keys(old(self)@, other@),
            ascending(final(self)@),
            forall|k: Seq<char>| #[trigger]
                final(self)@.contains(k) <==> (old(self)@.contains(k) || other@.contains(k)),
    {
        proof {
            use_type_invariant(&*self);
            use_type_invariant(other);
        }
        let ghost a = self@;
        let ghost b = other@;
        let n = self.keys.len();
        let m = other.keys.len();
        let mut out: Vec<String> = Vec::new();
        let mut i: usize = 0;
        let mut j: usize = 0;
        while i < n || j < m
            invariant
                i <= n,
                j <= m,
                n == self.keys.len(),
                m == other.keys.len(),
                a == contents(self.keys@),
                b == contents(other.keys@),
                ascending(a),
                ascending(b),
                ascending(contents(out@)),
                forall|x: int| 0 <= x < out.len() && i < n ==> str_lt(
                    #[trigger] contents(out@)[x],
                    a[i as int],
                ),
                forall|x: int| 0 <= x < out.len() && j < m ==> str_lt(
                    #[trigger] contents(out@)[x],
                    b[j as int],
                ),
                forall|k: Seq<char>| #[trigger]
                    contents(out@).contains(k) <==> (a.take(i as int).contains(k) || b.take(
                        j as int,
                    ).contains(k)),
            decreases (n - i) + (m - j),
        {
            let ghost prev = contents(out@);
            let ghost i0 = i as int;
            let ghost j0 = j as int;
            let take_a = j >= m || (i < n && str_less(self.keys[i].as_str(), other.keys[j].as_str()));
            let take_b = !take_a && (i >= n || str_less(
                other.keys[j].as_str(),
                self.keys[i].as_str(),
            ));
            let next = if take_b {
                other.keys[j].clone()
            } else {
                self.keys[i].clone()
            };
            proof {
                if i < n && j < m {
                    lemma_str_lt_total(a[i0], b[j0]);
                }
            }
            out.push(next);
            if take_b {
                j = j + 1;
            } else if take_a {
                i = i + 1;
            } else {
                i = i + 1;
                j = j + 1;
            }
            proof {
                let now = contents(out@);
                assert(now =~= prev.push(next@));
                assert(a.take(i as int) =~= if i == i0 {
                    a.take(i0)
                } else {
                    a.take(i0).push(a[i0])
                });
                assert(b.take(j as int) =~= if j == j0 {
                    b.take(j0)
                } else {
                    b.take(j0).push(b[j0])
                });
                assert forall|x: int| 0 <= x < now.len() && i < n implies str_lt(
                    #[trigger] now[x],
                    a[i as int],
                ) by {
                    if x < prev.len() {
                        assert(now[x] == prev[x]);
                        if i != i0 {
                            lemma_str_lt_transitive(prev[x], a[i0], a[i as int]);
                        }
                    }
                }
                assert forall|x: int| 0 <= x < now.len() && j < m implies str_lt(
                    #[trigger] now[x],
                    b[j as int],
                ) by {
                    if x < prev.len() {
                        assert(now[x] == prev[x]);
                        if j != j0 {
                            lemma_str_lt_transitive(prev[x], b[j0], b[j as int]);
                        }
                    }
                }
                assert forall|x: int, y: int| 0 <= x < y < now.len() implies str_lt(
                    #[trigger] now[x],
                    #[trigger] now[y],
                ) by {
                    assert(now[x] == prev[x]);
                    if y < prev.len() {
                        assert(now[y] == prev[y]);
                    }
                }
                assert forall|k: Seq<char>| #[trigger]
                    now.contains(k) <==> (a.take(i as int).contains(k) || b.take(
                        j as int,
                    ).contains(k)) by {
                    lemma_push_contains(prev, next@, k);
                    if i != i0 {
                        lemma_push_contains(a.take(i0), a[i0], k);
                    }
                    if j != j0 {
                        lemma_push_contains(b.take(j0), b[j0], k);
                    }
                }
            }
        }
        proof {
            assert(a.take(n as int) =~= a);
            assert(b.take(m as int) =~= b);
            lemma_union_keys(a, b);
            assert forall|k: Seq<char>| contents(out@).contains(k) <==> union_keys(a, b).contains(
                k,
            ) by {
                assert(contents(out@).contains(k) <==> (a.contains(k) || b.contains(k)));
                assert(union_keys(a, b).contains(k) <==> (a.contains(k) || b.contains(k)));
            }
            lemma_ascending_unique(contents(out@), union_keys(a, b));
        }
        self.keys = out;
    }

    /// The keys in ascending order.
    pub fn to_vec(&self) -> (v: Vec<String>)
        ensures
            contents(v@) == self@,
    {
        let mut v: Vec<String> = Vec::new();
        let mut i: usize = 0;
        while i < self.keys.len()
            invariant
                i <= self.keys.len(),
                contents(v@) == contents(self.keys@).take(i as int),
            decreases self.keys.len() - i,
        {
            let ghost prev = contents(v@);
            let k = self.keys[i].clone();
            v.push(k);
            assert(contents(v@) =~= prev.push(k@));
            assert(contents(self.keys@).take(i + 1) =~= contents(self.keys@).take(i as int).push(
                self.keys[i as int]@,
            ));
            i = i + 1;
        }
        assert(contents(self.keys@).take(i as int) =~= contents(self.keys@));
        v
    }
}

impl Clone for KeySet {
    fn clone(&self) -> (r: KeySet)
        ensures
            r@ == self@,
    {
        proof {
            use_type_invariant(self);
        }
        KeySet { keys: self.to_vec() }
    }
}

/// A list with one more item at its end holds that item and what it held.
pub proof fn lemma_push_contains(s: Seq<Seq<char>>, x: Seq<char>, k: Seq<char>)
    ensures
        s.push(x).contains(k) <==> (s.contains(k) || k == x),
{
    let t = s.push(x);
    if t.contains(k) {
        let i = choose|i: int| 0 <= i < t.len() && t[i] == k;
        if i < s.len() {
            assert(s[i] == k);
        }
    }
    if s.contains(k) {
        let i = choose|i: int| 0 <= i < s.len() && s[i] == k;
        assert(t[i] == k);
    }
    if k == x {
        assert(t[s.len() as int] == k);
    }
}

} // verus!
