//! The order of strings by their UTF-8 bytes, and ascending lists of strings.

use vstd::prelude::*;
use vstd::utf8::*;

verus! {

/// Whether `a` sorts before `b` when both are read from index `i` on: at the
/// first index where they differ `a` holds the smaller byte, or `a` ends
/// there and `b` does not.
pub open spec fn bytes_lt_from(a: Seq<u8>, b: Seq<u8>, i: int) -> bool
    decreases a.len() - i,
{
    if i < 0 || i >= b.len() {
        false
    } else if i >= a.len() {
        true
    } else if a[i] != b[i] {
        a[i] < b[i]
    } else {
        bytes_lt_from(a, b, i + 1)
    }
}

/// The strict order of strings: lexicographic by the bytes of their UTF-8
/// encoding, which is the order of `str` and `String`.
pub open spec fn str_lt(a: Seq<char>, b: Seq<char>) -> bool {
    bytes_lt_from(encode_utf8(a), encode_utf8(b), 0)
}

/// No list of bytes sorts before itself.
pub proof fn lemma_bytes_lt_irreflexive(a: Seq<u8>, i: int)
    ensures
        !bytes_lt_from(a, a, i),
    decreases a.len() - i,
{
    if 0 <= i < a.len() {
        lemma_bytes_lt_irreflexive(a, i + 1);
    }
}

/// The order of lists of bytes is transitive.
pub proof fn lemma_bytes_lt_transitive(a: Seq<u8>, b: Seq<u8>, c: Seq<u8>, i: int)
    requires
        bytes_lt_from(a, b, i),
        bytes_lt_from(b, c, i),
    ensures
        bytes_lt_from(a, c, i),
    decreases a.len() - i,
{
    if i < a.len() && a[i] == b[i] && b[i] == c[i] {
        lemma_bytes_lt_transitive(a, b, c, i + 1);
    }
}

/// Two lists of bytes of which neither sorts before the other are the same
/// from `i` on.
pub proof fn lemma_bytes_lt_total(a: Seq<u8>, b: Seq<u8>, i: int)
    requires
        0 <= i <= a.len(),
        i <= b.len(),
        !bytes_lt_from(a, b, i),
        !bytes_lt_from(b, a, i),
    ensures
        a.skip(i) == b.skip(i),
    decreases a.len() - i,
{
    if i < a.len() && i < b.len() {
        lemma_bytes_lt_total(a, b, i + 1);
        assert(a.skip(i) =~= seq![a[i]] + a.skip(i + 1));
        assert(b.skip(i) =~= seq![b[i]] + b.skip(i + 1));
    } else {
        assert(a.skip(i) =~= b.skip(i));
    }
}

/// No string sorts before itself.
pub proof fn lemma_str_lt_irreflexive(a: Seq<char>)
    ensures
        !str_lt(a, a),
{
    lemma_bytes_lt_irreflexive(encode_utf8(a), 0);
}

/// The order of strings is transitive.
pub proof fn lemma_str_lt_transitive(a: Seq<char>, b: Seq<char>, c: Seq<char>)
    requires
        str_lt(a, b),
        str_lt(b, c),
    ensures
        str_lt(a, c),
{
    lemma_bytes_lt_transitive(encode_utf8(a), encode_utf8(b), encode_utf8(c), 0);
}

/// Of two strings one sorts before the other, or they are the same string.
pub proof fn lemma_str_lt_total(a: Seq<char>, b: Seq<char>)
    ensures
        str_lt(a, b) || str_lt(b, a) || a == b,
        !(str_lt(a, b) && str_lt(b, a)),
{
    let x = encode_utf8(a);
    let y = encode_utf8(b);
    if str_lt(a, b) && str_lt(b, a) {
        lemma_bytes_lt_transitive(x, y, x, 0);
        lemma_bytes_lt_irreflexive(x, 0);
    }
    if !str_lt(a, b) && !str_lt(b, a) {
        lemma_bytes_lt_total(x, y, 0);
        assert(x =~= x.skip(0));
        assert(y =~= y.skip(0));
        encode_utf8_decode_utf8(a);
        encode_utf8_decode_utf8(b);
    }
}

/// Whether `a` sorts before `b`.
pub fn str_less(a: &str, b: &str) -> (r: bool)
    ensures
        r == str_lt(a@, b@),
{
    let x = a.as_bytes();
    let y = b.as_bytes();
    let mut i: usize = 0;
    while i < x.len() && i < y.len() && x[i] == y[i]
        invariant
            i <= x.len(),
            i <= y.len(),
            bytes_lt_from(x@, y@, 0) == bytes_lt_from(x@, y@, i as int),
        decreases x.len() - i,
    {
        i = i + 1;
    }
    if i >= y.len() {
        false
    } else if i >= x.len() {
        true
    } else {
        x[i] < y[i]
    }
}

/// Whether `a` and `b` are the same string.
pub fn str_equal(a: &str, b: &str) -> (r: bool)
    ensures
        r == (a@ == b@),
{
    let x = a.as_bytes();
    let y = b.as_bytes();
    proof {
        encode_utf8_decode_utf8(a@);
        encode_utf8_decode_utf8(b@);
    }
    if x.len() != y.len() {
        return false;
    }
    let mut i: usize = 0;
    while i < x.len()
        invariant
            i <= x.len(),
            x.len() == y.len(),
            x@ == encode_utf8(a@),
            y@ == encode_utf8(b@),
            forall|j: int| 0 <= j < i ==> x@[j] == y@[j],
        decreases x.len() - i,
    {
        if x[i] != y[i] {
            assert(x@[i as int] != y@[i as int]);
            return false;
        }
        i = i + 1;
    }
    assert(x@ =~= y@);
    true
}

/// The contents of each string of `v`.
pub open spec fn contents(v: Seq<String>) -> Seq<Seq<char>> {
    Seq::new(v.len(), |i: int| v[i]@)
}

/// Whether each string of `keys` sorts before all that follow it.
pub open spec fn ascending(keys: Seq<Seq<char>>) -> bool {
    forall|i: int, j: int| 0 <= i < j < keys.len() ==> str_lt(#[trigger] keys[i], #[trigger] keys[j])
}

/// The number of strings in `keys` that sort before `key`. In an ascending
/// list this is the index of the first string at or after `key`.
pub open spec fn count_below(keys: Seq<Seq<char>>, key: Seq<char>) -> nat
    decreases keys.len(),
{
    if keys.len() == 0 {
        0
    } else {
        count_below(keys.drop_last(), key) + if str_lt(keys.last(), key) {
            1nat
        } else {
            0nat
        }
    }
}

/// In an ascending list the strings before `key` are those at the first
/// `count_below` indices.
pub proof fn lemma_count_below_ascending(keys: Seq<Seq<char>>, key: Seq<char>)
    requires
        ascending(keys),
    ensures
        count_below(keys, key) <= keys.len(),
        forall|j: int| 0 <= j < count_below(keys, key) ==> str_lt(#[trigger] keys[j], key),
        forall|j: int| count_below(keys, key) <= j < keys.len() ==> !str_lt(#[trigger] keys[j], key),
    decreases keys.len(),
{
    if keys.len() > 0 {
        let front = keys.drop_last();
        assert forall|i: int, j: int| 0 <= i < j < front.len() implies str_lt(
            #[trigger] front[i],
            #[trigger] front[j],
        ) by {
            assert(front[i] == keys[i] && front[j] == keys[j]);
        }
        lemma_count_below_ascending(front, key);
        let n = count_below(front, key);
        assert forall|j: int| 0 <= j < count_below(keys, key) implies str_lt(
            #[trigger] keys[j],
            key,
        ) by {
            if j < front.len() {
                assert(keys[j] == front[j]);
                if j >= n {
                    // then the last key is below `key`, and `keys[j]` below the last
                    assert(str_lt(keys.last(), key));
                    if j < keys.len() - 1 {
                        lemma_str_lt_transitive(keys[j], keys.last(), key);
                    }
                }
            }
        }
        assert forall|j: int| count_below(keys, key) <= j < keys.len() implies !str_lt(
            #[trigger] keys[j],
            key,
        ) by {
            if j < front.len() {
                assert(keys[j] == front[j]);
            } else if str_lt(keys.last(), key) {
                // all of the front is then below `key`, so nothing is left at `j`
                assert(n < front.len());
                assert(front[n as int] == keys[n as int]);
                lemma_str_lt_transitive(keys[n as int], keys.last(), key);
            }
        }
    }
}

/// An index that parts an ascending list into the strings before `key` and
/// the others is `count_below`.
pub proof fn lemma_count_below_is(keys: Seq<Seq<char>>, key: Seq<char>, i: int)
    requires
        ascending(keys),
        0 <= i <= keys.len(),
        forall|j: int| 0 <= j < i ==> str_lt(#[trigger] keys[j], key),
        forall|j: int| i <= j < keys.len() ==> !str_lt(#[trigger] keys[j], key),
    ensures
        count_below(keys, key) == i,
{
    lemma_count_below_ascending(keys, key);
    let n = count_below(keys, key) as int;
    if n < i {
        assert(str_lt(keys[n], key));
    }
    if i < n {
        assert(str_lt(keys[i], key));
    }
}

/// An ascending list holds `key` exactly where it holds it at the index
/// `count_below`.
pub proof fn lemma_contains_at(keys: Seq<Seq<char>>, key: Seq<char>)
    requires
        ascending(keys),
    ensures
        keys.contains(key) <==> (count_below(keys, key) < keys.len() && keys[count_below(
            keys,
            key,
        ) as int] == key),
{
    lemma_count_below_ascending(keys, key);
    let n = count_below(keys, key) as int;
    if keys.contains(key) {
        let j = choose|j: int| 0 <= j < keys.len() && keys[j] == key;
        lemma_str_lt_irreflexive(key);
        if j < n {
            assert(str_lt(keys[j], key));
        }
        if j > n {
            assert(str_lt(keys[n], keys[j]));
        }
    }
}

/// `keys` with `key` put in at its place, unless it is there already.
pub open spec fn insert_key(keys: Seq<Seq<char>>, key: Seq<char>) -> Seq<Seq<char>> {
    if keys.contains(key) {
        keys
    } else {
        keys.insert(count_below(keys, key) as int, key)
    }
}

/// Putting a string into an ascending list keeps the list ascending and adds
/// that string to what it holds, nothing else.
pub proof fn lemma_insert_key(keys: Seq<Seq<char>>, key: Seq<char>)
    requires
        ascending(keys),
    ensures
        ascending(insert_key(keys, key)),
        forall|k: Seq<char>| #[trigger]
            insert_key(keys, key).contains(k) <==> (keys.contains(k) || k == key),
{
    let r = insert_key(keys, key);
    let n = count_below(keys, key) as int;
    lemma_count_below_ascending(keys, key);
    if !keys.contains(key) {
        assert forall|i: int, j: int| 0 <= i < j < r.len() implies str_lt(
            #[trigger] r[i],
            #[trigger] r[j],
        ) by {
            if i == n {
                assert(r[j] == keys[j - 1]);
                assert(keys.contains(keys[j - 1]));
                lemma_str_lt_total(key, keys[j - 1]);
            } else if j == n {
                assert(r[i] == keys[i]);
            } else {
                let i0 = if i < n { i } else { i - 1 };
                let j0 = if j < n { j } else { j - 1 };
                assert(r[i] == keys[i0] && r[j] == keys[j0]);
            }
        }
        assert forall|k: Seq<char>| #[trigger] r.contains(k) <==> (keys.contains(k) || k == key) by {
            if r.contains(k) {
                let i = choose|i: int| 0 <= i < r.len() && r[i] == k;
                if i < n {
                    assert(keys[i] == k);
                } else if i > n {
                    assert(keys[i - 1] == k);
                }
            }
            if keys.contains(k) {
                let i = choose|i: int| 0 <= i < keys.len() && keys[i] == k;
                if i < n {
                    assert(r[i] == k);
                } else {
                    assert(r[i + 1] == k);
                }
            }
            if k == key {
                assert(r[n] == k);
            }
        }
    }
}

/// An ascending list holds no string twice.
pub proof fn lemma_index_unique(keys: Seq<Seq<char>>, i: int, j: int)
    requires
        ascending(keys),
        0 <= i < keys.len(),
        0 <= j < keys.len(),
        keys[i] == keys[j],
    ensures
        i == j,
{
    lemma_str_lt_irreflexive(keys[i]);
    if i < j {
        assert(str_lt(keys[i], keys[j]));
    }
    if j < i {
        assert(str_lt(keys[j], keys[i]));
    }
}

/// In an ascending list each string stands at the index `count_below`.
pub proof fn lemma_count_below_at(keys: Seq<Seq<char>>, i: int)
    requires
        ascending(keys),
        0 <= i < keys.len(),
    ensures
        count_below(keys, keys[i]) == i,
{
    assert(keys.contains(keys[i]));
    lemma_contains_at(keys, keys[i]);
    lemma_index_unique(keys, count_below(keys, keys[i]) as int, i);
}

/// The ascending list of the strings of `a` and of `b`.
pub open spec fn union_keys(a: Seq<Seq<char>>, b: Seq<Seq<char>>) -> Seq<Seq<char>> {
    b.fold_left(a, |acc: Seq<Seq<char>>, k: Seq<char>| insert_key(acc, k))
}

/// The union of an ascending list with any list is ascending, and holds
/// what either holds.
pub proof fn lemma_union_keys(a: Seq<Seq<char>>, b: Seq<Seq<char>>)
    requires
        ascending(a),
    ensures
        ascending(union_keys(a, b)),
        forall|k: Seq<char>| #[trigger]
            union_keys(a, b).contains(k) <==> (a.contains(k) || b.contains(k)),
    decreases b.len(),
{
    if b.len() > 0 {
        let front = b.drop_last();
        lemma_union_keys(a, front);
        let u = union_keys(a, front);
        lemma_insert_key(u, b.last());
        assert(union_keys(a, b) == insert_key(u, b.last()));
        assert forall|k: Seq<char>| #[trigger]
            union_keys(a, b).contains(k) <==> (a.contains(k) || b.contains(k)) by {
            assert(insert_key(u, b.last()).contains(k) <==> (u.contains(k) || k == b.last()));
            assert(u.contains(k) <==> (a.contains(k) || front.contains(k)));
            if front.contains(k) {
                let i = choose|i: int| 0 <= i < front.len() && front[i] == k;
                assert(b[i] == k);
            }
            if b.contains(k) {
                let i = choose|i: int| 0 <= i < b.len() && b[i] == k;
                if i < front.len() {
                    assert(front[i] == k);
                }
            }
        }
    }
}

/// Two ascending lists that hold the same strings are the same list.
pub proof fn lemma_ascending_unique(a: Seq<Seq<char>>, b: Seq<Seq<char>>)
    requires
        ascending(a),
        ascending(b),
        forall|k: Seq<char>| a.contains(k) <==> b.contains(k),
    ensures
        a == b,
    decreases a.len(),
{
    if a.len() == 0 {
        if b.len() > 0 {
            assert(b.contains(b[0]));
        }
        assert(a =~= b);
    } else {
        assert(a.contains(a.last()));
        assert(b.len() > 0);
        assert(b.contains(b.last()));
        // the greatest string of each list is the greatest of the other
        let i = choose|i: int| 0 <= i < b.len() && b[i] == a.last();
        let j = choose|j: int| 0 <= j < a.len() && a[j] == b.last();
        lemma_str_lt_total(a.last(), b.last());
        if i < b.len() - 1 {
            assert(str_lt(b[i], b.last()));
        }
        if j < a.len() - 1 {
            assert(str_lt(a[j], a.last()));
        }
        assert(a.last() == b.last());
        let a0 = a.drop_last();
        let b0 = b.drop_last();
        assert forall|k: Seq<char>| a0.contains(k) <==> b0.contains(k) by {
            lemma_str_lt_irreflexive(k);
            if a0.contains(k) {
                let x = choose|x: int| 0 <= x < a0.len() && a0[x] == k;
                assert(a[x] == k && str_lt(a[x], a.last()));
                assert(a.contains(k));
                let y = choose|y: int| 0 <= y < b.len() && b[y] == k;
                assert(b0[y] == k);
            }
            if b0.contains(k) {
                let y = choose|y: int| 0 <= y < b0.len() && b0[y] == k;
                assert(b[y] == k && str_lt(b[y], b.last()));
                assert(b.contains(k));
                let x = choose|x: int| 0 <= x < a.len() && a[x] == k;
                assert(a0[x] == k);
            }
        }
        assert(ascending(a0)) by {
            assert forall|x: int, y: int| 0 <= x < y < a0.len() implies str_lt(
                #[trigger] a0[x],
                #[trigger] a0[y],
            ) by {
                assert(a0[x] == a[x] && a0[y] == a[y]);
            }
        }
        assert(ascending(b0)) by {
            assert forall|x: int, y: int| 0 <= x < y < b0.len() implies str_lt(
                #[trigger] b0[x],
                #[trigger] b0[y],
            ) by {
                assert(b0[x] == b[x] && b0[y] == b[y]);
            }
        }
        lemma_ascending_unique(a0, b0);
        assert(a =~= a0.push(a.last()));
        assert(b =~= b0.push(b.last()));
    }
}

/// The index of the first string of `keys` at or after `key`, found by
/// bisection.
pub(crate) fn lower_bound(keys: &Vec<String>, key: &str) -> (i: usize)
    requires
        ascending(contents(keys@)),
    ensures
        i == count_below(contents(keys@), key@),
        i <= keys.len(),
{
    let ghost ks = contents(keys@);
    let mut lo: usize = 0;
    let mut hi: usize = keys.len();
    while lo < hi
        invariant
            lo <= hi <= keys.len(),
            ks == contents(keys@),
            ascending(ks),
            forall|j: int| 0 <= j < lo ==> str_lt(#[trigger] ks[j], key@),
            forall|j: int| hi <= j < ks.len() ==> !str_lt(#[trigger] ks[j], key@),
        decreases hi - lo,
    {
        let mid = lo + (hi - lo) / 2;
        if str_less(keys[mid].as_str(), key) {
            proof {
                assert forall|j: int| 0 <= j < mid + 1 implies str_lt(#[trigger] ks[j], key@) by {
                    if j < mid {
                        lemma_str_lt_transitive(ks[j], ks[mid as int], key@);
                    }
                }
            }
            lo = mid + 1;
        } else {
            proof {
                assert forall|j: int| mid <= j < ks.len() implies !str_lt(#[trigger] ks[j], key@) by {
                    if j > mid && str_lt(ks[j], key@) {
                        lemma_str_lt_transitive(ks[mid as int], ks[j], key@);
                    }
                }
            }
            hi = mid;
        }
    }
    proof {
        lemma_count_below_is(ks, key@, lo as int);
    }
    lo
}

} // verus!
