//! Whitespace, words, substrings and decimal numbers in strings.

use vstd::prelude::*;
use vstd::string::*;

verus! {

/// Whether `c` has the Unicode property `White_Space`.
pub open spec fn is_space(c: char) -> bool {
    let u = c as u32;
    ||| 0x09 <= u <= 0x0D
    ||| u == 0x20
    ||| u == 0x85
    ||| u == 0xA0
    ||| u == 0x1680
    ||| 0x2000 <= u <= 0x200A
    ||| u == 0x2028
    ||| u == 0x2029
    ||| u == 0x202F
    ||| u == 0x205F
    ||| u == 0x3000
}

/// Tests a character for the Unicode property `White_Space`.
pub fn is_whitespace(c: char) -> (r: bool)
    ensures
        r == is_space(c),
{
    let u: u32 = c as u32;
    (0x09 <= u && u <= 0x0D) || u == 0x20 || u == 0x85 || u == 0xA0 || u == 0x1680 || (0x2000 <= u
        && u <= 0x200A) || u == 0x2028 || u == 0x2029 || u == 0x202F || u == 0x205F || u == 0x3000
}

/// The characters of `s`, in order.
pub fn chars_of(s: &str) -> (v: Vec<char>)
    ensures
        v@ == s@,
{
    let mut v: Vec<char> = Vec::new();
    for c in it: s.chars()
        invariant
            v@ == it.seq().take(it.index() as int),
            it.seq() == s@,
    {
        v.push(c);
    }
    v
}

/// First index at or after `i` that holds no whitespace; the length of `s`
/// where only whitespace follows.
pub open spec fn skip_spaces(s: Seq<char>, i: int) -> int
    decreases s.len() - i,
{
    if 0 <= i < s.len() && is_space(s[i]) {
        skip_spaces(s, i + 1)
    } else {
        i
    }
}

/// First index at or after `i` that holds whitespace; the length of `s`
/// where none follows.
pub open spec fn word_end(s: Seq<char>, i: int) -> int
    decreases s.len() - i,
{
    if 0 <= i < s.len() && !is_space(s[i]) {
        word_end(s, i + 1)
    } else {
        i
    }
}

/// Where `skip_spaces` ends: within `s`, behind whitespace only, and at a
/// character that is none.
pub proof fn lemma_skip_spaces_bounds(s: Seq<char>, i: int)
    requires
        0 <= i <= s.len(),
    ensures
        i <= skip_spaces(s, i) <= s.len(),
        skip_spaces(s, i) < s.len() ==> !is_space(s[skip_spaces(s, i)]),
        forall|j: int| i <= j < skip_spaces(s, i) ==> is_space(#[trigger] s[j]),
    decreases s.len() - i,
{
    if i < s.len() && is_space(s[i]) {
        lemma_skip_spaces_bounds(s, i + 1);
    }
}

/// Where `word_end` ends: within `s`, behind characters that are no
/// whitespace, and at one that is.
pub proof fn lemma_word_end_bounds(s: Seq<char>, i: int)
    requires
        0 <= i <= s.len(),
    ensures
        i <= word_end(s, i) <= s.len(),
        word_end(s, i) < s.len() ==> is_space(s[word_end(s, i)]),
        forall|j: int| i <= j < word_end(s, i) ==> !is_space(#[trigger] s[j]),
    decreases s.len() - i,
{
    if i < s.len() && !is_space(s[i]) {
        lemma_word_end_bounds(s, i + 1);
    }
}

/// The words of `s` that start at or after index `i`: the maximal runs of
/// characters that are not whitespace, from left to right.
pub open spec fn words_from(s: Seq<char>, i: int) -> Seq<Seq<char>>
    decreases s.len() - i,
{
    let b = skip_spaces(s, i);
    let e = word_end(s, b);
    if 0 <= i && b < s.len() {
        proof {
            lemma_skip_spaces_bounds(s, i);
            lemma_word_end_bounds(s, b);
        }
        seq![s.subrange(b, e)] + words_from(s, e)
    } else {
        Seq::empty()
    }
}

/// The words of `s`: what is left of it when it is cut at every run of
/// whitespace.
pub open spec fn words(s: Seq<char>) -> Seq<Seq<char>> {
    words_from(s, 0)
}

/// The contents of each string slice of `v`.
pub open spec fn views(v: Seq<&str>) -> Seq<Seq<char>> {
    Seq::new(v.len(), |i: int| v[i]@)
}

fn skip_whitespace(chars: &Vec<char>, start: usize) -> (b: usize)
    requires
        start <= chars.len(),
    ensures
        b == skip_spaces(chars@, start as int),
        start <= b <= chars.len(),
{
    let mut b: usize = start;
    while b < chars.len() && is_whitespace(chars[b])
        invariant
            start <= b <= chars.len(),
            skip_spaces(chars@, start as int) == skip_spaces(chars@, b as int),
        decreases chars.len() - b,
    {
        b = b + 1;
    }
    b
}

fn scan_word(chars: &Vec<char>, start: usize) -> (e: usize)
    requires
        start <= chars.len(),
    ensures
        e == word_end(chars@, start as int),
        start <= e <= chars.len(),
{
    let mut e: usize = start;
    while e < chars.len() && !is_whitespace(chars[e])
        invariant
            start <= e <= chars.len(),
            word_end(chars@, start as int) == word_end(chars@, e as int),
        decreases chars.len() - e,
    {
        e = e + 1;
    }
    e
}

/// Cuts `line` into its words.
pub fn split_whitespace<'a>(line: &'a str) -> (toks: Vec<&'a str>)
    ensures
        views(toks@) == words(line@),
{
    let chars = chars_of(line);
    let n = chars.len();
    let mut toks: Vec<&'a str> = Vec::new();
    let mut i: usize = 0;
    loop
        invariant
            i <= n,
            n == chars.len(),
            chars@ == line@,
            views(toks@) + words_from(line@, i as int) == words(line@),
        ensures
            views(toks@) == words(line@),
        decreases n - i,
    {
        let b = skip_whitespace(&chars, i);
        if b >= n {
            assert(views(toks@) + Seq::<Seq<char>>::empty() =~= views(toks@));
            break ;
        }
        let e = scan_word(&chars, b);
        proof {
            lemma_word_end_bounds(line@, b as int);
        }
        let tok = line.substring_char(b, e);
        let ghost before = views(toks@);
        toks.push(tok);
        proof {
            assert(views(toks@) =~= before.push(tok@));
            assert(before.push(tok@) + words_from(line@, e as int) =~= before + (seq![tok@]
                + words_from(line@, e as int)));
        }
        i = e;
    }
    toks
}

/// Whether `pat` occurs in `s` as a run of neighbouring characters.
pub open spec fn has_infix(s: Seq<char>, pat: Seq<char>) -> bool {
    exists|i: int| 0 <= i && i + pat.len() <= s.len() && #[trigger] s.subrange(i, i + pat.len()) == pat
}

/// Whether `needle` occurs in `hay`.
pub fn contains_str(hay: &str, needle: &str) -> (r: bool)
    ensures
        r == has_infix(hay@, needle@),
{
    let h = chars_of(hay);
    let p = chars_of(needle);
    let n = h.len();
    let m = p.len();
    if m > n {
        return false;
    }
    let mut i: usize = 0;
    while i <= n - m
        invariant
            m <= n,
            n == h.len(),
            m == p.len(),
            h@ == hay@,
            p@ == needle@,
            i <= n - m + 1,
            forall|k: int| 0 <= k < i ==> #[trigger] h@.subrange(k, k + m) != p@,
        decreases n - m + 1 - i,
    {
        let mut j: usize = 0;
        while j < m && h[i + j] == p[j]
            invariant
                i + m <= n,
                n == h.len(),
                m == p.len(),
                j <= m,
                forall|k: int| 0 <= k < j ==> h@[i + k] == p@[k],
            decreases m - j,
        {
            j = j + 1;
        }
        if j == m {
            assert(h@.subrange(i as int, i + m) =~= p@);
            return true;
        }
        assert(h@.subrange(i as int, i + m)[j as int] != p@[j as int]);
        i = i + 1;
    }
    false
}

/// Whether `c` is one of the digits `0` to `9`.
pub open spec fn is_digit(c: char) -> bool {
    0x30 <= c as u32 <= 0x39
}

/// The number that a run of digits writes in base ten.
pub open spec fn decimal(s: Seq<char>) -> nat
    decreases s.len(),
{
    if s.len() == 0 {
        0
    } else {
        decimal(s.drop_last()) * 10 + (s.last() as u32 - 0x30) as nat
    }
}

/// Whether `s` holds digits and nothing else.
pub open spec fn all_digits(s: Seq<char>) -> bool {
    forall|i: int| 0 <= i < s.len() ==> is_digit(#[trigger] s[i])
}

/// `s` without the `+` that it may start with.
pub open spec fn unsigned_part(s: Seq<char>) -> Seq<char> {
    if s.len() > 0 && s[0] == '+' {
        s.drop_first()
    } else {
        s
    }
}

/// The number that `s` writes: an optional `+`, then at least one digit,
/// nothing else, and a value that a `usize` can hold.
pub open spec fn parse_count(s: Seq<char>) -> Option<nat> {
    let d = unsigned_part(s);
    if d.len() > 0 && all_digits(d) && decimal(d) <= usize::MAX {
        Some(decimal(d))
    } else {
        None
    }
}

/// A run of digits writes at least what any of its beginnings writes.
pub proof fn lemma_decimal_prefix(s: Seq<char>, k: int)
    requires
        0 <= k <= s.len(),
        all_digits(s),
    ensures
        decimal(s.take(k)) <= decimal(s),
    decreases s.len(),
{
    if k < s.len() {
        let front = s.drop_last();
        assert(front.take(k) =~= s.take(k));
        assert forall|i: int| 0 <= i < front.len() implies is_digit(#[trigger] front[i]) by {
            assert(front[i] == s[i]);
        }
        lemma_decimal_prefix(front, k);
        assert(is_digit(s[s.len() - 1]));
    } else {
        assert(s.take(k) =~= s);
    }
}

/// Reads a count written in base ten.
pub fn parse_decimal(s: &str) -> (r: Option<usize>)
    ensures
        match parse_count(s@) {
            Some(n) => r == Some(n as usize),
            None => r is None,
        },
{
    let chars = chars_of(s);
    let n = chars.len();
    let start: usize = if n > 0 && chars[0] == '+' {
        1
    } else {
        0
    };
    let ghost d = chars@.skip(start as int);
    assert(d =~= unsigned_part(s@));
    if start >= n {
        return None;
    }
    let mut acc: usize = 0;
    let mut i: usize = start;
    while i < n
        invariant
            start <= i <= n,
            n == chars.len(),
            d == chars@.skip(start as int),
            d == unsigned_part(s@),
            all_digits(d.take(i - start)),
            acc == decimal(d.take(i - start)),
        decreases n - i,
    {
        let c = chars[i];
        let u: u32 = c as u32;
        let ghost next = d.take(i - start + 1);
        proof {
            assert(next.drop_last() =~= d.take(i - start));
            assert(next.last() == c);
        }
        if u < 0x30 || u > 0x39 {
            assert(!is_digit(d[i - start]));
            return None;
        }
        let v: usize = (u - 0x30) as usize;
        if acc > (usize::MAX - v) / 10 {
            proof {
                assert(decimal(next) > usize::MAX);
                if all_digits(d) {
                    assert(next =~= d.take(i - start + 1));
                    lemma_decimal_prefix(d, i - start + 1);
                }
            }
            return None;
        }
        acc = acc * 10 + v;
        proof {
            assert forall|k: int| 0 <= k < next.len() implies is_digit(#[trigger] next[k]) by {
                if k < next.len() - 1 {
                    assert(next[k] == d.take(i - start)[k]);
                }
            }
        }
        i = i + 1;
    }
    assert(d.take(n - start) =~= d);
    Some(acc)
}

} // verus!
