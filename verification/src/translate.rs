//! Translation of the generator's log lines into calls on the store.

use vstd::prelude::*;
use vstd::string::*;
use crate::call::{KvCall, KvCallView};
use crate::error::{RunnerError, RunnerErrorView};
use crate::keys::KeySet;
use crate::order::{
    ascending, count_below, insert_key, lemma_count_below_ascending, str_equal, str_lt,
};
use crate::text::{contains_str, has_infix, parse_count, parse_decimal, split_whitespace, views, words};

verus! {

/// The key that the two words at `at` name: the first, an underscore, the
/// second. `None` where one of them is missing.
pub open spec fn key_of(toks: Seq<Seq<char>>, at: int) -> Option<Seq<char>> {
    if 0 <= at && at + 1 < toks.len() {
        Some(toks[at] + "_"@ + toks[at + 1])
    } else {
        None
    }
}

/// `parts` in one string, with an underscore between neighbours.
pub open spec fn join(parts: Seq<Seq<char>>) -> Seq<char>
    decreases parts.len(),
{
    if parts.len() == 0 {
        Seq::empty()
    } else if parts.len() == 1 {
        parts[0]
    } else {
        join(parts.drop_last()) + "_"@ + parts.last()
    }
}

/// The words that follow the opening bracket at `at`, without the closing
/// bracket where that is the last word.
pub open spec fn bracketed(toks: Seq<Seq<char>>, at: int) -> Seq<Seq<char>> {
    let rest = toks.skip(at + 1);
    if rest.len() > 0 && rest.last() == "]"@ {
        rest.drop_last()
    } else {
        rest
    }
}

/// The value that the words from `at` on hold: an opening bracket, then the
/// words of the value, which are joined by underscores. `None` where the
/// word at `at` is no opening bracket.
pub open spec fn value_of(toks: Seq<Seq<char>>, at: int) -> Option<Seq<char>> {
    if 0 <= at < toks.len() && toks[at] == "["@ {
        Some(join(bracketed(toks, at)))
    } else {
        None
    }
}

/// The scan count that the word at `at` writes.
pub open spec fn count_at(toks: Seq<Seq<char>>, at: int) -> Result<nat, RunnerErrorView> {
    if !(0 <= at < toks.len()) {
        Err(RunnerErrorView::Parse("missing scan count"@))
    } else {
        match parse_count(toks[at]) {
            Some(n) => Ok(n),
            None => Err(RunnerErrorView::Parse("invalid scan count"@)),
        }
    }
}

/// The end of a scan while no key is known: a string after every key.
pub open spec fn open_end() -> Seq<char> {
    "zzzzzzzz"@
}

/// The end of a scan of `count` keys from `key_start` on: the `count`-th of
/// the known keys at or after `key_start`, or the greatest known key where
/// fewer are left or `count` is zero.
pub open spec fn scan_end(keys: Seq<Seq<char>>, key_start: Seq<char>, count: nat) -> Seq<char> {
    let first = count_below(keys, key_start);
    if 1 <= count <= keys.len() - first {
        keys[first + count - 1]
    } else if keys.len() > 0 {
        keys.last()
    } else {
        open_end()
    }
}

/// What a line of the log asks for, given the ascending list `keys` of the
/// known keys: a call with the label of its operation, nothing where the
/// line is no call, or an error where a call lacks a segment.
pub open spec fn call_of(line: Seq<char>, keys: Seq<Seq<char>>) -> Result<
    Option<(KvCallView, Seq<char>)>,
    RunnerErrorView,
> {
    let toks = words(line);
    if toks.len() == 0 {
        Ok(None)
    } else if toks[0] == "INSERT"@ || toks[0] == "UPDATE"@ {
        match (key_of(toks, 1), value_of(toks, 3)) {
            (None, _) => Err(RunnerErrorView::Parse("missing key segment"@)),
            (Some(_), None) => Err(RunnerErrorView::Parse("no value start bracket"@)),
            (Some(key), Some(value)) => if toks[0] == "INSERT"@ {
                Ok(Some((KvCallView::Put { key, value }, "INSERT"@)))
            } else {
                Ok(Some((KvCallView::Swap { key, value }, "UPDATE"@)))
            },
        }
    } else if toks[0] == "READ"@ {
        match key_of(toks, 1) {
            None => Err(RunnerErrorView::Parse("missing key segment"@)),
            Some(key) => Ok(Some((KvCallView::Get { key }, "READ"@))),
        }
    } else if toks[0] == "SCAN"@ {
        match key_of(toks, 1) {
            None => Err(RunnerErrorView::Parse("missing key segment"@)),
            Some(key_start) => if keys.len() == 0 {
                Ok(Some((KvCallView::Scan { key_start, key_end: open_end() }, "SCAN"@)))
            } else {
                match count_at(toks, 3) {
                    Err(e) => Err(e),
                    Ok(count) => Ok(
                        Some(
                            (
                                KvCallView::Scan {
                                    key_start,
                                    key_end: scan_end(keys, key_start, count),
                                },
                                "SCAN"@,
                            ),
                        ),
                    ),
                }
            },
        }
    } else {
        Ok(None)
    }
}

/// The known keys after a line: an insert that is well formed adds its key,
/// no other line changes them.
pub open spec fn keys_after(line: Seq<char>, keys: Seq<Seq<char>>) -> Seq<Seq<char>> {
    let toks = words(line);
    if toks.len() > 0 && toks[0] == "INSERT"@ && call_of(line, keys) is Ok {
        insert_key(keys, key_of(toks, 1)->0)
    } else {
        keys
    }
}

/// While no key is known a scan needs no count: it ends at the fixed last
/// key, whatever follows its two key segments.
pub proof fn lemma_scan_without_keys(line: Seq<char>)
    requires
        words(line).len() > 0,
        words(line)[0] == "SCAN"@,
    ensures
        call_of(line, Seq::empty()) == match key_of(words(line), 1) {
            Some(key_start) => Ok::<Option<(KvCallView, Seq<char>)>, RunnerErrorView>(
                Some((KvCallView::Scan { key_start, key_end: open_end() }, "SCAN"@)),
            ),
            None => Err(RunnerErrorView::Parse("missing key segment"@)),
        },
{
    reveal_strlit("SCAN");
    reveal_strlit("INSERT");
    reveal_strlit("UPDATE");
    reveal_strlit("READ");
    assert("SCAN"@[0] != "READ"@[0]);
}

/// A scan ends at a known key; where as many keys as it counts are left,
/// that key is at or after its start, and otherwise it is the greatest.
pub proof fn lemma_scan_end(keys: Seq<Seq<char>>, key_start: Seq<char>, count: nat)
    requires
        ascending(keys),
        keys.len() > 0,
    ensures
        keys.contains(scan_end(keys, key_start, count)),
        1 <= count <= keys.len() - count_below(keys, key_start) ==> !str_lt(
            scan_end(keys, key_start, count),
            key_start,
        ),
        !(1 <= count <= keys.len() - count_below(keys, key_start)) ==> scan_end(
            keys,
            key_start,
            count,
        ) == keys.last(),
{
    lemma_count_below_ascending(keys, key_start);
    let first = count_below(keys, key_start);
    if 1 <= count <= keys.len() - first {
        assert(keys[first + count - 1] == scan_end(keys, key_start, count));
    } else {
        assert(keys[keys.len() - 1] == scan_end(keys, key_start, count));
    }
}

/// What a line of the generator's output means to a driver. A line that is
/// no call is passed over, unless it reports a missing file: the generator
/// could then not find its workload profile, which is an error. The
/// generator's own reports, which start with an opening bracket, are passed
/// over whatever they hold.
pub open spec fn line_meaning(line: Seq<char>, keys: Seq<Seq<char>>) -> Result<
    Option<(KvCallView, Seq<char>)>,
    RunnerErrorView,
> {
    match call_of(line, keys) {
        Ok(None) => if line.len() > 0 && line[0] == '[' {
            Ok(None)
        } else if has_infix(line, "No such file"@) {
            Err(RunnerErrorView::Io(line))
        } else {
            Ok(None)
        },
        other => other,
    }
}

/// What a result of the translator holds, with the contents of its strings.
pub open spec fn outcome_view(r: Result<Option<(KvCall, String)>, RunnerError>) -> Result<
    Option<(KvCallView, Seq<char>)>,
    RunnerErrorView,
> {
    match r {
        Ok(None) => Ok(None),
        Ok(Some((call, label))) => Ok(Some((call@, label@))),
        Err(e) => Err(e@),
    }
}

/// Reads the key that the two words at `at` name.
pub fn parse_ycsb_key(segs: &Vec<&str>, at: usize) -> (r: Result<String, RunnerError>)
    ensures
        match key_of(views(segs@), at as int) {
            Some(key) => r matches Ok(k) && k@ == key,
            None => r matches Err(e) && e@ == RunnerErrorView::Parse("missing key segment"@),
        },
{
    if at >= segs.len() || segs.len() - at < 2 {
        return Err(RunnerError::parse("missing key segment"));
    }
    let mut key = String::from_str(segs[at]);
    key.append("_");
    key.append(segs[at + 1]);
    Ok(key)
}

/// Reads the bracketed value that starts with the word at `at`.
pub fn parse_ycsb_value(segs: &Vec<&str>, at: usize) -> (r: Result<String, RunnerError>)
    ensures
        match value_of(views(segs@), at as int) {
            Some(value) => r matches Ok(v) && v@ == value,
            None => r matches Err(e) && e@ == RunnerErrorView::Parse("no value start bracket"@),
        },
{
    if at >= segs.len() || !str_equal(segs[at], "[") {
        return Err(RunnerError::parse("no value start bracket"));
    }
    let ghost toks = views(segs@);
    let mut end: usize = segs.len();
    if end > at + 1 && str_equal(segs[end - 1], "]") {
        end = end - 1;
    }
    assert(bracketed(toks, at as int) =~= toks.subrange(at + 1, end as int));
    let mut value = String::new();
    let mut i: usize = at + 1;
    while i < end
        invariant
            at + 1 <= i <= end <= segs.len(),
            toks == views(segs@),
            value@ == join(toks.subrange(at + 1, i as int)),
        decreases end - i,
    {
        let ghost sofar = toks.subrange(at + 1, i as int);
        let ghost next = toks.subrange(at + 1, i + 1);
        let ghost before = value@;
        if i > at + 1 {
            value.append("_");
        }
        value.append(segs[i]);
        proof {
            assert(next.drop_last() =~= sofar);
            assert(next.last() == segs[i as int]@);
            if i == at + 1 {
                assert(before =~= Seq::<char>::empty());
                assert(value@ =~= next[0]);
            }
        }
        i = i + 1;
    }
    Ok(value)
}

/// Reads the scan count that the word at `at` writes.
pub fn parse_ycsb_scnt(segs: &Vec<&str>, at: usize) -> (r: Result<usize, RunnerError>)
    ensures
        match count_at(views(segs@), at as int) {
            Ok(n) => r == Ok::<usize, RunnerError>(n as usize) && n <= usize::MAX,
            Err(err) => r matches Err(e) && e@ == err,
        },
{
    if at >= segs.len() {
        return Err(RunnerError::parse("missing scan count"));
    }
    match parse_decimal(segs[at]) {
        Some(n) => Ok(n),
        None => Err(RunnerError::parse("invalid scan count")),
    }
}

/// The key at which a scan of `count` keys from `key_start` on ends.
fn resolve_scan_end(keys: &KeySet, key_start: &str, count: usize) -> (r: String)
    ensures
        r@ == scan_end(keys@, key_start@, count as nat),
{
    let found = if count >= 1 {
        keys.nth_from(key_start, count - 1)
    } else {
        None
    };
    match found {
        Some(key) => key.clone(),
        None => match keys.last() {
            Some(key) => key.clone(),
            None => String::from_str("zzzzzzzz"),
        },
    }
}

/// Translates one line of the log into a call on the store, with the label
/// of its operation, or into nothing where the line is no call. A
/// well-formed insert adds its key to `ikeys`.
pub fn interpret_ycsb_call(line: &str, ikeys: &mut KeySet) -> (r: Result<
    Option<(KvCall, String)>,
    RunnerError,
>)
    ensures
        outcome_view(r) == call_of(line@, old(ikeys)@),
        final(ikeys)@ == keys_after(line@, old(ikeys)@),
{
    let segs = split_whitespace(line);
    if segs.len() == 0 {
        return Ok(None);
    }
    let op: &str = segs[0];
    let is_insert = str_equal(op, "INSERT");
    if is_insert || str_equal(op, "UPDATE") {
        let key = match parse_ycsb_key(&segs, 1) {
            Ok(k) => k,
            Err(e) => {
                return Err(e);
            },
        };
        let value = match parse_ycsb_value(&segs, 3) {
            Ok(v) => v,
            Err(e) => {
                return Err(e);
            },
        };
        if is_insert {
            ikeys.insert(key.clone());
            Ok(Some((KvCall::Put { key, value }, String::from_str("INSERT"))))
        } else {
            Ok(Some((KvCall::Swap { key, value }, String::from_str("UPDATE"))))
        }
    } else if str_equal(op, "READ") {
        match parse_ycsb_key(&segs, 1) {
            Ok(key) => Ok(Some((KvCall::Get { key }, String::from_str("READ")))),
            Err(e) => Err(e),
        }
    } else if str_equal(op, "SCAN") {
        let key_start = match parse_ycsb_key(&segs, 1) {
            Ok(k) => k,
            Err(e) => {
                return Err(e);
            },
        };
        let key_end = if ikeys.is_empty() {
            String::from_str("zzzzzzzz")
        } else {
            match parse_ycsb_scnt(&segs, 3) {
                Ok(scnt) => resolve_scan_end(ikeys, key_start.as_str(), scnt),
                Err(e) => {
                    return Err(e);
                },
            }
        };
        Ok(Some((KvCall::Scan { key_start, key_end }, String::from_str("SCAN"))))
    } else {
        Ok(None)
    }
}

/// Says what a line of the generator's output means to a driver: a call to
/// dispatch, nothing, or the error that ends the driver.
pub fn interpret(line: &str, ikeys: &mut KeySet) -> (r: Result<
    Option<(KvCall, String)>,
    RunnerError,
>)
    ensures
        outcome_view(r) == line_meaning(line@, old(ikeys)@),
        final(ikeys)@ == keys_after(line@, old(ikeys)@),
{
    match interpret_ycsb_call(line, ikeys) {
        Ok(None) => {
            if starts_with_bracket(line) {
                Ok(None)
            } else if contains_str(line, "No such file") {
                Err(RunnerError::Io(String::from_str(line)))
            } else {
                Ok(None)
            }
        },
        other => other,
    }
}

/// Whether the first character of `line` is an opening bracket.
fn starts_with_bracket(line: &str) -> (r: bool)
    ensures
        r == (line@.len() > 0 && line@[0] == '['),
{
    let mut it = line.chars();
    match it.next() {
        Some(c) => c == '[',
        None => false,
    }
}

} // verus!
