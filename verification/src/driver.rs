//! How a driver starts its generator, and how a phase gathers its drivers.

use vstd::prelude::*;
use vstd::string::*;
use crate::error::{RunnerError, RunnerErrorView};
use crate::keys::KeySet;
use crate::order::{contents, union_keys};
use crate::stats::Stats;

verus! {

/// Whether `workload` is one of the letters that name a workload profile.
pub open spec fn valid_workload(workload: char) -> bool {
    workload == 'a' || workload == 'b' || workload == 'c' || workload == 'd' || workload == 'e'
        || workload == 'f'
}

/// The path of the profile that the letter `workload` names.
pub open spec fn profile_path(workload: char) -> Seq<char> {
    if workload == 'a' {
        "ycsb/workloads/workloada"@
    } else if workload == 'b' {
        "ycsb/workloads/workloadb"@
    } else if workload == 'c' {
        "ycsb/workloads/workloadc"@
    } else if workload == 'd' {
        "ycsb/workloads/workloadd"@
    } else if workload == 'e' {
        "ycsb/workloads/workloade"@
    } else {
        "ycsb/workloads/workloadf"@
    }
}

/// Whether `workload` is one of the letters `a` to `f`.
pub fn is_valid_workload(workload: char) -> (r: bool)
    ensures
        r == valid_workload(workload),
{
    workload == 'a' || workload == 'b' || workload == 'c' || workload == 'd' || workload == 'e'
        || workload == 'f'
}

/// The path of the profile of a workload.
pub fn ycsb_profile(workload: char) -> (r: &'static str)
    requires
        valid_workload(workload),
    ensures
        r@ == profile_path(workload),
{
    if workload == 'a' {
        "ycsb/workloads/workloada"
    } else if workload == 'b' {
        "ycsb/workloads/workloadb"
    } else if workload == 'c' {
        "ycsb/workloads/workloadc"
    } else if workload == 'd' {
        "ycsb/workloads/workloadd"
    } else if workload == 'e' {
        "ycsb/workloads/workloade"
    } else {
        "ycsb/workloads/workloadf"
    }
}

/// The path of the generator's launcher.
pub fn ycsb_bin() -> (r: &'static str)
    ensures
        r@ == "ycsb/bin/ycsb.sh"@,
{
    "ycsb/bin/ycsb.sh"
}

/// The character that writes the digit `d`.
pub open spec fn digit_char(d: nat) -> char {
    if d == 0 {
        '0'
    } else if d == 1 {
        '1'
    } else if d == 2 {
        '2'
    } else if d == 3 {
        '3'
    } else if d == 4 {
        '4'
    } else if d == 5 {
        '5'
    } else if d == 6 {
        '6'
    } else if d == 7 {
        '7'
    } else if d == 8 {
        '8'
    } else {
        '9'
    }
}

/// `n` written in base ten, without leading zeros.
pub open spec fn digits_of(n: nat) -> Seq<char>
    decreases n,
{
    if n < 10 {
        seq![digit_char(n)]
    } else {
        digits_of(n / 10).push(digit_char(n % 10))
    }
}

/// The arguments that start the generator for one phase of a workload.
pub open spec fn generator_args_spec(workload: char, num_ops: nat, load: bool) -> Seq<Seq<char>> {
    seq![
        if load { "load"@ } else { "run"@ },
        "basic"@,
        "-P"@,
        profile_path(workload),
        "-p"@,
        "operationcount="@ + digits_of(num_ops),
    ]
}

fn digit_str(d: usize) -> (r: &'static str)
    requires
        d < 10,
    ensures
        r@ == seq![digit_char(d as nat)],
{
    proof {
        reveal_strlit("0");
        reveal_strlit("1");
        reveal_strlit("2");
        reveal_strlit("3");
        reveal_strlit("4");
        reveal_strlit("5");
        reveal_strlit("6");
        reveal_strlit("7");
        reveal_strlit("8");
        reveal_strlit("9");
    }
    let r = if d == 0 {
        "0"
    } else if d == 1 {
        "1"
    } else if d == 2 {
        "2"
    } else if d == 3 {
        "3"
    } else if d == 4 {
        "4"
    } else if d == 5 {
        "5"
    } else if d == 6 {
        "6"
    } else if d == 7 {
        "7"
    } else if d == 8 {
        "8"
    } else {
        "9"
    };
    assert(r@ =~= seq![digit_char(d as nat)]);
    r
}

/// Appends `n`, written in base ten, to `out`.
pub fn push_decimal(out: &mut String, n: usize)
    ensures
        final(out)@ == old(out)@ + digits_of(n as nat),
    decreases n,
{
    if n >= 10 {
        push_decimal(out, n / 10);
    }
    let ghost before = out@;
    out.append(digit_str(n % 10));
    proof {
        if n >= 10 {
            assert(out@ =~= old(out)@ + digits_of((n / 10) as nat).push(digit_char((n % 10) as nat)));
        } else {
            assert(out@ =~= old(out)@ + seq![digit_char(n as nat)]);
        }
    }
}

/// The arguments with which a driver starts its generator: the phase, the
/// binding, the profile of the workload, and the number of operations.
pub fn generator_args(workload: char, num_ops: usize, load: bool) -> (args: Vec<String>)
    requires
        valid_workload(workload),
    ensures
        contents(args@) == generator_args_spec(workload, num_ops as nat, load),
{
    let mut count = String::from_str("operationcount=");
    push_decimal(&mut count, num_ops);
    let mut args: Vec<String> = Vec::new();
    args.push(String::from_str(if load { "load" } else { "run" }));
    args.push(String::from_str("basic"));
    args.push(String::from_str("-P"));
    args.push(String::from_str(ycsb_profile(workload)));
    args.push(String::from_str("-p"));
    args.push(count);
    assert(contents(args@) =~= generator_args_spec(workload, num_ops as nat, load));
    args
}

/// The seconds that the client may take to answer one call.
pub const RESP_TIMEOUT_SECS: u64 = 60;

/// The seconds that a driver may take to complete a phase.
pub const YCSB_TIMEOUT_SECS: u64 = 600;

/// Whether what a driver handed over can be taken into the totals of a
/// phase: a driver that failed can, one that ended only while its drivers
/// and samples can still be counted.
pub fn can_absorb(stats: &Stats, outcome: &Option<(Stats, KeySet)>) -> (r: bool)
    ensures
        r == match outcome {
            Some((st, _)) => stats@.merged + st@.merged <= usize::MAX && stats@.total_ops()
                + st@.total_ops() <= usize::MAX,
            None => true,
        },
{
    match outcome {
        Some((st, _)) => stats.can_merge(st),
        None => true,
    }
}

/// Takes what one driver handed over into the totals of a phase: its
/// statistics are merged into `stats`, its keys added to `ikeys`. A driver
/// that failed fails the phase, and the totals stay as they are.
pub fn absorb_driver(stats: &mut Stats, ikeys: &mut KeySet, outcome: Option<(Stats, KeySet)>) -> (r:
    Result<(), RunnerError>)
    requires
        outcome matches Some((st, _)) ==> old(stats)@.merged + st@.merged <= usize::MAX && old(
            stats,
        )@.total_ops() + st@.total_ops() <= usize::MAX,
    ensures
        match outcome {
            Some((st, ks)) => r is Ok && final(stats)@ == old(stats)@.merge(st@) && final(ikeys)@
                == union_keys(old(ikeys)@, ks@),
            None => r matches Err(e) && e@ == RunnerErrorView::Io("a YCSB driver process failed"@)
                && final(stats)@ == old(stats)@ && final(ikeys)@ == old(ikeys)@,
        },
{
    match outcome {
        Some((st, ks)) => {
            stats.merge(st);
            ikeys.extend(&ks);
            Ok(())
        },
        None => Err(RunnerError::Io(String::from_str("a YCSB driver process failed"))),
    }
}

} // verus!
