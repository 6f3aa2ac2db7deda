//! The columns that the histogram script offers for a run of the split-pole
//! spectrograph with a number of CeBr3 detectors.
use vstd::prelude::*;
use crate::decimal::{decimal, to_decimal};
use crate::text::{chars_of, string_of};

verus! {

/// The spectrograph's own columns, in the order they are offered.
pub open spec fn main_sps_columns() -> Seq<Seq<char>> {
    seq![
        "AnodeFrontEnergy"@, "AnodeFrontShort"@, "AnodeFrontTime"@,
        "AnodeBackEnergy"@, "AnodeBackShort"@, "AnodeBackTime"@,
        "ScintLeftEnergy"@, "ScintLeftShort"@, "ScintLeftTime"@,
        "ScintRightEnergy"@, "ScintRightShort"@, "ScintRightTime"@,
        "CathodeEnergy"@, "CathodeShort"@, "CathodeTime"@,
        "DelayFrontLeftEnergy"@, "DelayFrontLeftShort"@, "DelayFrontLeftTime"@,
        "DelayFrontRightEnergy"@, "DelayFrontRightShort"@, "DelayFrontRightTime"@,
        "DelayBackLeftEnergy"@, "DelayBackLeftShort"@, "DelayBackLeftTime"@,
        "DelayBackRightEnergy"@, "DelayBackRightShort"@, "DelayBackRightTime"@,
        "X1"@, "X2"@, "Xavg"@, "Theta"@
    ]
}

/// The columns derived from the spectrograph's own (averages and time
/// differences), in the order they are offered.
pub open spec fn extra_sps_columns() -> Seq<Seq<char>> {
    seq![
        "DelayFrontAverageEnergy"@, "DelayBackAverageEnergy"@,
        "DelayFrontLeftTime_AnodeFrontTime"@, "DelayFrontRightTime_AnodeFrontTime"@,
        "DelayBackLeftTime_AnodeFrontTime"@, "DelayBackRightTime_AnodeFrontTime"@,
        "DelayFrontLeftTime_AnodeBackTime"@, "DelayFrontRightTime_AnodeBackTime"@,
        "DelayBackLeftTime_AnodeBackTime"@, "DelayBackRightTime_AnodeBackTime"@,
        "AnodeFrontTime_AnodeBackTime"@, "AnodeBackTime_AnodeFrontTime"@,
        "AnodeFrontTime_ScintLeftTime"@, "AnodeBackTime_ScintLeftTime"@,
        "DelayFrontLeftTime_ScintLeftTime"@, "DelayFrontRightTime_ScintLeftTime"@,
        "DelayBackLeftTime_ScintLeftTime"@, "DelayBackRightTime_ScintLeftTime"@,
        "ScintRightTime_ScintLeftTime"@
    ]
}

/// The column of detector `i` with the given suffix: `Cebra`, `i` in
/// decimal, then the suffix.
pub open spec fn cebra_column(i: nat, suffix: Seq<char>) -> Seq<char> {
    "Cebra"@ + decimal(i) + suffix
}

/// The four columns of detector `i`.
pub open spec fn cebra_columns_of(i: nat) -> Seq<Seq<char>> {
    seq![
        cebra_column(i, "Energy"@),
        cebra_column(i, "Short"@),
        cebra_column(i, "Time"@),
        cebra_column(i, "Time_toScint"@)
    ]
}

/// The columns of detectors `0` up to (not including) `n`, detector by
/// detector.
pub open spec fn cebra_columns(n: nat) -> Seq<Seq<char>>
    decreases n,
{
    if n == 0 {
        seq![]
    } else {
        cebra_columns((n - 1) as nat) + cebra_columns_of((n - 1) as nat)
    }
}

/// Every column offered with `n` detectors.
pub open spec fn script_columns(n: nat) -> Seq<Seq<char>> {
    main_sps_columns() + extra_sps_columns() + cebra_columns(n)
}

fn push_names(out: &mut Vec<String>, names: &[&str])
    ensures
        final(out)@.len() == old(out)@.len() + names@.len(),
        forall|k: int| 0 <= k < old(out)@.len() ==> #[trigger] final(out)@[k] == old(out)@[k],
        forall|k: int|
            0 <= k < names@.len() ==> #[trigger] final(out)@[old(out)@.len() + k]@ == names@[k]@,
{
    let ghost start = out@;
    let mut i: usize = 0;
    while i < names.len()
        invariant
            i <= names@.len(),
            out@.len() == start.len() + i,
            forall|k: int| 0 <= k < start.len() ==> #[trigger] out@[k] == start[k],
            forall|k: int| 0 <= k < i ==> #[trigger] out@[start.len() + k]@ == names@[k]@,
        decreases names.len() - i,
    {
        out.push(names[i].to_string());
        i += 1;
    }
}

/// The column of detector `i` with the given suffix.
fn cebra_name(i: usize, suffix: &str) -> (r: String)
    ensures
        r@ == cebra_column(i as nat, suffix@),
{
    let mut v = chars_of("Cebra");
    let d = to_decimal(i);
    let s = chars_of(suffix);
    let mut k: usize = 0;
    let ghost head = v@;
    while k < d.len()
        invariant
            k <= d@.len(),
            v@ == head + d@.take(k as int),
        decreases d.len() - k,
    {
        v.push(d[k]);
        k += 1;
        assert(v@ =~= head + d@.take(k as int));
    }
    assert(d@.take(d@.len() as int) =~= d@);
    let ghost mid = v@;
    k = 0;
    while k < s.len()
        invariant
            k <= s@.len(),
            v@ == mid + s@.take(k as int),
        decreases s.len() - k,
    {
        v.push(s[k]);
        k += 1;
        assert(v@ =~= mid + s@.take(k as int));
    }
    assert(s@.take(s@.len() as int) =~= s@);
    string_of(&v)
}

/// The columns the histogram script offers for a run with `number_of_cebr3`
/// detectors: the spectrograph's own columns, the columns derived from them,
/// then for each detector in turn its energy, short, time and
/// time-to-scintillator columns.
pub fn columns(number_of_cebr3: usize) -> (r: Vec<String>)
    ensures
        r@.map_values(|s: String| s@) == script_columns(number_of_cebr3 as nat),
{
    let mut out: Vec<String> = Vec::new();
    let main: [&str; 31] = [
        "AnodeFrontEnergy", "AnodeFrontShort", "AnodeFrontTime",
        "AnodeBackEnergy", "AnodeBackShort", "AnodeBackTime",
        "ScintLeftEnergy", "ScintLeftShort", "ScintLeftTime",
        "ScintRightEnergy", "ScintRightShort", "ScintRightTime",
        "CathodeEnergy", "CathodeShort", "CathodeTime",
        "DelayFrontLeftEnergy", "DelayFrontLeftShort", "DelayFrontLeftTime",
        "DelayFrontRightEnergy", "DelayFrontRightShort", "DelayFrontRightTime",
        "DelayBackLeftEnergy", "DelayBackLeftShort", "DelayBackLeftTime",
        "DelayBackRightEnergy", "DelayBackRightShort", "DelayBackRightTime",
        "X1", "X2", "Xavg", "Theta",
    ];
    let extra: [&str; 19] = [
        "DelayFrontAverageEnergy", "DelayBackAverageEnergy",
        "DelayFrontLeftTime_AnodeFrontTime", "DelayFrontRightTime_AnodeFrontTime",
        "DelayBackLeftTime_AnodeFrontTime", "DelayBackRightTime_AnodeFrontTime",
        "DelayFrontLeftTime_AnodeBackTime", "DelayFrontRightTime_AnodeBackTime",
        "DelayBackLeftTime_AnodeBackTime", "DelayBackRightTime_AnodeBackTime",
        "AnodeFrontTime_AnodeBackTime", "AnodeBackTime_AnodeFrontTime",
        "AnodeFrontTime_ScintLeftTime", "AnodeBackTime_ScintLeftTime",
        "DelayFrontLeftTime_ScintLeftTime", "DelayFrontRightTime_ScintLeftTime",
        "DelayBackLeftTime_ScintLeftTime", "DelayBackRightTime_ScintLeftTime",
        "ScintRightTime_ScintLeftTime",
    ];
    assert(main@.map_values(|s: &str| s@) =~= main_sps_columns());
    assert(extra@.map_values(|s: &str| s@) =~= extra_sps_columns());
    let main_names = main.as_slice();
    let extra_names = extra.as_slice();
    assert(main_names@ == main@);
    assert(extra_names@ == extra@);
    push_names(&mut out, main_names);
    let ghost after_main = out@;
    push_names(&mut out, extra_names);
    assert forall|k: int| 0 <= k < 31 implies #[trigger] out@[k]@ == main_sps_columns()[k] by {
        assert(after_main[0 + k]@ == main_names@[k]@);
        assert(out@[k] == after_main[k]);
        assert(main@.map_values(|s: &str| s@)[k] == main@[k]@);
    }
    assert forall|k: int| 31 <= k < 50 implies #[trigger] out@[k]@ == extra_sps_columns()[k - 31] by {
        assert(out@[31 + (k - 31)]@ == extra@[k - 31]@);
        assert(extra@.map_values(|s: &str| s@)[k - 31] == extra@[k - 31]@);
    }
    assert(out@.map_values(|s: String| s@) =~= main_sps_columns() + extra_sps_columns());
    let mut i: usize = 0;
    while i < number_of_cebr3
        invariant
            i <= number_of_cebr3,
            out@.map_values(|s: String| s@) == main_sps_columns() + extra_sps_columns()
                + cebra_columns(i as nat),
        decreases number_of_cebr3 - i,
    {
        let ghost before = out@.map_values(|s: String| s@);
        out.push(cebra_name(i, "Energy"));
        out.push(cebra_name(i, "Short"));
        out.push(cebra_name(i, "Time"));
        out.push(cebra_name(i, "Time_toScint"));
        assert(out@.map_values(|s: String| s@) =~= before + cebra_columns_of(i as nat));
        i += 1;
    }
    out
}

} // verus!
