//! Averaging repeated raw signal readings into one measurement.
//!
//! A sampling run queries the platform's wireless status once per
//! iteration. Each query yields status text; the lines are scanned here for
//! the received signal level (the text after the first `level=`, up to the
//! next space, with a trailing `dBm` unit dropped) and the transmit power
//! (the text after the first `Tx-Power=`, likewise). An iteration whose
//! text yields no reading contributes nothing to either accumulator but
//! still counts toward the divisor — a known approximation of the mean,
//! stated here exactly. Only a run in which every iteration failed is
//! reported as an error.

use vstd::prelude::*;

use crate::parse::{
    find_char, find_from, find_sub, find_sub_from, milli_ok, milli_val, parse_milli_dbm,
    MAX_ABS_MILLI_DBM,
};
use crate::rat::Rat;
use crate::trilateration_calc::{info_complete, meas_ok, NetInfo};

verus! {

/// The most iterations one sampling run may have; keeps the accumulated
/// sums of readings inside `i64`.
pub const MAX_SAMPLE_COUNT: usize = 1_048_576;

/// One raw reading of the active link: received signal level and transmit
/// power, both in thousandths of a dBm.
#[derive(Clone, Copy, Debug, PartialEq, Eq, Structural)]
pub struct RawSample {
    pub signal_milli_dbm: i64,
    pub tx_milli_dbm: i64,
}

/// Why a sampling run failed.
#[derive(Clone, Copy, Debug, PartialEq, Eq, Structural)]
pub enum SampleError {
    /// Not one iteration of the run yielded a reading, so the average
    /// would be meaningless.
    RawSampleUnavailable,
}

/// Where the value text after `start` ends: at the next space, or at the
/// end of the line.
pub open spec fn value_end(s: Seq<char>, start: int) -> int {
    match find_from(s, ' ', start) {
        None => s.len() as int,
        Some(j) => j,
    }
}

/// The value text with a trailing `dBm` unit dropped.
pub open spec fn strip_dbm(v: Seq<char>) -> Seq<char> {
    if v.len() >= 3 && v.subrange(v.len() - 3, v.len() as int) == seq!['d', 'B', 'm'] {
        v.subrange(0, v.len() - 3)
    } else {
        v
    }
}

/// The value text that follows the first occurrence of `pat` in `s`.
pub open spec fn extract_value(s: Seq<char>, pat: Seq<char>) -> Option<Seq<char>> {
    match find_sub_from(s, pat, 0) {
        None => None,
        Some(i) => Some(
            strip_dbm(s.subrange(i + pat.len(), value_end(s, i + pat.len() as int))),
        ),
    }
}

/// The reading, in thousandths of a dBm, that the line carries after `pat`,
/// if the value text is well formed and within range.
pub open spec fn extract_milli(s: Seq<char>, pat: Seq<char>) -> Option<int> {
    match extract_value(s, pat) {
        None => None,
        Some(v) => if milli_ok(v) && -MAX_ABS_MILLI_DBM <= milli_val(v) <= MAX_ABS_MILLI_DBM {
            Some(milli_val(v))
        } else {
            None
        },
    }
}

/// Executable counterpart of `extract_milli`.
pub fn extract_after(line: &str, pat: &str) -> (r: Option<i64>)
    ensures
        r is Some <==> extract_milli(line@, pat@) is Some,
        r matches Some(v) ==> extract_milli(line@, pat@) == Some(v as int),
{
    let i = match find_sub(line, pat, 0) {
        Some(i) => i,
        None => {
            return None;
        },
    };
    let n = line.unicode_len();
    let m = pat.unicode_len();
    let start = i + m;
    let end = match find_char(line, ' ', start) {
        Some(j) => j,
        None => n,
    };
    let ghost value = line@.subrange(start as int, end as int);
    let mut vend = end;
    if end - start >= 3 {
        if line.get_char(end - 3) == 'd' && line.get_char(end - 2) == 'B' && line.get_char(
            end - 1,
        ) == 'm' {
            vend = end - 3;
            proof {
                assert(value.subrange(value.len() - 3, value.len() as int) =~= seq![
                    'd',
                    'B',
                    'm',
                ]);
                assert(strip_dbm(value) =~= line@.subrange(start as int, vend as int));
            }
        } else {
            proof {
                assert(value.subrange(value.len() - 3, value.len() as int) !~= seq![
                    'd',
                    'B',
                    'm',
                ]);
                assert(strip_dbm(value) == value);
            }
        }
    } else {
        proof {
            assert(strip_dbm(value) == value);
        }
    }
    let vs = line.substring_char(start, vend);
    proof {
        assert(vs@ == strip_dbm(value));
    }
    parse_milli_dbm(vs)
}

/// The first reading after `pat` over the lines at or past index `i`.
pub open spec fn first_extract(lines: Seq<String>, pat: Seq<char>, i: int) -> Option<int>
    decreases lines.len() - i,
{
    if i < 0 || i >= lines.len() {
        None
    } else {
        match extract_milli(lines[i]@, pat) {
            Some(v) => Some(v),
            None => first_extract(lines, pat, i + 1),
        }
    }
}

/// A reading found by `first_extract` lies within the parser's range.
proof fn lemma_first_extract_in_range(lines: Seq<String>, pat: Seq<char>, i: int)
    ensures
        first_extract(lines, pat, i) matches Some(v) ==> -MAX_ABS_MILLI_DBM <= v
            <= MAX_ABS_MILLI_DBM,
    decreases lines.len() - i,
{
    if 0 <= i < lines.len() {
        lemma_first_extract_in_range(lines, pat, i + 1);
    }
}

/// Executable counterpart of `first_extract`.
fn scan_lines(lines: &Vec<String>, pat: &str) -> (r: Option<i64>)
    ensures
        r is Some <==> first_extract(lines@, pat@, 0) is Some,
        r matches Some(v) ==> first_extract(lines@, pat@, 0) == Some(v as int),
{
    let n = lines.len();
    let mut i: usize = 0;
    while i < n
        invariant
            0 <= i <= n,
            n == lines@.len(),
            first_extract(lines@, pat@, 0) == first_extract(lines@, pat@, i as int),
        decreases n - i,
    {
        match extract_after(lines[i].as_str(), pat) {
            Some(v) => {
                return Some(v);
            },
            None => {},
        }
        i = i + 1;
    }
    None
}

/// The raw reading that one query's status lines carry: the first signal
/// level and the first transmit power found, present only if both are.
pub open spec fn raw_sample_of(lines: Seq<String>) -> Option<RawSample> {
    match (first_extract(lines, "level="@, 0), first_extract(lines, "Tx-Power="@, 0)) {
        (Some(s), Some(t)) => Some(
            RawSample { signal_milli_dbm: s as i64, tx_milli_dbm: t as i64 },
        ),
        _ => None,
    }
}

/// Reads one raw sample out of the status text of a single query, as
/// `raw_sample_of` describes; `None` is a failed iteration.
pub fn read_raw_sample(lines: &Vec<String>) -> (r: Option<RawSample>)
    ensures
        r == raw_sample_of(lines@),
        r matches Some(rs) ==> -MAX_ABS_MILLI_DBM <= rs.signal_milli_dbm <= MAX_ABS_MILLI_DBM
            && -MAX_ABS_MILLI_DBM <= rs.tx_milli_dbm <= MAX_ABS_MILLI_DBM,
{
    proof {
        lemma_first_extract_in_range(lines@, "level="@, 0);
        lemma_first_extract_in_range(lines@, "Tx-Power="@, 0);
    }
    let signal = scan_lines(lines, "level=");
    let tx = scan_lines(lines, "Tx-Power=");
    match (signal, tx) {
        (Some(s), Some(t)) => Some(RawSample { signal_milli_dbm: s, tx_milli_dbm: t }),
        _ => None,
    }
}

/// The sum of the signal levels of the successful readings; a failed
/// iteration contributes zero.
pub open spec fn sum_signal(rs: Seq<Option<RawSample>>) -> int
    decreases rs.len(),
{
    if rs.len() == 0 {
        0
    } else {
        sum_signal(rs.drop_last()) + (match rs.last() {
            Some(r) => r.signal_milli_dbm as int,
            None => 0,
        })
    }
}

/// The sum of the transmit powers of the successful readings; a failed
/// iteration contributes zero.
pub open spec fn sum_tx(rs: Seq<Option<RawSample>>) -> int
    decreases rs.len(),
{
    if rs.len() == 0 {
        0
    } else {
        sum_tx(rs.drop_last()) + (match rs.last() {
            Some(r) => r.tx_milli_dbm as int,
            None => 0,
        })
    }
}

/// Every iteration of the run failed.
pub open spec fn all_failed(rs: Seq<Option<RawSample>>) -> bool {
    forall|i: int| 0 <= i < rs.len() ==> (#[trigger] rs[i]) is None
}

/// Every reading of the run lies within the parser's range.
pub open spec fn readings_in_range(rs: Seq<Option<RawSample>>) -> bool {
    forall|i: int|
        0 <= i < rs.len() ==> ((#[trigger] rs[i]) matches Some(r)
            ==> -MAX_ABS_MILLI_DBM <= r.signal_milli_dbm <= MAX_ABS_MILLI_DBM
                && -MAX_ABS_MILLI_DBM <= r.tx_milli_dbm <= MAX_ABS_MILLI_DBM)
}

proof fn lemma_sums_snoc(rs: Seq<Option<RawSample>>, i: int)
    requires
        0 <= i < rs.len(),
    ensures
        sum_signal(rs.subrange(0, i + 1)) == sum_signal(rs.subrange(0, i)) + (match rs[i] {
            Some(r) => r.signal_milli_dbm as int,
            None => 0,
        }),
        sum_tx(rs.subrange(0, i + 1)) == sum_tx(rs.subrange(0, i)) + (match rs[i] {
            Some(r) => r.tx_milli_dbm as int,
            None => 0,
        }),
{
    assert(rs.subrange(0, i + 1).drop_last() =~= rs.subrange(0, i));
    assert(rs.subrange(0, i + 1).last() == rs[i]);
}

/// Averages the raw readings of one sampling run into a measurement: each
/// accumulated sum, in thousandths of a dBm, over the number of
/// iterations — held as the exact dBm ratio `sum / (1000 * count)`.
/// Fails exactly when every iteration of the run failed.
pub fn sample_average(readings: &Vec<Option<RawSample>>) -> (r: Result<NetInfo, SampleError>)
    requires
        1 <= readings@.len() <= MAX_SAMPLE_COUNT,
        readings_in_range(readings@),
    ensures
        r is Err <==> all_failed(readings@),
        r matches Err(e) ==> e == SampleError::RawSampleUnavailable,
        r matches Ok(info) ==> {
            &&& info.tx_power == Some(
                Rat { num: sum_tx(readings@) as i128, den: (1000 * readings@.len()) as i128 },
            )
            &&& info.measured_power == Some(
                Rat {
                    num: sum_signal(readings@) as i128,
                    den: (1000 * readings@.len()) as i128,
                },
            )
            &&& info_complete(info)
            &&& meas_ok(info.tx_power.unwrap())
            &&& meas_ok(info.measured_power.unwrap())
        },
{
    let n = readings.len();
    let mut signal_sum: i64 = 0;
    let mut tx_sum: i64 = 0;
    let mut any_reading = false;
    let mut i: usize = 0;
    while i < n
        invariant
            0 <= i <= n,
            1 <= n <= MAX_SAMPLE_COUNT,
            n == readings@.len(),
            readings_in_range(readings@),
            signal_sum == sum_signal(readings@.subrange(0, i as int)),
            tx_sum == sum_tx(readings@.subrange(0, i as int)),
            -(i as int) * MAX_ABS_MILLI_DBM <= signal_sum <= (i as int) * MAX_ABS_MILLI_DBM,
            -(i as int) * MAX_ABS_MILLI_DBM <= tx_sum <= (i as int) * MAX_ABS_MILLI_DBM,
            any_reading == !all_failed(readings@.subrange(0, i as int)),
        decreases n - i,
    {
        proof {
            lemma_sums_snoc(readings@, i as int);
            assert(readings@.subrange(0, i as int + 1)[i as int] == readings@[i as int]);
            assert(forall|j: int|
                0 <= j < i as int ==> readings@.subrange(0, i as int + 1)[j] == readings@.subrange(
                    0,
                    i as int,
                )[j]);
        }
        match &readings[i] {
            Some(sample) => {
                signal_sum = signal_sum + sample.signal_milli_dbm;
                tx_sum = tx_sum + sample.tx_milli_dbm;
                any_reading = true;
            },
            None => {},
        }
        i = i + 1;
    }
    proof {
        assert(readings@.subrange(0, n as int) =~= readings@);
    }
    if !any_reading {
        return Err(SampleError::RawSampleUnavailable);
    }
    Ok(
        NetInfo {
            tx_power: Some(Rat { num: tx_sum as i128, den: 1000 * (n as i128) }),
            measured_power: Some(Rat { num: signal_sum as i128, den: 1000 * (n as i128) }),
        },
    )
}

} // verus!
