//! Parsing one raw telemetry report into per-unit resource records.
//!
//! A report is one line per accelerator, fields separated by `", "`:
//! the unit index, the busy percentage suffixed `" %"`, and the free memory
//! in mebibytes suffixed `" MiB"`. An empty line ends the report; any
//! malformed record makes the whole report untrustworthy and is a fatal
//! telemetry error, never a silently skipped record.

use vstd::prelude::*;
use vstd::slice::slice_subrange;
use crate::digits::{all_dec_digits, dec_val, parse_u64};

verus! {

/// One accelerator's instantaneous state, as read from one report line.
#[derive(Clone, Copy, PartialEq, Eq, Structural, Debug)]
pub struct GPUInfo {
    /// Stable identifier of the unit within one snapshot.
    pub index: usize,
    /// Free utilization in percent: 100 minus the reported busy percentage.
    pub gpu_free: usize,
    /// Free memory in whole gibibytes, rounded down from mebibytes.
    pub memory_free: u32,
}

/// The telemetry report could not be decoded.
#[derive(Clone, Copy, PartialEq, Eq, Structural, Debug)]
pub struct TelemetryError {}

/// Index of the first occurrence of `b` in `s`, or `s.len()` if absent.
pub open spec fn find_byte(s: Seq<u8>, b: u8) -> nat
    decreases s.len(),
{
    if s.len() == 0 {
        0
    } else if s[0] == b {
        0
    } else {
        1 + find_byte(s.skip(1), b)
    }
}

/// What `find_byte` returns: the first position holding `b`, or the length.
pub proof fn lemma_find_byte(s: Seq<u8>, b: u8)
    ensures
        find_byte(s, b) <= s.len(),
        forall|i: int| 0 <= i < find_byte(s, b) ==> s[i] != b,
        find_byte(s, b) < s.len() ==> s[find_byte(s, b) as int] == b,
    decreases s.len(),
{
    if s.len() == 0 {
    } else if s[0] == b {
    } else {
        lemma_find_byte(s.skip(1), b);
        let f = find_byte(s, b);
        assert forall|i: int| 0 <= i < f implies s[i] != b by {
            if i > 0 {
                assert(s.skip(1)[i - 1] == s[i]);
            }
        }
        if f < s.len() {
            assert(s.skip(1)[f - 1] == s[f as int]);
        }
    }
}

/// First occurrence of `b` in `s`, or `s.len()` if `b` does not occur.
pub fn find_byte_in(s: &[u8], b: u8) -> (r: usize)
    ensures
        r == find_byte(s@, b),
{
    let mut i: usize = 0;
    while i < s.len()
        invariant
            i <= s@.len(),
            forall|j: int| 0 <= j < i ==> s@[j] != b,
        decreases s@.len() - i,
    {
        if s[i] == b {
            proof {
                lemma_find_byte(s@, b);
            }
            return i;
        }
        i = i + 1;
    }
    proof {
        lemma_find_byte(s@, b);
    }
    i
}

/// Index of the first `", "` separator in `s`, or `s.len()` if absent.
pub open spec fn find_sep(s: Seq<u8>) -> nat
    decreases s.len(),
{
    if s.len() < 2 {
        s.len()
    } else if s[0] == 0x2C && s[1] == 0x20 {
        0
    } else {
        1 + find_sep(s.skip(1))
    }
}

/// What `find_sep` returns: the first position of a `", "` pair, or the length.
pub proof fn lemma_find_sep(s: Seq<u8>)
    ensures
        find_sep(s) <= s.len(),
        forall|i: int|
            0 <= i < find_sep(s) ==> !(i + 1 < s.len() && #[trigger] s[i] == 0x2C && s[i + 1] == 0x20),
        find_sep(s) < s.len() ==> find_sep(s) + 1 < s.len() && s[find_sep(s) as int] == 0x2C
            && s[find_sep(s) as int + 1] == 0x20,
    decreases s.len(),
{
    if s.len() < 2 {
    } else if s[0] == 0x2C && s[1] == 0x20 {
    } else {
        lemma_find_sep(s.skip(1));
        let f = find_sep(s);
        assert forall|i: int|
            0 <= i < f implies !(i + 1 < s.len() && #[trigger] s[i] == 0x2C && s[i + 1] == 0x20) by {
            if i > 0 {
                assert(s.skip(1)[i - 1] == s[i]);
                if i + 1 < s.len() {
                    assert(s.skip(1)[i] == s[i + 1]);
                }
            }
        }
        if f < s.len() {
            assert(s.skip(1)[f - 1] == s[f as int]);
            assert(s.skip(1)[f as int] == s[f as int + 1]);
        }
    }
}

/// First `", "` separator position in `s`, or `s.len()` if there is none.
pub fn find_sep_in(s: &[u8]) -> (r: usize)
    ensures
        r == find_sep(s@),
{
    if s.len() < 2 {
        proof {
            lemma_find_sep(s@);
        }
        return s.len();
    }
    let mut i: usize = 0;
    while i < s.len() - 1
        invariant
            s@.len() >= 2,
            i <= s@.len(),
            forall|j: int|
                0 <= j < i ==> !(j + 1 < s@.len() && #[trigger] s@[j] == 0x2C && s@[j + 1] == 0x20),
        decreases s@.len() - i,
    {
        if s[i] == 0x2C && s[i + 1] == 0x20 {
            proof {
                lemma_find_sep(s@);
            }
            return i;
        }
        i = i + 1;
    }
    proof {
        lemma_find_sep(s@);
    }
    s.len()
}

/// Decodes the three fields of one record: index, busy percentage with its
/// `" %"` suffix, free mebibytes with its `" MiB"` suffix. The stored record
/// holds the free percentage (100 minus busy) and whole free gibibytes.
pub open spec fn parse_fields(f1: Seq<u8>, f2: Seq<u8>, f3: Seq<u8>) -> Option<GPUInfo> {
    if !(f1.len() > 0 && all_dec_digits(f1) && dec_val(f1) <= usize::MAX) {
        None
    } else if !(f2.len() >= 2 && f2[f2.len() - 2] == 0x20 && f2[f2.len() - 1] == 0x25) {
        None
    } else {
        let d2 = f2.take(f2.len() - 2);
        if !(d2.len() > 0 && all_dec_digits(d2) && dec_val(d2) <= 100) {
            None
        } else if !(f3.len() >= 4 && f3[f3.len() - 4] == 0x20 && f3[f3.len() - 3] == 0x4D
            && f3[f3.len() - 2] == 0x69 && f3[f3.len() - 1] == 0x42) {
            None
        } else {
            let d3 = f3.take(f3.len() - 4);
            if !(d3.len() > 0 && all_dec_digits(d3) && dec_val(d3) <= u32::MAX) {
                None
            } else {
                Some(
                    GPUInfo {
                        index: dec_val(f1) as usize,
                        gpu_free: (100 - dec_val(d2)) as usize,
                        memory_free: (dec_val(d3) / 1024) as u32,
                    },
                )
            }
        }
    }
}

/// Decodes one report line: the first two `", "` separators bound the first
/// two fields, the third field runs to the next separator or to the end.
pub open spec fn parse_line(l: Seq<u8>) -> Option<GPUInfo> {
    let p1 = find_sep(l);
    if p1 == l.len() {
        None
    } else {
        let f1 = l.take(p1 as int);
        let r1 = l.skip(p1 + 2 as int);
        let p2 = find_sep(r1);
        if p2 == r1.len() {
            None
        } else {
            let f2 = r1.take(p2 as int);
            let r2 = r1.skip(p2 + 2 as int);
            let p3 = find_sep(r2);
            let f3 = r2.take(p3 as int);
            parse_fields(f1, f2, f3)
        }
    }
}

/// Decodes a whole report: one record per line, stopping without error at an
/// empty line or at the end; any undecodable record fails the whole report.
pub open spec fn parse_report(s: Seq<u8>) -> Option<Seq<GPUInfo>>
    decreases s.len(),
{
    if s.len() == 0 {
        Some(Seq::empty())
    } else {
        let p = find_byte(s, 0x0A);
        if p == 0 {
            Some(Seq::empty())
        } else if p >= s.len() {
            match parse_line(s) {
                Some(u) => Some(seq![u]),
                None => None,
            }
        } else {
            match parse_line(s.take(p as int)) {
                Some(u) => match parse_report(s.skip(p + 1 as int)) {
                    Some(us) => Some(seq![u] + us),
                    None => None,
                },
                None => None,
            }
        }
    }
}

/// Decodes the three already-separated fields of one record.
fn parse_fields_bytes(f1: &[u8], f2: &[u8], f3: &[u8]) -> (r: Option<GPUInfo>)
    ensures
        r == parse_fields(f1@, f2@, f3@),
{
    let index_raw = match parse_u64(f1) {
        Some(v) => v,
        None => {
            return None;
        },
    };
    if index_raw > usize::MAX as u64 {
        return None;
    }
    if f2.len() < 2 {
        return None;
    }
    if !(f2[f2.len() - 2] == 0x20 && f2[f2.len() - 1] == 0x25) {
        return None;
    }
    let d2 = slice_subrange(f2, 0, f2.len() - 2);
    let busy = match parse_u64(d2) {
        Some(v) => v,
        None => {
            return None;
        },
    };
    if busy > 100 {
        return None;
    }
    if f3.len() < 4 {
        return None;
    }
    if !(f3[f3.len() - 4] == 0x20 && f3[f3.len() - 3] == 0x4D && f3[f3.len() - 2] == 0x69
        && f3[f3.len() - 1] == 0x42) {
        return None;
    }
    let d3 = slice_subrange(f3, 0, f3.len() - 4);
    let mib = match parse_u64(d3) {
        Some(v) => v,
        None => {
            return None;
        },
    };
    if mib > u32::MAX as u64 {
        return None;
    }
    Some(
        GPUInfo {
            index: index_raw as usize,
            gpu_free: (100 - busy) as usize,
            memory_free: (mib / 1024) as u32,
        },
    )
}

/// Decodes one report line.
fn parse_line_bytes(l: &[u8]) -> (r: Option<GPUInfo>)
    ensures
        r == parse_line(l@),
{
    proof {
        lemma_find_sep(l@);
    }
    let p1 = find_sep_in(l);
    if p1 == l.len() {
        return None;
    }
    let f1 = slice_subrange(l, 0, p1);
    let r1 = slice_subrange(l, p1 + 2, l.len());
    proof {
        lemma_find_sep(r1@);
    }
    let p2 = find_sep_in(r1);
    if p2 == r1.len() {
        return None;
    }
    let f2 = slice_subrange(r1, 0, p2);
    let r2 = slice_subrange(r1, p2 + 2, r1.len());
    let p3 = find_sep_in(r2);
    proof {
        lemma_find_sep(r2@);
    }
    let f3 = slice_subrange(r2, 0, p3);
    parse_fields_bytes(f1, f2, f3)
}

/// Decodes the report lines of `raw`, appending each record to `acc`.
fn parse_rest(raw: &[u8], acc: &mut Vec<GPUInfo>) -> (r: Result<(), TelemetryError>)
    ensures
        match r {
            Ok(_) => parse_report(raw@) matches Some(us) && final(acc)@ =~= old(acc)@ + us,
            Err(_) => parse_report(raw@) is None,
        },
    decreases raw@.len(),
{
    if raw.len() == 0 {
        assert(old(acc)@ + Seq::<GPUInfo>::empty() =~= old(acc)@);
        return Ok(());
    }
    proof {
        lemma_find_byte(raw@, 0x0A);
    }
    let p = find_byte_in(raw, 0x0A);
    if p == 0 {
        assert(old(acc)@ + Seq::<GPUInfo>::empty() =~= old(acc)@);
        return Ok(());
    }
    if p >= raw.len() {
        match parse_line_bytes(raw) {
            Some(u) => {
                acc.push(u);
                proof {
                    assert(acc@ =~= old(acc)@ + seq![u]);
                }
                Ok(())
            },
            None => Err(TelemetryError {}),
        }
    } else {
        let line = slice_subrange(raw, 0, p);
        match parse_line_bytes(line) {
            Some(u) => {
                acc.push(u);
                let rest = slice_subrange(raw, p + 1, raw.len());
                let inner = parse_rest(rest, acc);
                match inner {
                    Ok(_) => {
                        proof {
                            let us = parse_report(rest@)->Some_0;
                            assert(acc@ =~= old(acc)@ + (seq![u] + us));
                        }
                        Ok(())
                    },
                    Err(e) => Err(e),
                }
            },
            None => Err(TelemetryError {}),
        }
    }
}

/// Decodes one raw telemetry report into the ordered sequence of unit
/// records, or fails if any record before the terminating blank line is
/// malformed.
pub fn parse_cuda_info(raw: &[u8]) -> (r: Result<Vec<GPUInfo>, TelemetryError>)
    ensures
        match r {
            Ok(v) => parse_report(raw@) matches Some(us) && v@ =~= us,
            Err(_) => parse_report(raw@) is None,
        },
{
    let mut v: Vec<GPUInfo> = Vec::new();
    match parse_rest(raw, &mut v) {
        Ok(_) => Ok(v),
        Err(e) => Err(e),
    }
}

} // verus!
