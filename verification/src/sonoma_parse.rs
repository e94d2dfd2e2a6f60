//! Parsers of the text the Sonoma board programs print: register values
//! read with `rwmem`, and the outcome of a vector run.

use vstd::prelude::*;
use crate::text::{
    chars_of, find_chars, find_sub, int_error_message, int_error_text, is_hex_digit, lines,
    occurs_at, parse_uint_radix, push_str, slice_range, split_lines, string_from_chars, trim,
    trimmed, uint_parse, IntErrorKind,
};

verus! {

/// Whether every character is a hex digit.
pub open spec fn all_hex(s: Seq<char>) -> bool {
    forall|i: int| 0 <= i < s.len() ==> is_hex_digit(#[trigger] s[i])
}

/// What `parse_hex_value` returns on `s`: after trimming, `0x`/`0X` and
/// hex digits (trimmed again), eight hex digits, or else a decimal number;
/// the error messages name the trimmed text and the parse error.
pub open spec fn hex_value_result(s: Seq<char>) -> Result<u32, Seq<char>> {
    let t = trim(s);
    if t.len() == 0 {
        Err("Empty rwmem output"@)
    } else if t.len() >= 2 && t[0] == '0' && (t[1] == 'x' || t[1] == 'X') {
        match uint_parse(trim(t.skip(2)), 16, u32::MAX as int) {
            Ok(v) => Ok(v as u32),
            Err(e) => Err("Failed to parse hex '"@ + t + "': "@ + int_error_text(e)),
        }
    } else if t.len() == 8 && all_hex(t) {
        match uint_parse(t, 16, u32::MAX as int) {
            Ok(v) => Ok(v as u32),
            Err(e) => Err("Failed to parse hex '"@ + t + "': "@ + int_error_text(e)),
        }
    } else {
        match uint_parse(t, 10, u32::MAX as int) {
            Ok(v) => Ok(v as u32),
            Err(e) => Err("Failed to parse value '"@ + t + "': "@ + int_error_text(e)),
        }
    }
}

fn failure(prefix: &str, t: &[char], e: IntErrorKind) -> (r: String)
    ensures
        r@ == prefix@ + t@ + "': "@ + int_error_text(e),
{
    let mut out: Vec<char> = Vec::new();
    push_str(&mut out, prefix);
    let mut i: usize = 0;
    while i < t.len()
        invariant
            i <= t@.len(),
            out@ == prefix@ + t@.take(i as int),
        decreases t.len() - i,
    {
        out.push(t[i]);
        assert(t@.take(i + 1) =~= t@.take(i as int).push(t@[i as int]));
        i = i + 1;
    }
    assert(t@.take(t@.len() as int) =~= t@);
    push_str(&mut out, "': ");
    push_str(&mut out, int_error_message(e));
    assert(out@ =~= prefix@ + t@ + "': "@ + int_error_text(e));
    string_from_chars(out.as_slice())
}

/// Parse a value printed by `rwmem`: `0x00010000`, `00010000` or decimal.
pub fn parse_hex_value(stdout: &str) -> (r: Result<u32, String>)
    ensures
        match hex_value_result(stdout@) {
            Ok(v) => r == Ok::<u32, String>(v),
            Err(m) => r matches Err(e) && e@ == m,
        },
{
    let t = trimmed(chars_of(stdout).as_slice());
    let n = t.len();
    if n == 0 {
        return Err("Empty rwmem output".to_owned());
    }
    if n >= 2 && t[0] == '0' && (t[1] == 'x' || t[1] == 'X') {
        let rest = slice_range(t.as_slice(), 2, n);
        assert(rest@ =~= t@.skip(2));
        let digits = trimmed(rest.as_slice());
        return match parse_uint_radix(digits.as_slice(), 16, 0xffff_ffff) {
            Ok(v) => Ok(v as u32),
            Err(e) => Err(failure("Failed to parse hex '", t.as_slice(), e)),
        };
    }
    let mut all = true;
    let mut i: usize = 0;
    while i < n
        invariant
            n == t@.len(),
            i <= n,
            all == (forall|k: int| 0 <= k < i ==> is_hex_digit(#[trigger] t@[k])),
        decreases n - i,
    {
        let c = t[i];
        if !(('0' <= c && c <= '9') || ('a' <= c && c <= 'f') || ('A' <= c && c <= 'F')) {
            all = false;
        }
        i = i + 1;
    }
    if n == 8 && all {
        return match parse_uint_radix(t.as_slice(), 16, 0xffff_ffff) {
            Ok(v) => Ok(v as u32),
            Err(e) => Err(failure("Failed to parse hex '", t.as_slice(), e)),
        };
    }
    match parse_uint_radix(t.as_slice(), 10, 0xffff_ffff) {
        Ok(v) => Ok(v as u32),
        Err(e) => Err(failure("Failed to parse value '", t.as_slice(), e)),
    }
}

/// The text after the first `error_count=` of a line, up to the next one.
pub open spec fn count_field(line: Seq<char>) -> Option<Seq<char>> {
    match find_sub(line, "error_count="@) {
        None => None,
        Some(i) => {
            let rest = line.skip(i + "error_count="@.len());
            match find_sub(rest, "error_count="@) {
                None => Some(rest),
                Some(j) => Some(rest.take(j)),
            }
        },
    }
}

/// The outcome of a run over some lines: whether it passed, and the error
/// count of the last failure line that gives one.
pub open spec fn run_outcome_of(ls: Seq<Seq<char>>) -> (bool, u32)
    decreases ls.len(),
{
    if ls.len() == 0 {
        (true, 0)
    } else {
        let (passed, errors) = run_outcome_of(ls.drop_last());
        let line = ls.last();
        if find_sub(line, "VECTOR FAILED"@) is Some {
            let errors2 = match count_field(line) {
                Some(f) => match uint_parse(trim(f), 10, u32::MAX as int) {
                    Ok(n) => n as u32,
                    Err(_) => errors,
                },
                None => errors,
            };
            (false, errors2)
        } else {
            (passed, errors)
        }
    }
}

/// A failure line whose `error_count=` field is a decimal number N (digits
/// only, fitting in `u32`) makes the run failed with N errors, N read in
/// base ten, whatever came before it.
#[verifier::spinoff_prover]
pub proof fn lemma_failure_count_is_decimal(ls: Seq<Seq<char>>, f: Seq<char>)
    requires
        ls.len() > 0,
        find_sub(ls.last(), "VECTOR FAILED"@) is Some,
        count_field(ls.last()) == Some(f),
        trim(f).len() > 0,
        forall|i: int| 0 <= i < trim(f).len() ==> crate::text::is_digit(#[trigger] trim(f)[i]),
        crate::text::dec_value(trim(f)) <= u32::MAX,
    ensures
        run_outcome_of(ls) == (false, crate::text::dec_value(trim(f)) as u32),
{
    let d = trim(f);
    crate::text::lemma_scan_dec(d, u32::MAX as int);
    assert(crate::text::is_digit(d[0]));
    assert(uint_parse(d, 10, u32::MAX as int) == Ok::<int, IntErrorKind>(crate::text::dec_value(d)));
    let prev = run_outcome_of(ls.drop_last());
    assert(run_outcome_of(ls) == (false, crate::text::dec_value(d) as u32));
}

/// Whether a line reports a failed run.
#[verifier::opaque]
pub open spec fn is_failure_line(l: Seq<char>) -> bool {
    find_sub(l, "VECTOR FAILED"@) is Some
}

/// Whether a run over some lines passed.
#[verifier::opaque]
spec fn run_passed(ls: Seq<Seq<char>>) -> bool {
    run_outcome_of(ls).0
}

proof fn lemma_run_step_passed(ls: Seq<Seq<char>>)
    requires
        ls.len() > 0,
    ensures
        run_passed(ls) == (run_passed(ls.drop_last()) && !is_failure_line(ls.last())),
{
    reveal(run_passed);
    reveal(is_failure_line);
}

proof fn lemma_run_passed_lines(ls: Seq<Seq<char>>)
    ensures
        run_passed(ls) == (forall|i: int| 0 <= i < ls.len() ==> !#[trigger] is_failure_line(ls[i])),
    decreases ls.len(),
{
    if ls.len() == 0 {
        reveal(run_passed);
    } else {
        let d = ls.drop_last();
        lemma_run_passed_lines(d);
        lemma_run_step_passed(ls);
        let all_d = forall|i: int| 0 <= i < d.len() ==> !#[trigger] is_failure_line(d[i]);
        let all_l = forall|i: int| 0 <= i < ls.len() ==> !#[trigger] is_failure_line(ls[i]);
        if all_l {
            assert forall|i: int| 0 <= i < d.len() implies !#[trigger] is_failure_line(d[i]) by {
                assert(d[i] == ls[i]);
                assert(!is_failure_line(ls[i]));
            }
            assert(!is_failure_line(ls[ls.len() - 1]));
            assert(ls[ls.len() - 1] == ls.last());
        }
        if all_d && !is_failure_line(ls.last()) {
            assert forall|i: int| 0 <= i < ls.len() implies !#[trigger] is_failure_line(ls[i]) by {
                if i < d.len() {
                    assert(d[i] == ls[i]);
                    assert(!is_failure_line(d[i]));
                } else {
                    assert(ls[i] == ls.last());
                }
            }
        }
        assert(all_l == (all_d && !is_failure_line(ls.last())));
    }
}

/// A run passes exactly when no line of its output reports
/// `VECTOR FAILED` (`is_failure_line`).
pub proof fn lemma_run_passes_without_failure_lines(ls: Seq<Seq<char>>)
    ensures
        run_outcome_of(ls).0 == (forall|i: int| 0 <= i < ls.len() ==> !#[trigger] is_failure_line(ls[i])),
{
    lemma_run_passed_lines(ls);
    reveal(run_passed);
}

/// The outcome of a vector run from the program's output: it passed when
/// no line reports `VECTOR FAILED`; a failure line's `error_count=N` gives
/// the error count.
pub fn run_outcome(stdout: &str) -> (r: (bool, u32))
    ensures
        r == run_outcome_of(lines(stdout@)),
{
    let v = chars_of(stdout);
    let ls = split_lines(v.as_slice());
    let ghost lv = lines(stdout@);
    let failed_pat = chars_of("VECTOR FAILED");
    let count_pat = chars_of("error_count=");
    let mut passed = true;
    let mut errors: u32 = 0;
    let mut i: usize = 0;
    while i < ls.len()
        invariant
            ls@.len() == lv.len(),
            forall|k: int| 0 <= k < ls@.len() ==> (#[trigger] ls@[k])@ == lv[k],
            failed_pat@ == "VECTOR FAILED"@,
            count_pat@ == "error_count="@,
            i <= ls@.len(),
            (passed, errors) == run_outcome_of(lv.take(i as int)),
        decreases ls.len() - i,
    {
        assert(lv.take(i + 1).drop_last() =~= lv.take(i as int));
        assert(lv.take(i + 1).last() == lv[i as int]);
        let line = &ls[i];
        if find_chars(line.as_slice(), failed_pat.as_slice()).is_some() {
            passed = false;
            match find_chars(line.as_slice(), count_pat.as_slice()) {
                Some(at) => {
                    assert(occurs_at(line@, count_pat@, at as int));
                    let ll = line.len();
                    let pl = count_pat.len();
                    assert(at + pl <= ll);
                    let start = at + pl;
                    let rest = slice_range(line.as_slice(), start, line.len());
                    assert(rest@ =~= line@.skip(start as int));
                    let field = match find_chars(rest.as_slice(), count_pat.as_slice()) {
                        Some(j) => {
                            let f = slice_range(rest.as_slice(), 0, j);
                            assert(f@ =~= rest@.take(j as int));
                            f
                        },
                        None => rest,
                    };
                    let t = trimmed(field.as_slice());
                    match parse_uint_radix(t.as_slice(), 10, 0xffff_ffff) {
                        Ok(n) => {
                            errors = n as u32;
                        },
                        Err(_) => {},
                    }
                },
                None => {},
            }
        }
        i = i + 1;
    }
    assert(lv.take(ls@.len() as int) =~= lv);
    (passed, errors)
}

} // verus!
