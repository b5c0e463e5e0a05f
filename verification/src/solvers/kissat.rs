//! The Kissat solver: what is read from each line of its output. Kissat reports
//! its process time on a line `c process-time: ... <seconds> seconds` and its
//! verdict on a line `s <verdict>`; the first of each counts.

use vstd::prelude::*;
use vstd::string::*;
use std::sync::Arc;
use std::time::Duration;
use crate::cnf::Cnf;
use crate::solvers::{SolverError, SolverOutput};
use crate::text::{decimal_digit, is_decimal_digit, is_white_space, str_eq, white_space};
use crate::util::ResultExt;

verus! {

/// The number of white-space characters at the start of `s`.
pub open spec fn leading_white(s: Seq<char>) -> nat
    decreases s.len(),
{
    if s.len() > 0 && is_white_space(s[0]) {
        1 + leading_white(s.drop_first())
    } else {
        0
    }
}

/// The number of white-space characters at the end of `s`.
pub open spec fn trailing_white(s: Seq<char>) -> nat
    decreases s.len(),
{
    if s.len() > 0 && is_white_space(s.last()) {
        1 + trailing_white(s.drop_last())
    } else {
        0
    }
}

/// `s` without the white space at its start and at its end.
pub open spec fn trim(s: Seq<char>) -> Seq<char> {
    let u = s.skip(leading_white(s) as int);
    u.take(u.len() - trailing_white(u))
}

/// Where the run of decimal digits that ends at `end` in `s` starts.
pub open spec fn digit_run_start(s: Seq<char>, end: int) -> int
    decreases end,
{
    if 0 < end <= s.len() && is_decimal_digit(s[end - 1]) {
        digit_run_start(s, end - 1)
    } else {
        end
    }
}

/// Where the number at the end of `s` starts: the number is a run of digits,
/// optionally followed by a point and at least one digit (`\d*(\.\d+)?`).
pub open spec fn number_start(s: Seq<char>) -> int {
    let j = digit_run_start(s, s.len() as int);
    if 1 <= j < s.len() && s[j - 1] == '.' {
        digit_run_start(s, j - 1)
    } else {
        j
    }
}

/// The number at the end of `s` (possibly empty).
pub open spec fn trailing_number(s: Seq<char>) -> Seq<char> {
    s.subrange(number_start(s), s.len() as int)
}

/// The label of a process-time line.
pub open spec fn process_time_label() -> Seq<char> {
    seq!['p', 'r', 'o', 'c', 'e', 's', 's', '-', 't', 'i', 'm', 'e', ':']
}

/// The word that ends a process-time line.
pub open spec fn seconds_word() -> Seq<char> {
    seq!['s', 'e', 'c', 'o', 'n', 'd', 's']
}

/// What the pattern `^c\sprocess-time:\s*.*?(\d*(?:\.\d+)?)\s*seconds$` captures
/// in a line (without line break): the line is `c`, a white-space character,
/// `process-time:`, some text, and `seconds`; the capture is the number at the end
/// of that text once its surrounding white space is trimmed.
pub open spec fn process_time_capture(line: Seq<char>) -> Option<Seq<char>> {
    if line.len() >= 22 && line[0] == 'c' && is_white_space(line[1]) && line.subrange(2, 15)
        == process_time_label() && line.subrange(line.len() - 7, line.len() as int) == seconds_word() {
        Some(trailing_number(trim(line.subrange(15, line.len() - 7))))
    } else {
        None
    }
}

/// What the pattern `^s\s+(.*?)\s*$` captures in a line (without line break): the
/// line is `s` and white space, and the capture is the rest, trimmed.
pub open spec fn status_capture(line: Seq<char>) -> Option<Seq<char>> {
    if line.len() >= 2 && line[0] == 's' && is_white_space(line[1]) {
        Some(trim(line.skip(1)))
    } else {
        None
    }
}

/// The verdict of a satisfiable formula.
pub open spec fn satisfiable_word() -> Seq<char> {
    seq!['S', 'A', 'T', 'I', 'S', 'F', 'I', 'A', 'B', 'L', 'E']
}

proof fn lemma_leading_white(s: Seq<char>, k: int)
    requires
        0 <= k <= s.len(),
        forall|i: int| 0 <= i < k ==> is_white_space(#[trigger] s[i]),
        k == s.len() || !is_white_space(s[k]),
    ensures
        leading_white(s) == k,
    decreases k,
{
    if k > 0 {
        lemma_leading_white(s.drop_first(), k - 1);
    }
}

proof fn lemma_trailing_white(s: Seq<char>, k: int)
    requires
        0 <= k <= s.len(),
        forall|i: int| s.len() - k <= i < s.len() ==> is_white_space(#[trigger] s[i]),
        k == s.len() || !is_white_space(s[s.len() - k - 1]),
    ensures
        trailing_white(s) == k,
    decreases k,
{
    if k > 0 {
        lemma_trailing_white(s.drop_last(), k - 1);
    }
}

proof fn lemma_digit_run(s: Seq<char>, r: int, end: int)
    requires
        0 <= r <= end <= s.len(),
        forall|i: int| r <= i < end ==> is_decimal_digit(#[trigger] s[i]),
        r == 0 || !is_decimal_digit(s[r - 1]),
    ensures
        digit_run_start(s, end) == r,
    decreases end - r,
{
    if end > r {
        lemma_digit_run(s, r, end - 1);
    }
}

/// Whether `s` is a number text in the sense of `\d*(\.\d+)?`: decimal digits,
/// optionally followed by a point and at least one more digit.
pub open spec fn is_number_text(s: Seq<char>) -> bool {
    ||| forall|i: int| 0 <= i < s.len() ==> is_decimal_digit(#[trigger] s[i])
    ||| exists|d: int|
        0 <= d < s.len() - 1 && #[trigger] s[d] == '.' && (forall|i: int|
            0 <= i < s.len() && i != d ==> is_decimal_digit(#[trigger] s[i]))
}

proof fn lemma_digit_run_start(s: Seq<char>, end: int)
    requires
        0 <= end <= s.len(),
    ensures
        0 <= digit_run_start(s, end) <= end,
        forall|i: int| digit_run_start(s, end) <= i < end ==> is_decimal_digit(#[trigger] s[i]),
        digit_run_start(s, end) == 0 || !is_decimal_digit(s[digit_run_start(s, end) - 1]),
    decreases end,
{
    if 0 < end && is_decimal_digit(s[end - 1]) {
        lemma_digit_run_start(s, end - 1);
    }
}

/// A text with two characters that are not digits, or whose last character is a
/// point, is no number text.
proof fn lemma_not_number_text(t: Seq<char>, x: int, y: int)
    requires
        0 <= x < t.len(),
        0 <= y < t.len(),
        !is_decimal_digit(t[x]),
        !is_decimal_digit(t[y]),
        x != y || y == t.len() - 1,
    ensures
        !is_number_text(t),
{
    if is_number_text(t) {
        if forall|i: int| 0 <= i < t.len() ==> is_decimal_digit(#[trigger] t[i]) {
            assert(is_decimal_digit(t[x]));
        } else {
            let d = choose|d: int|
                0 <= d < t.len() - 1 && #[trigger] t[d] == '.' && (forall|i: int|
                    0 <= i < t.len() && i != d ==> is_decimal_digit(#[trigger] t[i]));
            if x != d {
                assert(is_decimal_digit(t[x]));
            } else {
                assert(is_decimal_digit(t[y]));
            }
        }
    }
}

/// The number that the process-time pattern captures is the longest suffix of the
/// trimmed text that is a number text (`\d*(\.\d+)?`): `trailing_number` is such a
/// suffix, and no longer suffix is one.
pub proof fn lemma_trailing_number_is_longest(s: Seq<char>)
    ensures
        0 <= number_start(s) <= s.len(),
        is_number_text(trailing_number(s)),
        forall|k: int| 0 <= k < number_start(s) ==> !is_number_text(#[trigger] s.subrange(k, s.len() as int)),
{
    let n = s.len() as int;
    lemma_digit_run_start(s, n);
    let j = digit_run_start(s, n);
    assert(!is_decimal_digit('.'));
    if 1 <= j < n && s[j - 1] == '.' {
        lemma_digit_run_start(s, j - 1);
        let j2 = digit_run_start(s, j - 1);
        let t = trailing_number(s);
        assert(t =~= s.subrange(j2, n));
        assert(t[j - 1 - j2] == '.');
        assert forall|i: int| 0 <= i < t.len() && i != j - 1 - j2 implies is_decimal_digit(#[trigger] t[i]) by {
            assert(t[i] == s[j2 + i]);
        }
        assert forall|k: int| 0 <= k < j2 implies !is_number_text(#[trigger] s.subrange(k, n)) by {
            let u = s.subrange(k, n);
            assert(u[j2 - 1 - k] == s[j2 - 1]);
            assert(u[j - 1 - k] == s[j - 1]);
            lemma_not_number_text(u, j2 - 1 - k, j - 1 - k);
        }
    } else {
        let t = trailing_number(s);
        assert(t =~= s.subrange(j, n));
        assert forall|i: int| 0 <= i < t.len() implies is_decimal_digit(#[trigger] t[i]) by {
            assert(t[i] == s[j + i]);
        }
        assert forall|k: int| 0 <= k < j implies !is_number_text(#[trigger] s.subrange(k, n)) by {
            let u = s.subrange(k, n);
            assert(u[j - 1 - k] == s[j - 1]);
            if s[j - 1] == '.' {
                assert(j == n);
                lemma_not_number_text(u, j - 1 - k, j - 1 - k);
            } else {
                if is_number_text(u) {
                    if forall|i: int| 0 <= i < u.len() ==> is_decimal_digit(#[trigger] u[i]) {
                        assert(is_decimal_digit(u[j - 1 - k]));
                    } else {
                        let d = choose|d: int|
                            0 <= d < u.len() - 1 && #[trigger] u[d] == '.' && (forall|i: int|
                                0 <= i < u.len() && i != d ==> is_decimal_digit(#[trigger] u[i]));
                        assert(d != j - 1 - k);
                        assert(is_decimal_digit(u[j - 1 - k]));
                    }
                }
            }
        }
    }
}

/// The characters of a string, in a vector.
fn char_vec(s: &str) -> (v: Vec<char>)
    ensures
        v@ == s@,
{
    let n = s.unicode_len();
    let mut v: Vec<char> = Vec::new();
    let mut i: usize = 0;
    while i < n
        invariant
            n == s@.len(),
            i <= n,
            v@ == s@.take(i as int),
        decreases n - i,
    {
        v.push(s.get_char(i));
        assert(v@ =~= s@.take(i + 1));
        i = i + 1;
    }
    assert(s@.take(n as int) =~= s@);
    v
}

/// The bounds of `v[lo..hi]` once its surrounding white space is trimmed.
fn trim_range(v: &Vec<char>, lo: usize, hi: usize) -> (r: (usize, usize))
    requires
        lo <= hi <= v@.len(),
    ensures
        lo <= r.0 <= r.1 <= hi,
        v@.subrange(r.0 as int, r.1 as int) == trim(v@.subrange(lo as int, hi as int)),
{
    let ghost s = v@.subrange(lo as int, hi as int);
    let mut a = lo;
    while a < hi && white_space(v[a])
        invariant
            lo <= a <= hi <= v@.len(),
            forall|i: int| lo <= i < a ==> is_white_space(#[trigger] v@[i]),
        decreases hi - a,
    {
        a = a + 1;
    }
    proof {
        assert forall|i: int| 0 <= i < a - lo implies is_white_space(#[trigger] s[i]) by {
            assert(s[i] == v@[lo + i]);
        }
        lemma_leading_white(s, a - lo);
    }
    let ghost u = s.skip(a - lo);
    assert(u =~= v@.subrange(a as int, hi as int));
    let mut b = hi;
    while b > a && white_space(v[b - 1])
        invariant
            lo <= a <= b <= hi <= v@.len(),
            forall|i: int| b <= i < hi ==> is_white_space(#[trigger] v@[i]),
        decreases b - a,
    {
        b = b - 1;
    }
    proof {
        assert forall|i: int| u.len() - (hi - b) <= i < u.len() implies is_white_space(#[trigger] u[i]) by {
            assert(u[i] == v@[a + i]);
        }
        if hi - b < u.len() {
            assert(u[u.len() - (hi - b) - 1] == v@[b - 1]);
        }
        lemma_trailing_white(u, hi - b);
        assert(v@.subrange(a as int, b as int) =~= u.take(u.len() - (hi - b)));
    }
    (a, b)
}

/// Where the run of decimal digits that ends at `end` in `v[lo..]` starts.
fn digit_run(v: &Vec<char>, lo: usize, end: usize) -> (r: usize)
    requires
        lo <= end <= v@.len(),
    ensures
        lo <= r <= end,
        forall|i: int| r <= i < end ==> is_decimal_digit(#[trigger] v@[i]),
        r == lo || !is_decimal_digit(v@[r - 1]),
{
    let mut k = end;
    while k > lo && decimal_digit(v[k - 1])
        invariant
            lo <= k <= end <= v@.len(),
            forall|i: int| k <= i < end ==> is_decimal_digit(#[trigger] v@[i]),
        decreases k - lo,
    {
        k = k - 1;
    }
    k
}

/// Where the number at the end of `v[lo..hi]` starts.
fn number_range_start(v: &Vec<char>, lo: usize, hi: usize) -> (r: usize)
    requires
        lo <= hi <= v@.len(),
    ensures
        lo <= r <= hi,
        v@.subrange(r as int, hi as int) == trailing_number(v@.subrange(lo as int, hi as int)),
{
    let ghost s = v@.subrange(lo as int, hi as int);
    let j = digit_run(v, lo, hi);
    proof {
        assert forall|i: int| j - lo <= i < hi - lo implies is_decimal_digit(#[trigger] s[i]) by {
            assert(s[i] == v@[lo + i]);
        }
        if j > lo {
            assert(s[j - lo - 1] == v@[j - 1]);
        }
        lemma_digit_run(s, j - lo, hi - lo);
    }
    let r = if j > lo && j < hi && v[j - 1] == '.' {
        let k = digit_run(v, lo, j - 1);
        proof {
            assert(s[j - lo - 1] == v@[j - 1]);
            assert forall|i: int| k - lo <= i < j - 1 - lo implies is_decimal_digit(#[trigger] s[i]) by {
                assert(s[i] == v@[lo + i]);
            }
            if k > lo {
                assert(s[k - lo - 1] == v@[k - 1]);
            }
            lemma_digit_run(s, k - lo, j - 1 - lo);
        }
        k
    } else {
        j
    };
    assert(v@.subrange(r as int, hi as int) =~= s.subrange(r - lo, s.len() as int));
    r
}

/// What the process-time pattern captures in `line` (see `process_time_capture`).
pub fn capture_process_time(line: &str) -> (r: Option<String>)
    ensures
        r is Some <==> process_time_capture(line@) is Some,
        r matches Some(t) ==> t@ == process_time_capture(line@)->0,
{
    let v = char_vec(line);
    let n = v.len();
    proof {
        reveal_strlit("process-time:");
        reveal_strlit("seconds");
    }
    if n < 22 || v[0] != 'c' || !white_space(v[1]) {
        return None;
    }
    if !str_eq(line.substring_char(2, 15), "process-time:") {
        assert(line@.subrange(2, 15) != process_time_label()) by {
            assert("process-time:"@ =~= process_time_label());
        }
        return None;
    }
    if !str_eq(line.substring_char(n - 7, n), "seconds") {
        assert(line@.subrange(n - 7, n as int) != seconds_word()) by {
            assert("seconds"@ =~= seconds_word());
        }
        return None;
    }
    assert("process-time:"@ =~= process_time_label());
    assert("seconds"@ =~= seconds_word());
    let (a, b) = trim_range(&v, 15, n - 7);
    let k = number_range_start(&v, a, b);
    assert(v@.subrange(a as int, b as int).subrange(k - a, b - a) =~= v@.subrange(k as int, b as int));
    proof {
        let t = v@.subrange(a as int, b as int);
        assert(trailing_number(t) == t.subrange(number_start(t), t.len() as int));
    }
    Some(String::from_str(line.substring_char(k, b)))
}

/// What the status pattern captures in `line` (see `status_capture`).
pub fn capture_status(line: &str) -> (r: Option<String>)
    ensures
        r is Some <==> status_capture(line@) is Some,
        r matches Some(t) ==> t@ == status_capture(line@)->0,
{
    let v = char_vec(line);
    let n = v.len();
    if n < 2 || v[0] != 's' || !white_space(v[1]) {
        return None;
    }
    let (a, b) = trim_range(&v, 1, n);
    assert(line@.skip(1) =~= v@.subrange(1, n as int));
    Some(String::from_str(line.substring_char(a, b)))
}

/// What to do after a line of Kissat's output.
pub enum ScanStep {
    /// Parse this text as a number of seconds, and hand the outcome to `on_seconds`.
    ParseSeconds(String),
    /// Read the next line.
    Continue,
    /// Both the process time and the verdict are known: stop reading.
    Finished,
}

/// What has been read so far of Kissat's output.
pub struct KissatScan {
    pub process_time: Option<Duration>,
    pub is_satisfiable: Option<bool>,
    pub errors: Vec<SolverError>,
}

/// The step that follows once a line has been dealt with.
pub open spec fn next_step(process_time: Option<Duration>, is_satisfiable: Option<bool>, step: ScanStep) -> bool {
    if process_time is Some && is_satisfiable is Some {
        step is Finished
    } else {
        step is Continue
    }
}

impl KissatScan {
    /// Nothing read yet.
    pub fn new() -> (r: KissatScan)
        ensures
            r.process_time is None,
            r.is_satisfiable is None,
            r.errors@.len() == 0,
    {
        KissatScan { process_time: None, is_satisfiable: None, errors: Vec::new() }
    }

    /// Deals with one line of the output (without its line break). While the
    /// process time is unknown, a process-time line asks for its number to be parsed,
    /// and nothing changes yet. While the verdict is unknown, a status line gives it:
    /// satisfiable exactly where the status reads `SATISFIABLE`. Whatever is known
    /// stays as it is.
    pub fn on_line(&mut self, line: &str) -> (step: ScanStep)
        ensures
            process_time_capture(line@) is Some ==> status_capture(line@) is None,
            old(self).process_time is None && process_time_capture(line@) is Some ==> {
                &&& step matches ScanStep::ParseSeconds(t) && t@ == process_time_capture(line@)->0
                &&& final(self).process_time == old(self).process_time
                &&& final(self).is_satisfiable == old(self).is_satisfiable
                &&& final(self).errors@ == old(self).errors@
            },
            !(old(self).process_time is None && process_time_capture(line@) is Some) ==> {
                &&& final(self).process_time == old(self).process_time
                &&& final(self).errors@ == old(self).errors@
                &&& final(self).is_satisfiable == if old(self).is_satisfiable is None && status_capture(
                    line@,
                ) is Some {
                    Some(status_capture(line@)->0 == satisfiable_word())
                } else {
                    old(self).is_satisfiable
                }
                &&& next_step(final(self).process_time, final(self).is_satisfiable, step)
            },
    {
        if self.process_time.is_none() {
            if let Some(text) = capture_process_time(line) {
                return ScanStep::ParseSeconds(text);
            }
        }
        if self.is_satisfiable.is_none() {
            if let Some(verdict) = capture_status(line) {
                proof {
                    reveal_strlit("SATISFIABLE");
                    assert("SATISFIABLE"@ =~= satisfiable_word());
                }
                self.is_satisfiable = Some(str_eq(verdict.as_str(), "SATISFIABLE"));
            }
        }
        if self.process_time.is_some() && self.is_satisfiable.is_some() {
            ScanStep::Finished
        } else {
            ScanStep::Continue
        }
    }

    /// Takes the outcome of parsing the process time that `on_line` asked for: the
    /// time where it parsed, and otherwise its error, kept among the errors.
    pub fn on_seconds(&mut self, parsed: Result<Duration, String>) -> (step: ScanStep)
        ensures
            final(self).is_satisfiable == old(self).is_satisfiable,
            old(self).process_time is None ==> match parsed {
                Ok(d) => final(self).process_time == Some(d) && final(self).errors@ == old(self).errors@,
                Err(m) => final(self).process_time is None && final(self).errors@ == old(self).errors@.push(
                    SolverError { message: m },
                ),
            },
            old(self).process_time is Some ==> final(self).process_time == old(self).process_time
                && final(self).errors@ == old(self).errors@,
            next_step(final(self).process_time, final(self).is_satisfiable, step),
    {
        if self.process_time.is_none() {
            let ghost before = self.errors@;
            self.process_time = parsed.take_err(&mut self.errors);
            proof {
                if parsed is Err {
                    assert(self.errors@ =~= before.push(SolverError { message: parsed->Err_0 }));
                }
            }
        }
        if self.process_time.is_some() && self.is_satisfiable.is_some() {
            ScanStep::Finished
        } else {
            ScanStep::Continue
        }
    }

    /// The solver's output, from what has been read.
    pub fn into_output(self, cnf: Arc<Cnf>) -> (r: SolverOutput)
        ensures
            r.solver@ == "kissat"@,
            r.cnf == cnf,
            r.is_satisfiable == self.is_satisfiable,
            r.process_time == self.process_time,
            r.errors@ == self.errors@,
    {
        SolverOutput {
            solver: "kissat",
            cnf,
            process_time: self.process_time,
            is_satisfiable: self.is_satisfiable,
            errors: self.errors,
        }
    }
}

} // verus!
