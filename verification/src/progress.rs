//! Parsing ffmpeg's `-progress` output: blocks of `key=value` lines ending
//! with `progress=continue` or `progress=end`.

use vstd::prelude::*;

use crate::strs::chars_of;
use crate::words::{
    lemma_skip_space, lemma_trim_end, skip_space, skip_space_exec, slice_chars, string_of, trim,
    trim_end, trim_end_exec,
};

verus! {

/// One complete progress block.
#[derive(Debug, PartialEq, Eq)]
pub struct ProgressLine {
    pub frame: Option<u64>,
    pub out_time_us: Option<i64>,
    pub total_size: Option<u64>,
    pub speed: Option<String>,
    pub ended: bool,
}

/// A progress block as values.
pub struct ProgressModel {
    pub frame: Option<u64>,
    pub out_time_us: Option<i64>,
    pub total_size: Option<u64>,
    pub speed: Option<Seq<char>>,
    pub ended: bool,
}

impl View for ProgressLine {
    type V = ProgressModel;

    open spec fn view(&self) -> ProgressModel {
        ProgressModel {
            frame: self.frame,
            out_time_us: self.out_time_us,
            total_size: self.total_size,
            speed: match self.speed {
                Some(s) => Some(s@),
                None => None,
            },
            ended: self.ended,
        }
    }
}

pub open spec fn empty_progress() -> ProgressModel {
    ProgressModel { frame: None, out_time_us: None, total_size: None, speed: None, ended: false }
}

impl Default for ProgressLine {
    fn default() -> (p: ProgressLine)
        ensures
            p@ == empty_progress(),
    {
        ProgressLine { frame: None, out_time_us: None, total_size: None, speed: None, ended: false }
    }
}

impl Clone for ProgressLine {
    fn clone(&self) -> (p: ProgressLine)
        ensures
            p@ == self@,
    {
        ProgressLine {
            frame: self.frame,
            out_time_us: self.out_time_us,
            total_size: self.total_size,
            speed: match &self.speed {
                Some(s) => Some(s.clone()),
                None => None,
            },
            ended: self.ended,
        }
    }
}

pub open spec fn is_digit(c: char) -> bool {
    '0' <= c <= '9'
}

pub open spec fn all_digits(s: Seq<char>) -> bool {
    forall|i: int| 0 <= i < s.len() ==> is_digit(#[trigger] s[i])
}

/// The number the decimal digits `s` write.
pub open spec fn digits_value(s: Seq<char>) -> nat
    decreases s.len(),
{
    if s.len() == 0 {
        0
    } else {
        digits_value(s.drop_last()) * 10 + (s.last() as nat - '0' as nat) as nat
    }
}

/// The digits after an optional sign.
pub open spec fn unsigned_part(s: Seq<char>, allow_minus: bool) -> Seq<char> {
    if s.len() > 0 && (s[0] == '+' || (allow_minus && s[0] == '-')) {
        s.drop_first()
    } else {
        s
    }
}

/// `u64::from_str`: an optional `+`, then one or more ASCII digits, with
/// a value that fits.
pub open spec fn parse_u64(s: Seq<char>) -> Option<u64> {
    let d = unsigned_part(s, false);
    if d.len() == 0 || !all_digits(d) || digits_value(d) > u64::MAX {
        None
    } else {
        Some(digits_value(d) as u64)
    }
}

/// `i64::from_str`: an optional sign, then one or more ASCII digits, with
/// a value that fits.
pub open spec fn parse_i64(s: Seq<char>) -> Option<i64> {
    let d = unsigned_part(s, true);
    let v: int = if s.len() > 0 && s[0] == '-' { -digits_value(d) } else { digits_value(d) as int };
    if d.len() == 0 || !all_digits(d) || v < i64::MIN || v > i64::MAX {
        None
    } else {
        Some(v as i64)
    }
}

proof fn lemma_digits_mono(s: Seq<char>, k: int)
    requires
        0 <= k <= s.len(),
    ensures
        digits_value(s.take(k)) <= digits_value(s),
    decreases s.len() - k,
{
    if k < s.len() {
        lemma_digits_mono(s.drop_last(), k);
        assert(s.drop_last().take(k) =~= s.take(k));
    } else {
        assert(s.take(k) =~= s);
    }
}

/// The value of the digits `s[a..]`, if they are all digits and the value
/// is at most `limit`; `None` otherwise.
fn digits_upto(s: &Vec<char>, a: usize, limit: u128) -> (r: Option<u128>)
    requires
        a <= s@.len(),
        limit <= u64::MAX as u128 + 1,
    ensures
        match r {
            Some(v) => all_digits(s@.subrange(a as int, s@.len() as int))
                && v == digits_value(s@.subrange(a as int, s@.len() as int)) && v <= limit,
            None => !all_digits(s@.subrange(a as int, s@.len() as int))
                || digits_value(s@.subrange(a as int, s@.len() as int)) > limit,
        },
{
    let ghost d = s@.subrange(a as int, s@.len() as int);
    let mut acc: u128 = 0;
    let mut over = false;
    let mut k: usize = a;
    while k < s.len()
        invariant
            a <= k <= s@.len(),
            d == s@.subrange(a as int, s@.len() as int),
            limit <= u64::MAX as u128 + 1,
            all_digits(d.take(k - a)),
            !over ==> acc == digits_value(d.take(k - a)) && acc <= limit,
            over ==> digits_value(d.take(k - a)) > limit,
        decreases s@.len() - k,
    {
        let c = s[k];
        if c < '0' || c > '9' {
            proof {
                assert(d[k - a] == c);
            }
            return None;
        }
        proof {
            assert(d.take(k - a + 1).drop_last() =~= d.take(k - a));
            assert(d.take(k - a + 1).last() == c);
        }
        if !over {
            let digit = (c as u32 - '0' as u32) as u128;
            acc = acc * 10 + digit;
            if acc > limit {
                over = true;
            }
        } else {
            proof {
                assert(digits_value(d.take(k - a + 1)) >= digits_value(d.take(k - a)) * 10);
            }
        }
        k = k + 1;
    }
    proof {
        assert(d.take(k - a) =~= d);
    }
    if over {
        None
    } else {
        Some(acc)
    }
}

fn parse_u64_exec(s: &Vec<char>) -> (r: Option<u64>)
    ensures
        r == parse_u64(s@),
{
    let a: usize = if s.len() > 0 && s[0] == '+' { 1 } else { 0 };
    proof {
        assert(unsigned_part(s@, false) =~= s@.subrange(a as int, s@.len() as int));
    }
    if a >= s.len() {
        return None;
    }
    match digits_upto(s, a, u64::MAX as u128) {
        Some(v) => Some(v as u64),
        None => None,
    }
}

fn parse_i64_exec(s: &Vec<char>) -> (r: Option<i64>)
    ensures
        r == parse_i64(s@),
{
    let neg = s.len() > 0 && s[0] == '-';
    let a: usize = if s.len() > 0 && (s[0] == '+' || s[0] == '-') { 1 } else { 0 };
    proof {
        assert(unsigned_part(s@, true) =~= s@.subrange(a as int, s@.len() as int));
    }
    if a >= s.len() {
        return None;
    }
    let limit: u128 = if neg { 0x8000_0000_0000_0000 } else { 0x7fff_ffff_ffff_ffff };
    match digits_upto(s, a, limit) {
        Some(v) => if neg {
            if v == 0x8000_0000_0000_0000 {
                Some(i64::MIN)
            } else {
                Some(-(v as i64))
            }
        } else {
            Some(v as i64)
        },
        None => None,
    }
}

/// The position of the first `=` in `s`, if any.
pub open spec fn first_equals(s: Seq<char>) -> Option<int> {
    if exists|i: int| 0 <= i < s.len() && s[i] == '=' {
        Some(choose|i: int| 0 <= i < s.len() && s[i] == '=' && forall|j: int| 0 <= j < i ==> s[j] != '=')
    } else {
        None
    }
}

/// The parser's state and the finished block after feeding `line`.
pub open spec fn feed_spec(cur: ProgressModel, line: Seq<char>) -> (ProgressModel, Option<ProgressModel>) {
    let l = trim(line);
    match first_equals(l) {
        None => (cur, None),
        Some(p) => {
            let key = trim(l.subrange(0, p));
            let value = trim(l.subrange(p + 1, l.len() as int));
            if key == "frame"@ {
                (ProgressModel { frame: parse_u64(value), ..cur }, None)
            } else if key == "out_time_us"@ || key == "out_time_ms"@ {
                (ProgressModel { out_time_us: parse_i64(value), ..cur }, None)
            } else if key == "total_size"@ {
                (ProgressModel { total_size: parse_u64(value), ..cur }, None)
            } else if key == "speed"@ {
                (ProgressModel { speed: Some(value), ..cur }, None)
            } else if key == "progress"@ {
                (empty_progress(), Some(ProgressModel { ended: value == "end"@, ..cur }))
            } else {
                (cur, None)
            }
        },
    }
}

/// Accumulates lines and emits a [`ProgressLine`] per block.
#[derive(Debug)]
pub struct ProgressParser {
    current: ProgressLine,
}

impl View for ProgressParser {
    type V = ProgressModel;

    closed spec fn view(&self) -> ProgressModel {
        self.current@
    }
}

/// The trimmed characters `s[a..b]`.
fn trimmed(s: &Vec<char>, a: usize, b: usize) -> (r: Vec<char>)
    requires
        a <= b <= s@.len(),
    ensures
        r@ == trim(s@.subrange(a as int, b as int)),
{
    let part = slice_chars(s, a, b);
    proof {
        lemma_skip_space(part@, 0);
        lemma_trim_end(part@, part@.len() as int);
    }
    let x = skip_space_exec(&part, 0);
    let y = trim_end_exec(&part, part.len());
    if x >= y {
        Vec::new()
    } else {
        slice_chars(&part, x, y)
    }
}

fn same(a: &Vec<char>, b: &str) -> (r: bool)
    ensures
        r == (a@ == b@),
{
    let t = chars_of(b);
    if a.len() != t.len() {
        return false;
    }
    let mut i: usize = 0;
    while i < a.len()
        invariant
            i <= a@.len(),
            a@.len() == t@.len(),
            t@ == b@,
            forall|j: int| 0 <= j < i ==> a@[j] == t@[j],
        decreases a@.len() - i,
    {
        if a[i] != t[i] {
            return false;
        }
        i = i + 1;
    }
    proof {
        assert(a@ =~= t@);
    }
    true
}

impl ProgressParser {
    pub fn new() -> (p: ProgressParser)
        ensures
            p@ == empty_progress(),
    {
        ProgressParser { current: ProgressLine::default() }
    }

    /// Feeds one line. Returns the finished block when a `progress=` line
    /// closes it.
    pub fn feed(&mut self, line: &str) -> (r: Option<ProgressLine>)
        ensures
            final(self)@ == feed_spec(old(self)@, line@).0,
            match feed_spec(old(self)@, line@).1 {
                None => r is None,
                Some(b) => r matches Some(x) && x@ == b,
            },
    {
        let all = chars_of(line);
        let l = trimmed(&all, 0, all.len());
        proof {
            assert(all@.subrange(0, all@.len() as int) =~= all@);
        }
        let mut p: usize = 0;
        while p < l.len() && l[p] != '='
            invariant
                p <= l@.len(),
                forall|j: int| 0 <= j < p ==> l@[j] != '=',
            decreases l@.len() - p,
        {
            p = p + 1;
        }
        if p >= l.len() {
            proof {
                assert(!exists|i: int| 0 <= i < l@.len() && l@[i] == '=');
            }
            return None;
        }
        proof {
            assert(exists|i: int| 0 <= i < l@.len() && l@[i] == '=');
            let q = first_equals(l@)->0;
            assert(q == p) by {
                if q < p {
                    assert(l@[q] != '=');
                }
                if q > p {
                    assert(l@[p as int] == '=');
                }
            }
        }
        let key = trimmed(&l, 0, p);
        let value = trimmed(&l, p + 1, l.len());
        proof {
            reveal_strlit("frame");
            reveal_strlit("out_time_us");
            reveal_strlit("out_time_ms");
            reveal_strlit("total_size");
            reveal_strlit("speed");
            reveal_strlit("progress");
            reveal_strlit("end");
        }
        if same(&key, "frame") {
            self.current.frame = parse_u64_exec(&value);
        } else if same(&key, "out_time_us") || same(&key, "out_time_ms") {
            // ffmpeg < 7 wrote microseconds under out_time_ms.
            self.current.out_time_us = parse_i64_exec(&value);
        } else if same(&key, "total_size") {
            self.current.total_size = parse_u64_exec(&value);
        } else if same(&key, "speed") {
            self.current.speed = Some(string_of(&value, 0, value.len()));
            proof {
                assert(value@.subrange(0, value@.len() as int) =~= value@);
            }
        } else if same(&key, "progress") {
            let mut done = ProgressLine::default();
            core::mem::swap(&mut self.current, &mut done);
            done.ended = same(&value, "end");
            return Some(done);
        }
        None
    }
}

/// The key of a `key=value` line, trimmed; `None` without `=`.
pub open spec fn line_key(line: Seq<char>) -> Option<Seq<char>> {
    let l = trim(line);
    match first_equals(l) {
        None => None,
        Some(p) => Some(trim(l.subrange(0, p))),
    }
}

/// The value of a `key=value` line, trimmed.
pub open spec fn line_value(line: Seq<char>) -> Seq<char> {
    let l = trim(line);
    match first_equals(l) {
        None => Seq::empty(),
        Some(p) => trim(l.subrange(p + 1, l.len() as int)),
    }
}

/// The value of the last line whose key is `a` or `b`.
pub open spec fn last_value(lines: Seq<Seq<char>>, a: Seq<char>, b: Seq<char>) -> Option<Seq<char>>
    decreases lines.len(),
{
    if lines.len() == 0 {
        None
    } else if line_key(lines.last()) == Some(a) || line_key(lines.last()) == Some(b) {
        Some(line_value(lines.last()))
    } else {
        last_value(lines.drop_last(), a, b)
    }
}

/// The parser's state after feeding `lines` in order.
pub open spec fn fed(cur: ProgressModel, lines: Seq<Seq<char>>) -> ProgressModel
    decreases lines.len(),
{
    if lines.len() == 0 {
        cur
    } else {
        feed_spec(fed(cur, lines.drop_last()), lines.last()).0
    }
}

/// A block reports the last values fed since the previous block: after
/// lines that hold no `progress` line, the frame count, output time (from
/// `out_time_us` or `out_time_ms`), size and speed are those of the last
/// line with that key (`None` when the number does not parse or no such
/// line came), and the `progress` line that follows hands them over,
/// marked ended for `progress=end`, and starts the next block empty.
pub proof fn law_block_reports_last_values(lines: Seq<Seq<char>>, closing: Seq<char>)
    requires
        forall|i: int| 0 <= i < lines.len() ==> line_key(#[trigger] lines[i]) != Some("progress"@),
        line_key(closing) == Some("progress"@),
    ensures
        ({
            let s = fed(empty_progress(), lines);
            &&& s.frame == match last_value(lines, "frame"@, "frame"@) {
                Some(v) => parse_u64(v),
                None => None,
            }
            &&& s.out_time_us == match last_value(lines, "out_time_us"@, "out_time_ms"@) {
                Some(v) => parse_i64(v),
                None => None,
            }
            &&& s.total_size == match last_value(lines, "total_size"@, "total_size"@) {
                Some(v) => parse_u64(v),
                None => None,
            }
            &&& s.speed == last_value(lines, "speed"@, "speed"@)
            &&& !s.ended
            &&& feed_spec(s, closing) == (
                empty_progress(),
                Some(ProgressModel { ended: line_value(closing) == "end"@, ..s }),
            )
        }),
    decreases lines.len(),
{
    reveal_strlit("frame");
    reveal_strlit("out_time_us");
    reveal_strlit("out_time_ms");
    reveal_strlit("total_size");
    reveal_strlit("speed");
    reveal_strlit("progress");
    reveal_strlit("end");
    assert("frame"@ != "speed"@) by {
        assert("frame"@[0] != "speed"@[0]);
    }
    assert("out_time_us"@ != "out_time_ms"@) by {
        assert("out_time_us"@[9] != "out_time_ms"@[9]);
    }
    assert("frame"@.len() != "progress"@.len() && "speed"@.len() != "progress"@.len());
    assert("total_size"@.len() != "progress"@.len() && "out_time_us"@.len() != "progress"@.len());
    assert("total_size"@.len() != "frame"@.len() && "total_size"@.len() != "out_time_us"@.len());
    assert("frame"@.len() != "out_time_us"@.len() && "speed"@.len() != "out_time_us"@.len());
    assert("total_size"@.len() != "speed"@.len());
    if lines.len() > 0 {
        let d = lines.drop_last();
        assert forall|i: int| 0 <= i < d.len() implies line_key(#[trigger] d[i]) != Some("progress"@) by {
            assert(d[i] == lines[i]);
        }
        law_block_reports_last_values(d, closing);
        assert(line_key(lines.last()) != Some("progress"@)) by {
            assert(lines.last() == lines[lines.len() - 1]);
        }
    }
}

} // verus!
