//! Lines, words and trimming over characters, with Unicode white space as
//! Rust's `char::is_whitespace` defines it.

use vstd::prelude::*;

use crate::strs::chars_of;

verus! {

/// Unicode white space (the `White_Space` property).
pub open spec fn is_space(c: char) -> bool {
    let u = c as u32;
    ||| 9 <= u <= 13
    ||| u == 32
    ||| u == 0x85
    ||| u == 0xA0
    ||| u == 0x1680
    ||| 0x2000 <= u <= 0x200A
    ||| u == 0x2028
    ||| u == 0x2029
    ||| u == 0x202F
    ||| u == 0x205F
    ||| u == 0x3000
}

pub fn space(c: char) -> (b: bool)
    ensures
        b == is_space(c),
{
    let u = c as u32;
    (9 <= u && u <= 13) || u == 32 || u == 0x85 || u == 0xA0 || u == 0x1680 || (0x2000 <= u && u <= 0x200A)
        || u == 0x2028 || u == 0x2029 || u == 0x202F || u == 0x205F || u == 0x3000
}

/// The first position at or after `i` that holds no white space (the end
/// if there is none).
pub open spec fn skip_space(s: Seq<char>, i: int) -> int
    decreases s.len() - i,
{
    if i >= s.len() {
        s.len() as int
    } else if is_space(s[i]) {
        skip_space(s, i + 1)
    } else {
        i
    }
}

/// The first position at or after `i` that holds white space (the end if
/// there is none).
pub open spec fn word_end(s: Seq<char>, i: int) -> int
    decreases s.len() - i,
{
    if i >= s.len() {
        s.len() as int
    } else if is_space(s[i]) {
        i
    } else {
        word_end(s, i + 1)
    }
}

pub proof fn lemma_skip_space(s: Seq<char>, i: int)
    requires
        0 <= i <= s.len(),
    ensures
        i <= skip_space(s, i) <= s.len(),
        i <= word_end(s, i) <= s.len(),
        forall|k: int| i <= k < skip_space(s, i) ==> is_space(#[trigger] s[k]),
        skip_space(s, i) < s.len() ==> !is_space(s[skip_space(s, i)]),
        forall|k: int| i <= k < word_end(s, i) ==> !is_space(#[trigger] s[k]),
        word_end(s, i) < s.len() ==> is_space(s[word_end(s, i)]),
    decreases s.len() - i,
{
    if i < s.len() {
        lemma_skip_space(s, i + 1);
    }
}

/// The first word of `s`, if it has one.
pub open spec fn first_word(s: Seq<char>) -> Option<Seq<char>> {
    let a = skip_space(s, 0);
    if a >= s.len() {
        None
    } else {
        Some(s.subrange(a, word_end(s, a)))
    }
}

/// The word after the first, if there is one.
pub open spec fn second_word(s: Seq<char>) -> Option<Seq<char>> {
    let b = word_end(s, skip_space(s, 0));
    let c = skip_space(s, b);
    if c >= s.len() {
        None
    } else {
        Some(s.subrange(c, word_end(s, c)))
    }
}

/// How many bytes a character takes in UTF-8.
pub open spec fn char_utf8_len(c: char) -> nat {
    let u = c as u32;
    if u < 0x80 {
        1
    } else if u < 0x800 {
        2
    } else if u < 0x10000 {
        3
    } else {
        4
    }
}

/// How many bytes a text takes in UTF-8.
pub open spec fn utf8_len(s: Seq<char>) -> nat
    decreases s.len(),
{
    if s.len() == 0 {
        0
    } else {
        utf8_len(s.drop_last()) + char_utf8_len(s.last())
    }
}

/// The first line break at or after `i` (the end if there is none).
pub open spec fn next_newline(s: Seq<char>, i: int) -> int
    decreases s.len() - i,
{
    if i >= s.len() {
        s.len() as int
    } else if s[i] == '\n' {
        i
    } else {
        next_newline(s, i + 1)
    }
}

pub proof fn lemma_next_newline(s: Seq<char>, i: int)
    requires
        0 <= i <= s.len(),
    ensures
        i <= next_newline(s, i) <= s.len(),
        forall|k: int| i <= k < next_newline(s, i) ==> #[trigger] s[k] != '\n',
        next_newline(s, i) < s.len() ==> s[next_newline(s, i)] == '\n',
    decreases s.len() - i,
{
    if i < s.len() {
        lemma_next_newline(s, i + 1);
    }
}

/// The lines of `s` from position `i` on, as `str::lines` gives them: split
/// at `\n`, a `\r` right before a `\n` dropped, and no empty line after a
/// final `\n`.
pub open spec fn lines_from(s: Seq<char>, i: int) -> Seq<Seq<char>>
    decreases s.len() + 1 - i,
{
    if i < 0 || i >= s.len() {
        Seq::empty()
    } else {
        proof {
            lemma_next_newline(s, i);
        }
        let j = next_newline(s, i);
        let raw = s.subrange(i, j);
        let line = if j < s.len() && raw.len() > 0 && raw.last() == '\r' {
            raw.drop_last()
        } else {
            raw
        };
        seq![line] + lines_from(s, j + 1)
    }
}

pub open spec fn lines(s: Seq<char>) -> Seq<Seq<char>> {
    lines_from(s, 0)
}

/// The text with white space removed at both ends.
pub open spec fn trim(s: Seq<char>) -> Seq<char> {
    let a = skip_space(s, 0);
    let b = trim_end(s, s.len() as int);
    if a >= b {
        Seq::empty()
    } else {
        s.subrange(a, b)
    }
}

/// One past the last position before `j` that holds no white space.
pub open spec fn trim_end(s: Seq<char>, j: int) -> int
    decreases j,
{
    if j <= 0 {
        0
    } else if is_space(s[j - 1]) {
        trim_end(s, j - 1)
    } else {
        j
    }
}

pub proof fn lemma_trim_end(s: Seq<char>, j: int)
    requires
        0 <= j <= s.len(),
    ensures
        0 <= trim_end(s, j) <= j,
        forall|k: int| trim_end(s, j) <= k < j ==> is_space(#[trigger] s[k]),
        trim_end(s, j) > 0 ==> !is_space(s[trim_end(s, j) - 1]),
    decreases j,
{
    if j > 0 {
        lemma_trim_end(s, j - 1);
    }
}

/// `skip_space` on a vector.
pub fn skip_space_exec(s: &Vec<char>, i: usize) -> (r: usize)
    requires
        i <= s@.len(),
    ensures
        r == skip_space(s@, i as int),
    decreases s@.len() - i,
{
    if i >= s.len() {
        s.len()
    } else if space(s[i]) {
        skip_space_exec(s, i + 1)
    } else {
        i
    }
}

/// `word_end` on a vector.
pub fn word_end_exec(s: &Vec<char>, i: usize) -> (r: usize)
    requires
        i <= s@.len(),
    ensures
        r == word_end(s@, i as int),
    decreases s@.len() - i,
{
    if i >= s.len() {
        s.len()
    } else if space(s[i]) {
        i
    } else {
        word_end_exec(s, i + 1)
    }
}

/// `trim_end` on a vector.
pub fn trim_end_exec(s: &Vec<char>, j: usize) -> (r: usize)
    requires
        j <= s@.len(),
    ensures
        r == trim_end(s@, j as int),
    decreases j,
{
    if j == 0 {
        0
    } else if space(s[j - 1]) {
        trim_end_exec(s, j - 1)
    } else {
        j
    }
}

/// The characters `s[a..b]`.
pub fn slice_chars(s: &Vec<char>, a: usize, b: usize) -> (r: Vec<char>)
    requires
        a <= b <= s@.len(),
    ensures
        r@ == s@.subrange(a as int, b as int),
{
    let mut r: Vec<char> = Vec::new();
    let mut k: usize = a;
    while k < b
        invariant
            a <= k <= b,
            b <= s@.len(),
            r@ == s@.subrange(a as int, k as int),
        decreases b - k,
    {
        r.push(s[k]);
        proof {
            assert(r@ =~= s@.subrange(a as int, k + 1));
        }
        k = k + 1;
    }
    r
}

/// A string holding the characters `s[a..b]`.
pub fn string_of(s: &Vec<char>, a: usize, b: usize) -> (r: String)
    requires
        a <= b <= s@.len(),
    ensures
        r@ == s@.subrange(a as int, b as int),
{
    let mut r = String::new();
    let mut k: usize = a;
    while k < b
        invariant
            a <= k <= b,
            b <= s@.len(),
            r@ == s@.subrange(a as int, k as int),
        decreases b - k,
    {
        crate::digits::push_char(&mut r, s[k]);
        proof {
            assert(r@ =~= s@.subrange(a as int, k + 1));
        }
        k = k + 1;
    }
    r
}

proof fn lemma_utf8_mono(s: Seq<char>, a: int, k: int, b: int)
    requires
        0 <= a <= k <= b <= s.len(),
    ensures
        utf8_len(s.subrange(a, k)) <= utf8_len(s.subrange(a, b)),
    decreases b - k,
{
    if k < b {
        lemma_utf8_mono(s, a, k, b - 1);
        assert(s.subrange(a, b).drop_last() =~= s.subrange(a, b - 1));
    }
}

/// Whether `s[a..b]` takes at least `cap` bytes in UTF-8.
fn utf8_at_least(s: &Vec<char>, a: usize, b: usize, cap: u64) -> (r: bool)
    requires
        a <= b <= s@.len(),
        cap <= 1000,
    ensures
        r == (utf8_len(s@.subrange(a as int, b as int)) >= cap),
{
    let mut n: u64 = 0;
    let mut k: usize = a;
    while k < b && n < cap
        invariant
            a <= k <= b,
            b <= s@.len(),
            cap <= 1000,
            n == utf8_len(s@.subrange(a as int, k as int)),
            n < cap + 4,
        decreases b - k,
    {
        let u = s[k] as u32;
        let w: u64 = if u < 0x80 {
            1
        } else if u < 0x800 {
            2
        } else if u < 0x10000 {
            3
        } else {
            4
        };
        proof {
            assert(s@.subrange(a as int, k + 1).drop_last() =~= s@.subrange(a as int, k as int));
        }
        n = n + w;
        k = k + 1;
    }
    proof {
        lemma_utf8_mono(s@, a as int, k as int, b as int);
    }
    n >= cap
}

/// The encoder name a line of `ffmpeg -encoders` lists (see
/// `listed_name`).
pub fn listed_word(line: &Vec<char>) -> (r: Option<String>)
    ensures
        match crate::encoders::listed_name(line@) {
            None => r is None,
            Some(n) => r matches Some(x) && x@ == n,
        },
{
    proof {
        lemma_skip_space(line@, 0);
    }
    let a = skip_space_exec(line, 0);
    if a >= line.len() {
        return None;
    }
    proof {
        lemma_skip_space(line@, a as int);
    }
    let b = word_end_exec(line, a);
    if line[a] != 'V' || !utf8_at_least(line, a, b, 6) {
        proof {
            assert(line@.subrange(a as int, b as int)[0] == line@[a as int]);
        }
        return None;
    }
    proof {
        assert(line@.subrange(a as int, b as int)[0] == line@[a as int]);
        lemma_skip_space(line@, b as int);
    }
    let c = skip_space_exec(line, b);
    if c >= line.len() {
        return None;
    }
    proof {
        lemma_skip_space(line@, c as int);
    }
    let d = word_end_exec(line, c);
    Some(string_of(line, c, d))
}

/// The lines of `text` (see `lines`).
pub fn split_lines(text: &str) -> (v: Vec<Vec<char>>)
    ensures
        v@.map_values(|l: Vec<char>| l@) == lines(text@),
{
    let s = chars_of(text);
    let n = s.len();
    let mut out: Vec<Vec<char>> = Vec::new();
    let mut i: usize = 0;
    while i < n
        invariant
            i <= n,
            n == s@.len(),
            s@ == text@,
            lines(text@) == out@.map_values(|l: Vec<char>| l@) + lines_from(s@, i as int),
        decreases n - i,
    {
        proof {
            lemma_next_newline(s@, i as int);
        }
        let mut j: usize = i;
        while j < n && s[j] != '\n'
            invariant
                i <= j <= n,
                n == s@.len(),
                next_newline(s@, i as int) == next_newline(s@, j as int),
            decreases n - j,
        {
            j = j + 1;
        }
        let end = if j < n && j > i && s[j - 1] == '\r' { j - 1 } else { j };
        let line = slice_chars(&s, i, end);
        proof {
            let raw = s@.subrange(i as int, j as int);
            if j < n && j > i && s@[j - 1] == '\r' {
                assert(raw.last() == '\r');
                assert(line@ =~= raw.drop_last());
            } else {
                assert(line@ =~= raw);
            }
            assert(lines_from(s@, i as int) == seq![line@] + lines_from(s@, j + 1));
        }
        let ghost before = out@.map_values(|l: Vec<char>| l@);
        out.push(line);
        proof {
            assert(out@.map_values(|l: Vec<char>| l@) =~= before.push(line@));
            assert(before.push(line@) + lines_from(s@, j + 1) =~= before + (seq![line@] + lines_from(s@, j + 1)));
        }
        if j >= n {
            i = n;
        } else {
            i = j + 1;
        }
    }
    proof {
        assert(lines_from(s@, n as int) == Seq::<Seq<char>>::empty());
        assert(out@.map_values(|l: Vec<char>| l@) + Seq::<Seq<char>>::empty() =~= out@.map_values(|l: Vec<char>| l@));
    }
    out
}

} // verus!
