//! Character classes and low-level scanning routines shared by the tokenizer:
//! maximal runs of a character class, string-literal bodies, and decimal
//! digit runs.

use vstd::prelude::*;

verus! {

/// Whitespace skipped silently between lexemes: space, tab, newline, form feed.
pub open spec fn is_space(c: char) -> bool {
    c == ' ' || c == '\t' || c == '\n' || c == '\u{000C}'
}

/// A decimal digit.
pub open spec fn is_digit(c: char) -> bool {
    48 <= c as u32 && c as u32 <= 57
}

/// An ASCII letter.
pub open spec fn is_letter(c: char) -> bool {
    (97 <= c as u32 && c as u32 <= 122) || (65 <= c as u32 && c as u32 <= 90)
}

/// A character that may open an identifier: a letter or an underscore.
pub open spec fn is_ident_start(c: char) -> bool {
    is_letter(c) || c == '_'
}

/// A character that may continue an identifier: a letter, digit or underscore.
pub open spec fn is_ident_cont(c: char) -> bool {
    is_letter(c) || is_digit(c) || c == '_'
}

/// The numeric value of a decimal digit character.
pub open spec fn digit_val(c: char) -> int {
    c as u32 - 48
}

/// The predicate for whitespace runs, as a first-class function.
pub open spec fn space_pred() -> spec_fn(char) -> bool {
    |c: char| is_space(c)
}

/// The predicate for digit runs, as a first-class function.
pub open spec fn digit_pred() -> spec_fn(char) -> bool {
    |c: char| is_digit(c)
}

/// The predicate for identifier-continuation runs, as a first-class function.
pub open spec fn ident_cont_pred() -> spec_fn(char) -> bool {
    |c: char| is_ident_cont(c)
}

/// The predicate for line-comment bodies (anything up to a newline), as a
/// first-class function.
pub open spec fn not_newline_pred() -> spec_fn(char) -> bool {
    |c: char| c != '\n'
}

/// The first position at or after `i` whose character fails `p`; `s.len()`
/// when every character from `i` on satisfies `p`.
pub open spec fn run_end(s: Seq<char>, i: int, p: spec_fn(char) -> bool) -> int
    decreases s.len() - i,
{
    if 0 <= i && i < s.len() && p(s[i]) {
        run_end(s, i + 1, p)
    } else {
        i
    }
}

/// `run_end` names the maximal run: every character before it satisfies the
/// predicate, and the character at it (if any) does not.
pub proof fn lemma_run_end(s: Seq<char>, i: int, p: spec_fn(char) -> bool)
    requires
        0 <= i <= s.len(),
    ensures
        i <= run_end(s, i, p) <= s.len(),
        forall|k: int| i <= k < run_end(s, i, p) ==> p(s[k]),
        run_end(s, i, p) < s.len() ==> !p(s[run_end(s, i, p)]),
    decreases s.len() - i,
{
    if i < s.len() && p(s[i]) {
        lemma_run_end(s, i + 1, p);
    }
}

/// A character allowed after a backslash in a string literal: the two-character
/// escapes are `\"`, `\\`, `\n` and `\t`.
pub open spec fn is_escape(c: char) -> bool {
    c == '"' || c == '\\' || c == 'n' || c == 't'
}

/// Scans a string-literal body from position `j`: returns the position of the
/// closing quote, or `None` when the body runs into an invalid escape or the
/// end of the text.  A body character is either any character other than a
/// bare quote or backslash, or a backslash followed by a recognized escape
/// character.
pub open spec fn string_end(s: Seq<char>, j: int) -> Option<int>
    decreases s.len() - j,
{
    if j < 0 || j >= s.len() {
        None
    } else if s[j] == '"' {
        Some(j)
    } else if s[j] == '\\' {
        if j + 1 < s.len() && is_escape(s[j + 1]) {
            string_end(s, j + 2)
        } else {
            None
        }
    } else {
        string_end(s, j + 1)
    }
}

/// When a string body scanned from `j` closes, the closing quote stands at or
/// after `j` and within the text.
pub proof fn lemma_string_end(s: Seq<char>, j: int)
    requires
        0 <= j <= s.len(),
    ensures
        string_end(s, j) is Some ==> {
            let e = string_end(s, j)->0;
            j <= e < s.len() && s[e] == '"'
        },
    decreases s.len() - j,
{
    if j < s.len() && s[j] != '"' {
        if s[j] == '\\' {
            if j + 1 < s.len() && is_escape(s[j + 1]) {
                lemma_string_end(s, j + 2);
            }
        } else {
            lemma_string_end(s, j + 1);
        }
    }
}

/// The value of a run of decimal digit characters, most significant first.
pub open spec fn dec_val(s: Seq<char>) -> int
    decreases s.len(),
{
    if s.len() == 0 {
        0
    } else {
        dec_val(s.drop_last()) * 10 + digit_val(s.last())
    }
}

/// A digit run has a non-negative value.
pub proof fn lemma_dec_val_nonneg(s: Seq<char>)
    requires
        forall|j: int| 0 <= j < s.len() ==> is_digit(s[j]),
    ensures
        dec_val(s) >= 0,
    decreases s.len(),
{
    if s.len() > 0 {
        lemma_dec_val_nonneg(s.drop_last());
    }
}

/// Dropping trailing digits can only shrink the value of a digit run.
pub proof fn lemma_dec_val_prefix_le(s: Seq<char>, k: int)
    requires
        0 <= k <= s.len(),
        forall|j: int| 0 <= j < s.len() ==> is_digit(s[j]),
    ensures
        dec_val(s.take(k)) <= dec_val(s),
    decreases s.len(),
{
    if k == s.len() {
        assert(s.take(k) =~= s);
    } else {
        let d = s.drop_last();
        assert(forall|j: int| 0 <= j < d.len() ==> is_digit(d[j]));
        assert(d.take(k) =~= s.take(k));
        lemma_dec_val_prefix_le(d, k);
        lemma_dec_val_nonneg(d);
    }
}

/// Builds a `String` from a vector of characters.
///
/// Relies on `String::from_iter` over `Vec<char>`: the string collects
/// exactly the given characters, in order.
#[verifier::external_body]
pub fn chars_to_string(v: Vec<char>) -> (r: String)
    ensures
        r@ == v@,
{
    String::from_iter(v)
}

/// The end of the maximal whitespace run beginning at `start`.
pub fn scan_space(src: &Vec<char>, start: usize) -> (r: usize)
    requires
        start <= src@.len(),
    ensures
        r == run_end(src@, start as int, space_pred()),
{
    let n: usize = src.len();
    let mut j: usize = start;
    while j < n && is_space_exec(src[j])
        invariant
            start <= j <= n,
            n == src@.len(),
            run_end(src@, start as int, space_pred()) == run_end(src@, j as int, space_pred()),
        decreases n - j,
    {
        j = j + 1;
    }
    j
}

/// The end of the maximal digit run beginning at `start`.
pub fn scan_digits(src: &Vec<char>, start: usize) -> (r: usize)
    requires
        start <= src@.len(),
    ensures
        r == run_end(src@, start as int, digit_pred()),
{
    let n: usize = src.len();
    let mut j: usize = start;
    while j < n && is_digit_exec(src[j])
        invariant
            start <= j <= n,
            n == src@.len(),
            run_end(src@, start as int, digit_pred()) == run_end(src@, j as int, digit_pred()),
        decreases n - j,
    {
        j = j + 1;
    }
    j
}

/// The end of the maximal identifier-continuation run beginning at `start`.
pub fn scan_ident_cont(src: &Vec<char>, start: usize) -> (r: usize)
    requires
        start <= src@.len(),
    ensures
        r == run_end(src@, start as int, ident_cont_pred()),
{
    let n: usize = src.len();
    let mut j: usize = start;
    while j < n && is_ident_cont_exec(src[j])
        invariant
            start <= j <= n,
            n == src@.len(),
            run_end(src@, start as int, ident_cont_pred()) == run_end(
                src@,
                j as int,
                ident_cont_pred(),
            ),
        decreases n - j,
    {
        j = j + 1;
    }
    j
}

/// The end of a line-comment body beginning at `start`: everything up to the
/// next newline, or the end of the text.
pub fn scan_to_newline(src: &Vec<char>, start: usize) -> (r: usize)
    requires
        start <= src@.len(),
    ensures
        r == run_end(src@, start as int, not_newline_pred()),
{
    let n: usize = src.len();
    let mut j: usize = start;
    while j < n && src[j] != '\n'
        invariant
            start <= j <= n,
            n == src@.len(),
            run_end(src@, start as int, not_newline_pred()) == run_end(
                src@,
                j as int,
                not_newline_pred(),
            ),
        decreases n - j,
    {
        j = j + 1;
    }
    j
}

/// Executable test for `is_space`.
pub fn is_space_exec(c: char) -> (r: bool)
    ensures
        r == is_space(c),
{
    c == ' ' || c == '\t' || c == '\n' || c == '\u{000C}'
}

/// Executable test for `is_digit`.
pub fn is_digit_exec(c: char) -> (r: bool)
    ensures
        r == is_digit(c),
{
    let u: u32 = c as u32;
    48 <= u && u <= 57
}

/// Executable test for `is_letter`.
pub fn is_letter_exec(c: char) -> (r: bool)
    ensures
        r == is_letter(c),
{
    let u: u32 = c as u32;
    (97 <= u && u <= 122) || (65 <= u && u <= 90)
}

/// Executable test for `is_ident_start`.
pub fn is_ident_start_exec(c: char) -> (r: bool)
    ensures
        r == is_ident_start(c),
{
    is_letter_exec(c) || c == '_'
}

/// Executable test for `is_ident_cont`.
pub fn is_ident_cont_exec(c: char) -> (r: bool)
    ensures
        r == is_ident_cont(c),
{
    is_letter_exec(c) || is_digit_exec(c) || c == '_'
}

/// Scans a string-literal body from `body` and reports the closing quote.
pub fn scan_string_end(src: &Vec<char>, body: usize) -> (r: Option<usize>)
    requires
        body <= src@.len(),
    ensures
        match r {
            Some(e) => string_end(src@, body as int) == Some(e as int),
            None => string_end(src@, body as int) is None,
        },
    decreases src@.len() - body,
{
    let n: usize = src.len();
    let mut j: usize = body;
    while j < n && src[j] != '"' && src[j] != '\\'
        invariant
            body <= j <= n,
            n == src@.len(),
            string_end(src@, body as int) == string_end(src@, j as int),
        decreases n - j,
    {
        j = j + 1;
    }
    if j >= n {
        return None;
    }
    if src[j] == '"' {
        return Some(j);
    }
    // src[j] == '\\': check the escape and continue past it.
    if j + 1 < n && (src[j + 1] == '"' || src[j + 1] == '\\' || src[j + 1] == 'n' || src[j + 1]
        == 't') {
        scan_string_end(src, j + 2)
    } else {
        None
    }
}

/// The characters of `src` from `start` (inclusive) to `end` (exclusive).
pub fn copy_range(src: &Vec<char>, start: usize, end: usize) -> (v: Vec<char>)
    requires
        start <= end <= src@.len(),
    ensures
        v@ == src@.subrange(start as int, end as int),
{
    let mut v: Vec<char> = Vec::new();
    let mut j: usize = start;
    while j < end
        invariant
            start <= j <= end <= src@.len(),
            v@ == src@.subrange(start as int, j as int),
        decreases end - j,
    {
        let ghost v0 = v@;
        v.push(src[j]);
        proof {
            assert(v@ =~= src@.subrange(start as int, j as int + 1));
        }
        j = j + 1;
    }
    v
}

/// The characters of `s`, as a vector.
pub fn str_to_chars(s: &str) -> (v: Vec<char>)
    ensures
        v@ == s@,
{
    let n: usize = s.unicode_len();
    let mut v: Vec<char> = Vec::new();
    let mut i: usize = 0;
    while i < n
        invariant
            i <= n,
            n == s@.len(),
            v@ == s@.take(i as int),
        decreases n - i,
    {
        v.push(s.get_char(i));
        proof {
            assert(v@ =~= s@.take(i as int + 1));
        }
        i = i + 1;
    }
    proof {
        assert(s@.take(n as int) =~= s@);
    }
    v
}

/// Parses the digit run `src[start .. end]` as a 64-bit signed integer.
/// Returns `None` exactly when the value does not fit.
pub fn parse_int(src: &Vec<char>, start: usize, end: usize) -> (r: Option<i64>)
    requires
        start <= end <= src@.len(),
        forall|j: int| start <= j < end ==> is_digit(src@[j]),
    ensures
        match r {
            Some(v) => v as int == dec_val(src@.subrange(start as int, end as int)),
            None => dec_val(src@.subrange(start as int, end as int)) > i64::MAX,
        },
{
    let ghost text = src@.subrange(start as int, end as int);
    proof {
        assert(forall|j: int| 0 <= j < text.len() ==> is_digit(text[j]));
    }
    let mut acc: i64 = 0;
    let mut j: usize = start;
    while j < end
        invariant
            start <= j <= end <= src@.len(),
            forall|k: int| start <= k < end ==> is_digit(src@[k]),
            text == src@.subrange(start as int, end as int),
            0 <= acc,
            acc as int == dec_val(src@.subrange(start as int, j as int)),
        decreases end - j,
    {
        proof {
            assert(is_digit(src@[j as int]));
        }
        let d: i64 = ((src[j] as u32) - 48) as i64;
        proof {
            assert(src@.subrange(start as int, j as int + 1).drop_last() =~= src@.subrange(
                start as int,
                j as int,
            ));
            assert(src@.subrange(start as int, j as int + 1).last() == src@[j as int]);
        }
        if acc > (i64::MAX - d) / 10 {
            proof {
                assert(acc * 10 + d > i64::MAX) by (nonlinear_arith)
                    requires
                        acc > (i64::MAX - d) / 10,
                        0 <= d <= 9,
                        0 <= acc,
                ;
                assert(dec_val(src@.subrange(start as int, j as int + 1)) > i64::MAX);
                assert(text.take(j as int + 1 - start) =~= src@.subrange(
                    start as int,
                    j as int + 1,
                ));
                lemma_dec_val_prefix_le(text, j as int + 1 - start);
            }
            return None;
        }
        proof {
            assert(acc * 10 + d <= i64::MAX) by (nonlinear_arith)
                requires
                    acc <= (i64::MAX - d) / 10,
                    0 <= d <= 9,
                    0 <= acc,
            ;
        }
        acc = acc * 10 + d;
        j = j + 1;
    }
    proof {
        assert(src@.subrange(start as int, end as int) =~= src@.subrange(
            start as int,
            j as int,
        ));
    }
    Some(acc)
}

} // verus!
