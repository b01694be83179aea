//! The tokenizer: classifies cleaned source text into a stream of tokens or
//! lexical errors, each tagged with its 1-based line and column.
//!
//! The rule set is applied longest-match-first in a single forward pass:
//! skip-patterns (whitespace, `--` line comments, `---` doc comments) are
//! consumed silently; keywords and operators are exact matches that take
//! priority over the generic identifier rule on ties; string, float and
//! integer literals and identifiers are pattern rules; a digit run that
//! continues as a name is an invalid identifier and always a lexical error.

use vstd::prelude::*;

use crate::scan::{
    is_space, is_digit, is_ident_start, space_pred, digit_pred, ident_cont_pred,
    not_newline_pred, run_end, lemma_run_end, string_end, lemma_string_end, dec_val,
    chars_to_string, scan_space, scan_digits, scan_ident_cont, scan_to_newline, is_space_exec,
    is_digit_exec, is_ident_start_exec, scan_string_end, copy_range, str_to_chars, parse_int,
};

verus! {

/// One lexical token of the Eris language.
///
/// Keywords, operators and delimiters carry no payload; literal tokens carry
/// their decoded value.  A string literal carries its content with the
/// surrounding quotes stripped (escape sequences are kept as written).  A
/// float literal carries the matched text (digits, a dot, digits), which
/// determines the numeric value; parsing it into a machine float is left to
/// the caller.  An invalid identifier is a digit run that continues as a
/// name: it is always a lexical error, never a token of the output stream.
#[derive(Debug, PartialEq, Clone)]
pub enum Token {
    Mut,
    Int,
    Str,
    Arr,
    If,
    Else,
    Return,
    DeclareAssign,
    Assign,
    Plus,
    Minus,
    Multiply,
    Divide,
    Modulo,
    Equal,
    NotEqual,
    LessThan,
    LessEqual,
    GreaterThan,
    GreaterEqual,
    And,
    Or,
    Not,
    LParen,
    RParen,
    LBrace,
    RBrace,
    LBracket,
    RBracket,
    Semicolon,
    Comma,
    StringLit(String),
    FloatLit(String),
    IntLit(i64),
    Ident(String),
    InvalidIdent(String),
}

/// The 1-based line and column of a position in the cleaned text.
#[derive(Debug, PartialEq, Clone, Copy)]
pub struct SourceLocation {
    pub line: usize,
    pub column: usize,
}

/// A lexical error: the offending lexeme and where it starts.
#[derive(Debug, PartialEq, Clone)]
pub struct LexerError {
    pub token: String,
    pub line: usize,
    pub column: usize,
}

/// The mathematical value of a `Token`: strings become character sequences,
/// machine integers become unbounded integers.
#[verifier::ext_equal]
pub enum TokenModel {
    Mut,
    Int,
    Str,
    Arr,
    If,
    Else,
    Return,
    DeclareAssign,
    Assign,
    Plus,
    Minus,
    Multiply,
    Divide,
    Modulo,
    Equal,
    NotEqual,
    LessThan,
    LessEqual,
    GreaterThan,
    GreaterEqual,
    And,
    Or,
    Not,
    LParen,
    RParen,
    LBrace,
    RBrace,
    LBracket,
    RBracket,
    Semicolon,
    Comma,
    StringLit(Seq<char>),
    FloatLit(Seq<char>),
    IntLit(int),
    Ident(Seq<char>),
    InvalidIdent(Seq<char>),
}

/// The mathematical value of a `SourceLocation`.
#[verifier::ext_equal]
pub struct LocModel {
    pub line: int,
    pub column: int,
}

/// The mathematical value of a `LexerError`.
#[verifier::ext_equal]
pub struct ErrModel {
    pub token: Seq<char>,
    pub line: int,
    pub column: int,
}

/// One entry of the token stream: a located token, or a lexical error.
pub type EntryModel = Result<(TokenModel, LocModel), ErrModel>;

/// One rule match: the span of text it consumed and the stream entry it
/// emitted, if any (skip-patterns emit nothing).
#[verifier::ext_equal]
pub struct SpanModel {
    pub start: int,
    pub end: int,
    pub entry: Option<EntryModel>,
}

/// One entry of the executable token stream.
pub type LexResult = Result<(Token, SourceLocation), LexerError>;

/// The model of a `Token`.
pub open spec fn abs_token(t: Token) -> TokenModel {
    match t {
        Token::Mut => TokenModel::Mut,
        Token::Int => TokenModel::Int,
        Token::Str => TokenModel::Str,
        Token::Arr => TokenModel::Arr,
        Token::If => TokenModel::If,
        Token::Else => TokenModel::Else,
        Token::Return => TokenModel::Return,
        Token::DeclareAssign => TokenModel::DeclareAssign,
        Token::Assign => TokenModel::Assign,
        Token::Plus => TokenModel::Plus,
        Token::Minus => TokenModel::Minus,
        Token::Multiply => TokenModel::Multiply,
        Token::Divide => TokenModel::Divide,
        Token::Modulo => TokenModel::Modulo,
        Token::Equal => TokenModel::Equal,
        Token::NotEqual => TokenModel::NotEqual,
        Token::LessThan => TokenModel::LessThan,
        Token::LessEqual => TokenModel::LessEqual,
        Token::GreaterThan => TokenModel::GreaterThan,
        Token::GreaterEqual => TokenModel::GreaterEqual,
        Token::And => TokenModel::And,
        Token::Or => TokenModel::Or,
        Token::Not => TokenModel::Not,
        Token::LParen => TokenModel::LParen,
        Token::RParen => TokenModel::RParen,
        Token::LBrace => TokenModel::LBrace,
        Token::RBrace => TokenModel::RBrace,
        Token::LBracket => TokenModel::LBracket,
        Token::RBracket => TokenModel::RBracket,
        Token::Semicolon => TokenModel::Semicolon,
        Token::Comma => TokenModel::Comma,
        Token::StringLit(s) => TokenModel::StringLit(s@),
        Token::FloatLit(s) => TokenModel::FloatLit(s@),
        Token::IntLit(i) => TokenModel::IntLit(i as int),
        Token::Ident(s) => TokenModel::Ident(s@),
        Token::InvalidIdent(s) => TokenModel::InvalidIdent(s@),
    }
}

/// The model of a `SourceLocation`.
pub open spec fn abs_loc(l: SourceLocation) -> LocModel {
    LocModel { line: l.line as int, column: l.column as int }
}

/// The model of a `LexerError`.
pub open spec fn abs_err(e: LexerError) -> ErrModel {
    ErrModel { token: e.token@, line: e.line as int, column: e.column as int }
}

/// The model of one stream entry.
pub open spec fn abs_entry(e: LexResult) -> EntryModel {
    match e {
        Ok((t, l)) => Ok((abs_token(t), abs_loc(l))),
        Err(er) => Err(abs_err(er)),
    }
}

/// The model of an optional stream entry.
pub open spec fn opt_entry_abs(e: Option<LexResult>) -> Option<EntryModel> {
    match e {
        Some(x) => Some(abs_entry(x)),
        None => None,
    }
}

/// The model of a whole token stream.
pub open spec fn abs_entries(es: Seq<LexResult>) -> Seq<EntryModel> {
    es.map_values(|e: LexResult| abs_entry(e))
}

/// The number of newline characters strictly before position `i`.
pub open spec fn newline_count(s: Seq<char>, i: int) -> int
    decreases i,
{
    if i <= 0 {
        0
    } else {
        newline_count(s, i - 1) + if i - 1 < s.len() && s[i - 1] == '\n' {
            1int
        } else {
            0int
        }
    }
}

/// The position just after the last newline strictly before `i`; the start of
/// the line that position `i` lies on.
pub open spec fn line_start(s: Seq<char>, i: int) -> int
    decreases i,
{
    if i <= 0 {
        0
    } else if i - 1 < s.len() && s[i - 1] == '\n' {
        i
    } else {
        line_start(s, i - 1)
    }
}

/// The 1-based line of position `i`.
pub open spec fn line_of(s: Seq<char>, i: int) -> int {
    1 + newline_count(s, i)
}

/// The 1-based column of position `i`: its distance past the start of its
/// line.
pub open spec fn col_of(s: Seq<char>, i: int) -> int {
    i - line_start(s, i) + 1
}

/// The line and column of position `i`.
pub open spec fn loc_at(s: Seq<char>, i: int) -> LocModel {
    LocModel { line: line_of(s, i), column: col_of(s, i) }
}

/// A single-character match at `i` that emits the token `t`.
pub open spec fn op1(s: Seq<char>, i: int, t: TokenModel) -> SpanModel {
    SpanModel { start: i, end: i + 1, entry: Some(Ok((t, loc_at(s, i)))) }
}

/// A two-character match at `i` that emits the token `t`.
pub open spec fn op2(s: Seq<char>, i: int, t: TokenModel) -> SpanModel {
    SpanModel { start: i, end: i + 2, entry: Some(Ok((t, loc_at(s, i)))) }
}

/// An unrecognized-lexeme error: the single character at `i` matches no rule.
pub open spec fn err_span(s: Seq<char>, i: int) -> SpanModel {
    SpanModel {
        start: i,
        end: i + 1,
        entry: Some(
            Err(ErrModel { token: s.subrange(i, i + 1), line: line_of(s, i), column: col_of(s, i) }),
        ),
    }
}

/// The exact keyword spellings, tried before the generic identifier rule: an
/// identifier-shaped lexeme that spells a keyword is that keyword.
pub open spec fn keyword_or_ident(text: Seq<char>) -> TokenModel {
    if text == seq!['m', 'u', 't'] {
        TokenModel::Mut
    } else if text == seq!['i', 'n', 't'] {
        TokenModel::Int
    } else if text == seq!['s', 't', 'r'] {
        TokenModel::Str
    } else if text == seq!['a', 'r', 'r'] {
        TokenModel::Arr
    } else if text == seq!['i', 'f'] {
        TokenModel::If
    } else if text == seq!['e', 'l', 's', 'e'] {
        TokenModel::Else
    } else if text == seq!['r', 'e', 't', 'u', 'r', 'n'] {
        TokenModel::Return
    } else {
        TokenModel::Ident(text)
    }
}

/// The rule match for a lexeme that begins with a digit at `i`.
///
/// Longest match first: a digit run followed by a dot and another digit run
/// is a float literal; a digit run that continues with a letter or underscore
/// is an invalid identifier (an error); otherwise the digit run is an integer
/// literal, itself an error when its value does not fit a 64-bit signed
/// integer.
pub open spec fn step_number_at(s: Seq<char>, i: int) -> SpanModel {
    let d = run_end(s, i, digit_pred());
    if d < s.len() && s[d] == '.' && d + 1 < s.len() && is_digit(s[d + 1]) {
        let e = run_end(s, d + 1, digit_pred());
        SpanModel {
            start: i,
            end: e,
            entry: Some(Ok((TokenModel::FloatLit(s.subrange(i, e)), loc_at(s, i)))),
        }
    } else if d < s.len() && is_ident_start(s[d]) {
        let e = run_end(s, d, ident_cont_pred());
        SpanModel {
            start: i,
            end: e,
            entry: Some(
                Err(
                    ErrModel {
                        token: s.subrange(i, e),
                        line: line_of(s, i),
                        column: col_of(s, i),
                    },
                ),
            ),
        }
    } else {
        let text = s.subrange(i, d);
        if dec_val(text) <= i64::MAX {
            SpanModel {
                start: i,
                end: d,
                entry: Some(Ok((TokenModel::IntLit(dec_val(text)), loc_at(s, i)))),
            }
        } else {
            SpanModel {
                start: i,
                end: d,
                entry: Some(
                    Err(ErrModel { token: text, line: line_of(s, i), column: col_of(s, i) }),
                ),
            }
        }
    }
}

/// The rule that matches at position `i` of the cleaned text: which span it
/// consumes and what it emits.  This is the tokenizer's single-step relation.
pub open spec fn step_at(s: Seq<char>, i: int) -> SpanModel
    recommends
        0 <= i < s.len(),
{
    let c = s[i];
    if is_space(c) {
        SpanModel { start: i, end: run_end(s, i, space_pred()), entry: None }
    } else if c == '-' && i + 1 < s.len() && s[i + 1] == '-' {
        // A `--` line comment or `---` doc comment: both run to the newline.
        SpanModel { start: i, end: run_end(s, i + 2, not_newline_pred()), entry: None }
    } else if is_ident_start(c) {
        let e = run_end(s, i, ident_cont_pred());
        SpanModel {
            start: i,
            end: e,
            entry: Some(Ok((keyword_or_ident(s.subrange(i, e)), loc_at(s, i)))),
        }
    } else if is_digit(c) {
        step_number_at(s, i)
    } else if c == '"' {
        match string_end(s, i + 1) {
            Some(e) => SpanModel {
                start: i,
                end: e + 1,
                entry: Some(Ok((TokenModel::StringLit(s.subrange(i + 1, e)), loc_at(s, i)))),
            },
            None => err_span(s, i),
        }
    } else if c == '-' {
        op1(s, i, TokenModel::Minus)
    } else if c == ':' {
        if i + 1 < s.len() && s[i + 1] == '=' {
            op2(s, i, TokenModel::DeclareAssign)
        } else {
            err_span(s, i)
        }
    } else if c == '=' {
        if i + 1 < s.len() && s[i + 1] == '=' {
            op2(s, i, TokenModel::Equal)
        } else {
            op1(s, i, TokenModel::Assign)
        }
    } else if c == '!' {
        if i + 1 < s.len() && s[i + 1] == '=' {
            op2(s, i, TokenModel::NotEqual)
        } else {
            op1(s, i, TokenModel::Not)
        }
    } else if c == '<' {
        if i + 1 < s.len() && s[i + 1] == '=' {
            op2(s, i, TokenModel::LessEqual)
        } else {
            op1(s, i, TokenModel::LessThan)
        }
    } else if c == '>' {
        if i + 1 < s.len() && s[i + 1] == '=' {
            op2(s, i, TokenModel::GreaterEqual)
        } else {
            op1(s, i, TokenModel::GreaterThan)
        }
    } else if c == '&' {
        if i + 1 < s.len() && s[i + 1] == '&' {
            op2(s, i, TokenModel::And)
        } else {
            err_span(s, i)
        }
    } else if c == '|' {
        if i + 1 < s.len() && s[i + 1] == '|' {
            op2(s, i, TokenModel::Or)
        } else {
            err_span(s, i)
        }
    } else if c == '+' {
        op1(s, i, TokenModel::Plus)
    } else if c == '*' {
        op1(s, i, TokenModel::Multiply)
    } else if c == '/' {
        op1(s, i, TokenModel::Divide)
    } else if c == '%' {
        op1(s, i, TokenModel::Modulo)
    } else if c == '(' {
        op1(s, i, TokenModel::LParen)
    } else if c == ')' {
        op1(s, i, TokenModel::RParen)
    } else if c == '{' {
        op1(s, i, TokenModel::LBrace)
    } else if c == '}' {
        op1(s, i, TokenModel::RBrace)
    } else if c == '[' {
        op1(s, i, TokenModel::LBracket)
    } else if c == ']' {
        op1(s, i, TokenModel::RBracket)
    } else if c == ';' {
        op1(s, i, TokenModel::Semicolon)
    } else if c == ',' {
        op1(s, i, TokenModel::Comma)
    } else {
        err_span(s, i)
    }
}

/// Every rule match consumes at least one character and stays within the
/// text.
pub proof fn lemma_step_in_range(s: Seq<char>, i: int)
    requires
        0 <= i < s.len(),
    ensures
        step_at(s, i).start == i,
        i < step_at(s, i).end <= s.len(),
{
    let c = s[i];
    if is_space(c) {
        lemma_run_end(s, i, space_pred());
        assert(space_pred()(s[i]));
    } else if c == '-' && i + 1 < s.len() && s[i + 1] == '-' {
        lemma_run_end(s, i + 2, not_newline_pred());
    } else if is_ident_start(c) {
        lemma_run_end(s, i, ident_cont_pred());
        assert(ident_cont_pred()(s[i]));
    } else if is_digit(c) {
        lemma_run_end(s, i, digit_pred());
        assert(digit_pred()(s[i]));
        let d = run_end(s, i, digit_pred());
        if d < s.len() && s[d] == '.' && d + 1 < s.len() && is_digit(s[d + 1]) {
            lemma_run_end(s, d + 1, digit_pred());
            assert(digit_pred()(s[d + 1]));
        } else if d < s.len() && is_ident_start(s[d]) {
            lemma_run_end(s, d, ident_cont_pred());
            assert(ident_cont_pred()(s[d]));
        }
    } else if c == '"' {
        lemma_string_end(s, i + 1);
    }
}

/// The sequence of rule matches that tile the text from position `i` to its
/// end.
pub open spec fn spec_spans_from(s: Seq<char>, i: int) -> Seq<SpanModel>
    decreases s.len() - i,
{
    if i < 0 || i >= s.len() {
        Seq::empty()
    } else {
        let sp = step_at(s, i);
        let next = if i < sp.end && sp.end <= s.len() {
            sp.end
        } else {
            s.len() as int
        };
        seq![sp] + spec_spans_from(s, next)
    }
}

/// The lexical segmentation of the whole cleaned text.
pub open spec fn spec_spans(s: Seq<char>) -> Seq<SpanModel> {
    spec_spans_from(s, 0)
}

/// The stream entries emitted by a sequence of rule matches, in order;
/// skip-pattern matches contribute nothing.
pub open spec fn entries_of(spans: Seq<SpanModel>) -> Seq<EntryModel>
    decreases spans.len(),
{
    if spans.len() == 0 {
        Seq::empty()
    } else {
        (match spans[0].entry {
            Some(e) => seq![e],
            None => Seq::empty(),
        }) + entries_of(spans.drop_first())
    }
}

/// The token stream of the cleaned text `s`: every lexeme, valid or invalid,
/// produces exactly one entry, in source order.
pub open spec fn spec_tokenize(s: Seq<char>) -> Seq<EntryModel> {
    entries_of(spec_spans(s))
}

/// Coverage of the segmentation, from position `i` on: spans are non-empty,
/// contiguous and in strictly increasing order, the first starts at `i`, and
/// the last ends at the end of the text.
pub proof fn lemma_spans_from_partition(s: Seq<char>, i: int)
    requires
        0 <= i <= s.len(),
    ensures
        forall|k: int|
            0 <= k < spec_spans_from(s, i).len() ==> (#[trigger] spec_spans_from(s, i)[k]).start
                < spec_spans_from(s, i)[k].end <= s.len(),
        spec_spans_from(s, i).len() > 0 ==> spec_spans_from(s, i)[0].start == i,
        forall|k: int|
            0 <= k < spec_spans_from(s, i).len() - 1 ==> (#[trigger] spec_spans_from(s, i)[k
                + 1]).start == spec_spans_from(s, i)[k].end,
        i < s.len() ==> spec_spans_from(s, i).len() > 0 && spec_spans_from(s, i).last().end
            == s.len(),
        i >= s.len() ==> spec_spans_from(s, i).len() == 0,
    decreases s.len() - i,
{
    if i < s.len() {
        lemma_step_in_range(s, i);
        let sp = step_at(s, i);
        let rest = spec_spans_from(s, sp.end);
        lemma_spans_from_partition(s, sp.end);
        let whole = spec_spans_from(s, i);
        assert(whole == seq![sp] + rest);
        assert(whole[0] == sp);
        assert(forall|k: int| 1 <= k < whole.len() ==> whole[k] == rest[k - 1]);
        assert forall|k: int| 0 <= k < whole.len() - 1 implies (#[trigger] whole[k + 1]).start
            == whole[k].end by {
            if k == 0 {
                assert(whole[1] == rest[0]);
                assert(rest[0].start == sp.end);
            } else {
                assert(whole[k] == rest[k - 1]);
                assert(whole[k + 1] == rest[k]);
                assert(rest[k - 1 + 1].start == rest[k - 1].end);
            }
        }
        if sp.end == s.len() {
            assert(rest.len() == 0);
            assert(whole.len() == 1);
        } else {
            assert(rest.len() > 0);
            assert(whole.last() == rest.last());
        }
    }
}

/// Coverage / no gaps: every character of the cleaned text is consumed by
/// exactly one rule match — the matched spans are non-empty, non-overlapping,
/// contiguous from the start of the text to its end, and appear in strictly
/// increasing source order.
pub proof fn lemma_spans_partition(s: Seq<char>)
    ensures
        forall|k: int|
            0 <= k < spec_spans(s).len() ==> (#[trigger] spec_spans(s)[k]).start < spec_spans(
                s,
            )[k].end <= s.len(),
        s.len() > 0 ==> spec_spans(s).len() > 0 && spec_spans(s)[0].start == 0 && spec_spans(
            s,
        ).last().end == s.len(),
        forall|k: int|
            0 <= k < spec_spans(s).len() - 1 ==> (#[trigger] spec_spans(s)[k + 1]).start
                == spec_spans(s)[k].end,
        s.len() == 0 ==> spec_spans(s).len() == 0,
{
    lemma_spans_from_partition(s, 0);
}

/// The tokenizer: owns the cleaned text and classifies it in one forward
/// pass.
pub struct Lexer {
    source: Vec<char>,
}

impl View for Lexer {
    type V = Seq<char>;

    closed spec fn view(&self) -> Seq<char> {
        self.source@
    }
}

/// The exact-match keyword rule, tried before the identifier rule.
fn classify_word(v: Vec<char>) -> (t: Token)
    ensures
        abs_token(t) == keyword_or_ident(v@),
{
    let n: usize = v.len();
    if n == 3 && v[0] == 'm' && v[1] == 'u' && v[2] == 't' {
        proof {
            assert(v@ =~= seq!['m', 'u', 't']);
        }
        Token::Mut
    } else if n == 3 && v[0] == 'i' && v[1] == 'n' && v[2] == 't' {
        proof {
            assert(v@ =~= seq!['i', 'n', 't']);
        }
        Token::Int
    } else if n == 3 && v[0] == 's' && v[1] == 't' && v[2] == 'r' {
        proof {
            assert(v@ =~= seq!['s', 't', 'r']);
        }
        Token::Str
    } else if n == 3 && v[0] == 'a' && v[1] == 'r' && v[2] == 'r' {
        proof {
            assert(v@ =~= seq!['a', 'r', 'r']);
        }
        Token::Arr
    } else if n == 2 && v[0] == 'i' && v[1] == 'f' {
        proof {
            assert(v@ =~= seq!['i', 'f']);
        }
        Token::If
    } else if n == 4 && v[0] == 'e' && v[1] == 'l' && v[2] == 's' && v[3] == 'e' {
        proof {
            assert(v@ =~= seq!['e', 'l', 's', 'e']);
        }
        Token::Else
    } else if n == 6 && v[0] == 'r' && v[1] == 'e' && v[2] == 't' && v[3] == 'u' && v[4] == 'r'
        && v[5] == 'n' {
        proof {
            assert(v@ =~= seq!['r', 'e', 't', 'u', 'r', 'n']);
        }
        Token::Return
    } else {
        Token::Ident(chars_to_string(v))
    }
}

impl Lexer {
    /// A tokenizer over the given cleaned text.
    pub fn new(source: &str) -> (l: Lexer)
        ensures
            l@ == source@,
    {
        Lexer { source: str_to_chars(source) }
    }

    /// The 1-based line and column of position `index`, found by scanning the
    /// text from the beginning and counting line terminators.
    fn get_location(&self, index: usize) -> (loc: SourceLocation)
        requires
            index < self@.len(),
        ensures
            abs_loc(loc) == loc_at(self@, index as int),
    {
        proof {
            assert(self@.len() == self.source.len());
        }
        let mut line: usize = 1;
        let mut start: usize = 0;
        let mut j: usize = 0;
        while j < index
            invariant
                j <= index < self@.len(),
                self@.len() <= usize::MAX,
                self@ == self.source@,
                line as int == line_of(self@, j as int),
                start as int == line_start(self@, j as int),
                line <= j + 1,
                start <= j,
            decreases index - j,
        {
            if self.source[j] == '\n' {
                line = line + 1;
                start = j + 1;
            }
            j = j + 1;
        }
        SourceLocation { line, column: index - start + 1 }
    }

    /// A lexical error whose lexeme is `self[start .. end]`, located at `pos`.
    fn error_at(&self, pos: usize, start: usize, end: usize) -> (err: LexerError)
        requires
            pos < self@.len(),
            start <= end <= self@.len(),
        ensures
            abs_err(err) == (ErrModel {
                token: self@.subrange(start as int, end as int),
                line: line_of(self@, pos as int),
                column: col_of(self@, pos as int),
            }),
    {
        let text: String = chars_to_string(copy_range(&self.source, start, end));
        let loc: SourceLocation = self.get_location(pos);
        LexerError { token: text, line: loc.line, column: loc.column }
    }

    /// A single-character token at `pos`.
    fn single(&self, pos: usize, t: Token) -> (r: (usize, Option<LexResult>))
        requires
            pos < self@.len(),
        ensures
            r.0 == pos + 1,
            opt_entry_abs(r.1) == Some(Ok::<(TokenModel, LocModel), ErrModel>(
                (abs_token(t), loc_at(self@, pos as int)),
            )),
    {
        proof {
            assert(self@.len() == self.source.len());
        }
        let loc: SourceLocation = self.get_location(pos);
        (pos + 1, Some(Ok((t, loc))))
    }

    /// A two-character token at `pos`.
    fn double(&self, pos: usize, t: Token) -> (r: (usize, Option<LexResult>))
        requires
            pos + 1 < self@.len(),
        ensures
            r.0 == pos + 2,
            opt_entry_abs(r.1) == Some(Ok::<(TokenModel, LocModel), ErrModel>(
                (abs_token(t), loc_at(self@, pos as int)),
            )),
    {
        proof {
            assert(self@.len() == self.source.len());
        }
        let loc: SourceLocation = self.get_location(pos);
        (pos + 2, Some(Ok((t, loc))))
    }

    /// An unrecognized single character at `pos`.
    fn unrecognized(&self, pos: usize) -> (r: (usize, Option<LexResult>))
        requires
            pos < self@.len(),
        ensures
            r.0 == err_span(self@, pos as int).end,
            opt_entry_abs(r.1) == err_span(self@, pos as int).entry,
    {
        proof {
            assert(self@.len() == self.source.len());
        }
        let err: LexerError = self.error_at(pos, pos, pos + 1);
        (pos + 1, Some(Err(err)))
    }

    /// The rule match for a lexeme beginning with a digit at `pos`.
    fn next_number(&self, pos: usize) -> (r: (usize, Option<LexResult>))
        requires
            pos < self@.len(),
            is_digit(self@[pos as int]),
        ensures
            r.0 == step_number_at(self@, pos as int).end,
            opt_entry_abs(r.1) == step_number_at(self@, pos as int).entry,
    {
        let ghost s = self@;
        let n: usize = self.source.len();
        proof {
            lemma_run_end(s, pos as int, digit_pred());
            assert(digit_pred()(s[pos as int]));
        }
        let d: usize = scan_digits(&self.source, pos);
        if d < n && self.source[d] == '.' && d + 1 < n && is_digit_exec(self.source[d + 1]) {
            proof {
                lemma_run_end(s, d as int + 1, digit_pred());
                assert(digit_pred()(s[d as int + 1]));
            }
            let e: usize = scan_digits(&self.source, d + 1);
            let text: String = chars_to_string(copy_range(&self.source, pos, e));
            let loc: SourceLocation = self.get_location(pos);
            (e, Some(Ok((Token::FloatLit(text), loc))))
        } else if d < n && is_ident_start_exec(self.source[d]) {
            proof {
                lemma_run_end(s, d as int, ident_cont_pred());
                assert(ident_cont_pred()(s[d as int]));
            }
            let e: usize = scan_ident_cont(&self.source, d);
            let err: LexerError = self.error_at(pos, pos, e);
            (e, Some(Err(err)))
        } else {
            proof {
                assert forall|k: int| pos <= k < d implies is_digit(s[k]) by {
                    assert(digit_pred()(s[k]));
                }
            }
            let v: Option<i64> = parse_int(&self.source, pos, d);
            match v {
                Some(x) => {
                    let loc: SourceLocation = self.get_location(pos);
                    (d, Some(Ok((Token::IntLit(x), loc))))
                },
                None => {
                    let err: LexerError = self.error_at(pos, pos, d);
                    (d, Some(Err(err)))
                },
            }
        }
    }

    /// One step of the scan: the rule that matches at `pos`, as the position
    /// after its span together with the entry it emits, if any.
    fn next_step(&self, pos: usize) -> (r: (usize, Option<LexResult>))
        requires
            pos < self@.len(),
        ensures
            r.0 == step_at(self@, pos as int).end,
            opt_entry_abs(r.1) == step_at(self@, pos as int).entry,
    {
        let ghost s = self@;
        let n: usize = self.source.len();
        let c: char = self.source[pos];
        if is_space_exec(c) {
            let j: usize = scan_space(&self.source, pos);
            (j, None)
        } else if c == '-' && pos + 1 < n && self.source[pos + 1] == '-' {
            let j: usize = scan_to_newline(&self.source, pos + 2);
            (j, None)
        } else if is_ident_start_exec(c) {
            proof {
                lemma_run_end(s, pos as int, ident_cont_pred());
                assert(ident_cont_pred()(s[pos as int]));
            }
            let e: usize = scan_ident_cont(&self.source, pos);
            let word: Vec<char> = copy_range(&self.source, pos, e);
            let t: Token = classify_word(word);
            let loc: SourceLocation = self.get_location(pos);
            (e, Some(Ok((t, loc))))
        } else if is_digit_exec(c) {
            self.next_number(pos)
        } else if c == '"' {
            proof {
                lemma_string_end(s, pos as int + 1);
            }
            let found: Option<usize> = scan_string_end(&self.source, pos + 1);
            match found {
                Some(e) => {
                    let content: String = chars_to_string(copy_range(&self.source, pos + 1, e));
                    let loc: SourceLocation = self.get_location(pos);
                    (e + 1, Some(Ok((Token::StringLit(content), loc))))
                },
                None => self.unrecognized(pos),
            }
        } else if c == '-' {
            self.single(pos, Token::Minus)
        } else if c == ':' {
            if pos + 1 < n && self.source[pos + 1] == '=' {
                self.double(pos, Token::DeclareAssign)
            } else {
                self.unrecognized(pos)
            }
        } else if c == '=' {
            if pos + 1 < n && self.source[pos + 1] == '=' {
                self.double(pos, Token::Equal)
            } else {
                self.single(pos, Token::Assign)
            }
        } else if c == '!' {
            if pos + 1 < n && self.source[pos + 1] == '=' {
                self.double(pos, Token::NotEqual)
            } else {
                self.single(pos, Token::Not)
            }
        } else if c == '<' {
            if pos + 1 < n && self.source[pos + 1] == '=' {
                self.double(pos, Token::LessEqual)
            } else {
                self.single(pos, Token::LessThan)
            }
        } else if c == '>' {
            if pos + 1 < n && self.source[pos + 1] == '=' {
                self.double(pos, Token::GreaterEqual)
            } else {
                self.single(pos, Token::GreaterThan)
            }
        } else if c == '&' {
            if pos + 1 < n && self.source[pos + 1] == '&' {
                self.double(pos, Token::And)
            } else {
                self.unrecognized(pos)
            }
        } else if c == '|' {
            if pos + 1 < n && self.source[pos + 1] == '|' {
                self.double(pos, Token::Or)
            } else {
                self.unrecognized(pos)
            }
        } else if c == '+' {
            self.single(pos, Token::Plus)
        } else if c == '*' {
            self.single(pos, Token::Multiply)
        } else if c == '/' {
            self.single(pos, Token::Divide)
        } else if c == '%' {
            self.single(pos, Token::Modulo)
        } else if c == '(' {
            self.single(pos, Token::LParen)
        } else if c == ')' {
            self.single(pos, Token::RParen)
        } else if c == '{' {
            self.single(pos, Token::LBrace)
        } else if c == '}' {
            self.single(pos, Token::RBrace)
        } else if c == '[' {
            self.single(pos, Token::LBracket)
        } else if c == ']' {
            self.single(pos, Token::RBracket)
        } else if c == ';' {
            self.single(pos, Token::Semicolon)
        } else if c == ',' {
            self.single(pos, Token::Comma)
        } else {
            self.unrecognized(pos)
        }
    }

    /// Classifies the whole text into its token stream: one entry per lexeme,
    /// valid or invalid, in source order; the scan never stops at an error.
    pub fn tokenize(&mut self) -> (r: Vec<LexResult>)
        ensures
            *final(self) == *old(self),
            abs_entries(r@) == spec_tokenize(old(self)@),
    {
        let ghost s = self@;
        let mut r: Vec<LexResult> = Vec::new();
        let n: usize = self.source.len();
        let mut pos: usize = 0;
        proof {
            assert(abs_entries(r@) =~= Seq::<EntryModel>::empty());
        }
        while pos < n
            invariant
                *final(self) == *old(self),
                s == self@,
                pos <= n,
                n == self@.len(),
                abs_entries(r@) + entries_of(spec_spans_from(s, pos as int)) == spec_tokenize(s),
            decreases n - pos,
        {
            proof {
                lemma_step_in_range(s, pos as int);
            }
            let ghost sp = step_at(s, pos as int);
            let ghost rest = spec_spans_from(s, sp.end);
            proof {
                assert(spec_spans_from(s, pos as int) == seq![sp] + rest);
                assert((seq![sp] + rest)[0] == sp);
                assert((seq![sp] + rest).drop_first() =~= rest);
                assert(entries_of(spec_spans_from(s, pos as int)) == (match sp.entry {
                    Some(e) => seq![e],
                    None => Seq::<EntryModel>::empty(),
                }) + entries_of(rest));
            }
            let step = self.next_step(pos);
            let next: usize = step.0;
            match step.1 {
                Some(entry) => {
                    let ghost r0 = r@;
                    let ghost a = abs_entries(r@);
                    r.push(entry);
                    proof {
                        assert(abs_entries(r@) =~= a + seq![abs_entry(entry)]);
                        assert(sp.entry == Some(abs_entry(entry)));
                        assert((a + seq![abs_entry(entry)]) + entries_of(rest) =~= a + (seq![
                            abs_entry(entry),
                        ] + entries_of(rest)));
                    }
                },
                None => {
                    proof {
                        assert(entries_of(spec_spans_from(s, pos as int)) =~= entries_of(rest));
                    }
                },
            }
            pos = next;
        }
        proof {
            assert(entries_of(spec_spans_from(s, n as int)) =~= Seq::<EntryModel>::empty());
            assert(abs_entries(r@) + Seq::<EntryModel>::empty() =~= abs_entries(r@));
        }
        r
    }
}

} // verus!

