//! Lexical analysis for the Eris language: a comment-stripping pre-pass and a
//! tokenizer that classifies the cleaned text into tokens or lexical errors.

pub mod lexer;
pub mod scan;

use vstd::prelude::*;

use crate::lexer::{spec_tokenize, EntryModel};

verus! {

/// The text that remains after the block-comment pre-pass, scanning `s` from
/// position `i` with the scanner's single state bit `in_comment`.
///
/// Outside a comment, the two-character open marker `-+` switches the scanner
/// into the comment state and is not emitted; every other character is emitted
/// unchanged.  Inside a comment, the close marker `+-` switches the scanner
/// back; everything else is discarded.  An unterminated comment discards the
/// rest of the text.
pub open spec fn spec_normalize_from(s: Seq<char>, i: int, in_comment: bool) -> Seq<char>
    decreases s.len() - i,
{
    if i < 0 || i >= s.len() {
        Seq::empty()
    } else if !in_comment {
        if s[i] == '-' && i + 1 < s.len() && s[i + 1] == '+' {
            spec_normalize_from(s, i + 2, true)
        } else {
            seq![s[i]] + spec_normalize_from(s, i + 1, false)
        }
    } else {
        if s[i] == '+' && i + 1 < s.len() && s[i + 1] == '-' {
            spec_normalize_from(s, i + 2, false)
        } else {
            spec_normalize_from(s, i + 1, true)
        }
    }
}

/// The cleaned text: `s` with every block comment removed.
pub open spec fn spec_normalize(s: Seq<char>) -> Seq<char> {
    spec_normalize_from(s, 0, false)
}

/// Strips multi-line block comments (`-+ ... +-`) from the source text.
///
/// Block comments may span any number of lines and do not nest; an open
/// marker with no matching close marker silently discards the rest of the
/// text.  This pre-pass runs before tokenization because the token rules
/// proper are all single-lexeme rules and cannot express an unbounded
/// multi-line form.
pub fn preprocess_multi_line_comments(source: &str) -> (res: String)
    ensures
        res@ == spec_normalize(source@),
{
    let n: usize = source.unicode_len();
    let mut out: Vec<char> = Vec::new();
    let mut i: usize = 0;
    let mut in_comment: bool = false;
    while i < n
        invariant
            n == source@.len(),
            i <= n,
            spec_normalize(source@) == out@ + spec_normalize_from(source@, i as int, in_comment),
        decreases n - i,
    {
        let c = source.get_char(i);
        if !in_comment {
            if c == '-' && i + 1 < n && source.get_char(i + 1) == '+' {
                in_comment = true;
                i = i + 2;
            } else {
                let ghost out0 = out@;
                out.push(c);
                proof {
                    assert(out@ =~= out0 + seq![c]);
                    assert((out0 + seq![c]) + spec_normalize_from(source@, i as int + 1, false)
                        =~= out0 + (seq![c] + spec_normalize_from(source@, i as int + 1, false)));
                }
                i = i + 1;
            }
        } else {
            if c == '+' && i + 1 < n && source.get_char(i + 1) == '-' {
                in_comment = false;
                i = i + 2;
            } else {
                i = i + 1;
            }
        }
    }
    scan::chars_to_string(out)
}

/// Determinism of the whole pipeline: the token stream of the normalized text
/// is a function of the raw input alone, so two runs over the same input
/// yield identical output.
pub proof fn lemma_pipeline_deterministic(
    s: Seq<char>,
    r1: Seq<EntryModel>,
    r2: Seq<EntryModel>,
)
    requires
        r1 == spec_tokenize(spec_normalize(s)),
        r2 == spec_tokenize(spec_normalize(s)),
    ensures
        r1 == r2,
{
}

/// Text with no open marker anywhere is left untouched: the normalizer only
/// ever removes comments.
pub proof fn lemma_normalize_without_comments(s: Seq<char>, i: int)
    requires
        0 <= i <= s.len(),
        forall|j: int| i <= j < s.len() - 1 ==> !(s[j] == '-' && #[trigger] s[j + 1] == '+'),
    ensures
        spec_normalize_from(s, i, false) == s.skip(i),
    decreases s.len() - i,
{
    if i < s.len() {
        assert(!(s[i] == '-' && i + 1 < s.len() && s[i + 1] == '+'));
        lemma_normalize_without_comments(s, i + 1);
        assert(seq![s[i]] + s.skip(i + 1) =~= s.skip(i));
    } else {
        assert(s.skip(i) =~= Seq::<char>::empty());
    }
}

/// Unterminated block comment: once the scanner stands inside a comment and
/// no close marker appears anywhere ahead, the rest of the text is discarded
/// silently — nothing more is emitted and no error is raised.
pub proof fn lemma_unterminated_comment(s: Seq<char>, i: int)
    requires
        0 <= i <= s.len(),
        forall|j: int| i <= j < s.len() - 1 ==> !(s[j] == '+' && #[trigger] s[j + 1] == '-'),
    ensures
        spec_normalize_from(s, i, true) == Seq::<char>::empty(),
    decreases s.len() - i,
{
    if i < s.len() {
        if s[i] == '+' && i + 1 < s.len() && s[i + 1] == '-' {
            assert(!(s[i] == '+' && s[i + 1] == '-'));
        } else {
            lemma_unterminated_comment(s, i + 1);
        }
    }
}

} // verus!
