//! The status-line tail: `SP 3DIGIT SP Reason-Phrase CRLF`.  The tokenizer
//! captures the digit span and the reason span (spaces allowed inside);
//! conversion admits exactly the integers in `[100, 699]`.

use vstd::prelude::*;

verus! {

use crate::error::{Rule, SemanticError, SynView, SyntaxError};
use crate::scan::{all_digits, dec_val, find_crlf, is_digit};

/// A semantically valid status code: an integer in `[100, 699]`.
#[derive(Debug, Clone, Copy, PartialEq, Eq, Structural)]
pub struct StatusCode(pub u16);

impl StatusCode {
    /// The range the grammar admits for a status code.
    pub open spec fn wf(&self) -> bool {
        100 <= self.0 <= 699
    }
}

/// Borrowed spans of the status-code digits and the reason phrase.
#[derive(Debug, Clone, Copy, PartialEq, Eq)]
pub struct Tokenizer<'a> {
    pub code: &'a [u8],
    pub reason: &'a [u8],
}

/// Ghost counterpart of the status-code tokenizer.
pub ghost struct TokView {
    pub code: Seq<u8>,
    pub reason: Seq<u8>,
}

impl<'a> View for Tokenizer<'a> {
    type V = TokView;

    open spec fn view(&self) -> TokView {
        TokView { code: self.code@, reason: self.reason@ }
    }
}

/// What tokenizing `SP 3DIGIT SP Reason-Phrase CRLF` at index `i` yields:
/// the spans and the index just past the CRLF, or the failing position.
pub open spec fn tokenize_spec(s: Seq<u8>, i: int) -> Result<(TokView, int), SynView> {
    if i >= s.len() || s[i] != 32 {
        Err(SynView { rule: Rule::StatusCode, pos: i })
    } else if i + 4 > s.len() || !is_digit(s[i + 1]) || !is_digit(s[i + 2]) || !is_digit(
        s[i + 3],
    ) {
        Err(SynView { rule: Rule::StatusCode, pos: i + 1 })
    } else if i + 4 >= s.len() || s[i + 4] != 32 {
        Err(SynView { rule: Rule::StatusCode, pos: i + 4 })
    } else {
        let e = find_crlf(s, i + 5);
        if e >= s.len() {
            Err(SynView { rule: Rule::Reason, pos: i + 5 })
        } else {
            Ok((TokView { code: s.subrange(i + 1, i + 4), reason: s.subrange(i + 5, e) }, e + 2))
        }
    }
}

impl<'a> Tokenizer<'a> {
    /// Tokenizes the status code together with its reason phrase, up to and
    /// including the terminating CRLF, starting at index `i`.
    pub fn tokenize_with_reason(s: &'a [u8], i: usize) -> (r: Result<
        (Tokenizer<'a>, usize),
        SyntaxError,
    >)
        requires
            i <= s@.len(),
        ensures
            match r {
                Ok((t, j)) => tokenize_spec(s@, i as int) == Ok::<(TokView, int), SynView>(
                    (t@, j as int),
                ),
                Err(e) => tokenize_spec(s@, i as int) == Err::<(TokView, int), SynView>(e@),
            },
    {
        broadcast use crate::scan::lemma_find_crlf_bounds;

        let n = s.len();
        if i >= n || *vstd::slice::slice_index_get(s, i) != 32 {
            return Err(SyntaxError { rule: Rule::StatusCode, pos: i });
        }
        if n - i < 4 || !digit_at(s, i + 1) || !digit_at(s, i + 2) || !digit_at(s, i + 3) {
            return Err(SyntaxError { rule: Rule::StatusCode, pos: i + 1 });
        }
        if n - i < 5 || *vstd::slice::slice_index_get(s, i + 4) != 32 {
            return Err(SyntaxError { rule: Rule::StatusCode, pos: i + 4 });
        }
        let e = crate::scan::find_crlf_from(s, i + 5);
        if e >= n {
            return Err(SyntaxError { rule: Rule::Reason, pos: i + 5 });
        }
        let code = vstd::slice::slice_subrange(s, i + 1, i + 4);
        let reason = vstd::slice::slice_subrange(s, i + 5, e);
        Ok((Tokenizer { code, reason }, e + 2))
    }
}

/// Whether the byte at `i` is an ASCII digit.
fn digit_at(s: &[u8], i: usize) -> (r: bool)
    requires
        i < s@.len(),
    ensures
        r == is_digit(s@[i as int]),
{
    let c = *vstd::slice::slice_index_get(s, i);
    48 <= c && c <= 57
}

/// The status code denoted by a digit span, if it is exactly three digits
/// whose value lies in `[100, 699]`.
pub open spec fn status_of(code: Seq<u8>) -> Option<u16> {
    if code.len() == 3 && all_digits(code) && 100 <= dec_val(code) <= 699 {
        Some(dec_val(code) as u16)
    } else {
        None
    }
}

/// Three digits read at most `999`.
pub proof fn lemma_dec_val3(s: Seq<u8>)
    requires
        s.len() == 3,
        all_digits(s),
    ensures
        0 <= dec_val(s) <= 999,
{
    let s2 = s.drop_last();
    let s1 = s2.drop_last();
    let s0 = s1.drop_last();
    assert(s0 =~= Seq::<u8>::empty());
    assert(dec_val(s0) == 0);
    assert(is_digit(s[0]) && is_digit(s[1]) && is_digit(s[2]));
    assert(s1.last() == s[0] && s2.last() == s[1] && s.last() == s[2]);
    assert(dec_val(s1) == dec_val(s0) * 10 + s1.last() - 48);
    assert(dec_val(s2) == dec_val(s1) * 10 + s2.last() - 48);
    assert(dec_val(s) == dec_val(s2) * 10 + s.last() - 48);
}

impl StatusCode {
    /// Converts a status-code tokenizer to the typed code, rejecting any
    /// span that is not three digits in `[100, 699]`.
    pub fn parse(t: &Tokenizer<'_>) -> (r: Result<StatusCode, SemanticError>)
        ensures
            match status_of(t.code@) {
                Some(v) => r == Ok::<StatusCode, SemanticError>(StatusCode(v)),
                None => r == Err::<StatusCode, SemanticError>(SemanticError::StatusCode),
            },
            r matches Ok(c) ==> c.wf(),
    {
        match crate::scan::parse_dec_u16(t.code) {
            Some(v) => {
                if t.code.len() == 3 && 100 <= v && v <= 699 {
                    Ok(StatusCode(v))
                } else {
                    Err(SemanticError::StatusCode)
                }
            },
            None => {
                proof {
                    if t.code@.len() == 3 && all_digits(t.code@) {
                        lemma_dec_val3(t.code@);
                    }
                }
                Err(SemanticError::StatusCode)
            },
        }
    }
}

} // verus!

verus! {

/// A successful status-line scan makes progress and stays in bounds.
pub proof fn lemma_tokenize_ok_bounds(s: Seq<u8>, i: int)
    requires
        0 <= i <= s.len(),
    ensures
        tokenize_spec(s, i) matches Ok((t, j)) ==> i < j <= s.len(),
{
    broadcast use crate::scan::lemma_find_crlf_bounds;

}

} // verus!
