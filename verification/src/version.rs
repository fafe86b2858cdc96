//! The SIP protocol version: the `SIP "/" 1*DIGIT "." 1*DIGIT` production.
//! The tokenizer captures the two digit runs as borrowed spans; conversion
//! admits only the recognized versions, anything else is a semantic error.

use vstd::prelude::*;

verus! {

use crate::error::{Rule, SemanticError, SynView, SyntaxError};
use crate::scan::{find_nondigit, is_digit};

/// A recognized protocol version.  The version vocabulary is closed: a
/// version-shaped token outside it is rejected at conversion.
#[derive(Debug, Clone, Copy, PartialEq, Eq, Structural)]
pub enum Version {
    V1,
    V2,
}

/// Borrowed digit runs either side of the version dot, still aliasing the
/// input buffer.
#[derive(Debug, Clone, Copy, PartialEq, Eq)]
pub struct Tokenizer<'a> {
    pub major: &'a [u8],
    pub minor: &'a [u8],
}

/// Ghost counterpart of the version tokenizer.
pub ghost struct TokView {
    pub major: Seq<u8>,
    pub minor: Seq<u8>,
}

impl<'a> View for Tokenizer<'a> {
    type V = TokView;

    open spec fn view(&self) -> TokView {
        TokView { major: self.major@, minor: self.minor@ }
    }
}

/// The literal `SIP/` stands at index `i` of `s`.
pub open spec fn sip_prefix(s: Seq<u8>, i: int) -> bool {
    &&& i + 4 <= s.len()
    &&& s[i] == 83
    &&& s[i + 1] == 73
    &&& s[i + 2] == 80
    &&& s[i + 3] == 47
}

/// What tokenizing a version at index `i` of `s` yields: the two digit spans
/// and the index just past the minor digits, or the failing position.
pub open spec fn tokenize_spec(s: Seq<u8>, i: int) -> Result<(TokView, int), SynView> {
    if !sip_prefix(s, i) {
        Err(SynView { rule: Rule::Version, pos: i })
    } else {
        let d1 = find_nondigit(s, i + 4);
        if d1 == i + 4 || d1 >= s.len() || s[d1] != 46 {
            Err(SynView { rule: Rule::Version, pos: d1 })
        } else {
            let d2 = find_nondigit(s, d1 + 1);
            if d2 == d1 + 1 {
                Err(SynView { rule: Rule::Version, pos: d2 })
            } else {
                Ok((TokView { major: s.subrange(i + 4, d1), minor: s.subrange(d1 + 1, d2) }, d2))
            }
        }
    }
}

impl<'a> Tokenizer<'a> {
    /// Tokenizes `SIP "/" 1*DIGIT "." 1*DIGIT` starting at index `i`,
    /// returning the tokenizer and the index just past the minor digits.
    /// The terminator after the minor digits is the caller's to check.
    pub fn tokenize(s: &'a [u8], i: usize) -> (r: Result<(Tokenizer<'a>, usize), SyntaxError>)
        requires
            i <= s@.len(),
        ensures
            match r {
                Ok((t, j)) => tokenize_spec(s@, i as int) == Ok::<(TokView, int), SynView>(
                    (t@, j as int),
                ),
                Err(e) => tokenize_spec(s@, i as int) == Err::<(TokView, int), SynView>(e@),
            },
    {
        broadcast use crate::scan::lemma_find_nondigit_bounds;

        let n = s.len();
        let prefix_ok = n - i >= 4 && *vstd::slice::slice_index_get(s, i) == 83
            && *vstd::slice::slice_index_get(s, i + 1) == 73 && *vstd::slice::slice_index_get(
            s,
            i + 2,
        ) == 80 && *vstd::slice::slice_index_get(s, i + 3) == 47;
        if !prefix_ok {
            return Err(SyntaxError { rule: Rule::Version, pos: i });
        }
        let d1 = crate::scan::find_nondigit_from(s, i + 4);
        if d1 == i + 4 || d1 >= n || *vstd::slice::slice_index_get(s, d1) != 46 {
            return Err(SyntaxError { rule: Rule::Version, pos: d1 });
        }
        let d2 = crate::scan::find_nondigit_from(s, d1 + 1);
        if d2 == d1 + 1 {
            return Err(SyntaxError { rule: Rule::Version, pos: d2 });
        }
        let major = vstd::slice::slice_subrange(s, i + 4, d1);
        let minor = vstd::slice::slice_subrange(s, d1 + 1, d2);
        Ok((Tokenizer { major, minor }, d2))
    }
}

/// The version denoted by a pair of digit spans, if recognized.
pub open spec fn version_of(major: Seq<u8>, minor: Seq<u8>) -> Option<Version> {
    if major == seq![49u8] && minor == seq![48u8] {
        Some(Version::V1)
    } else if major == seq![50u8] && minor == seq![48u8] {
        Some(Version::V2)
    } else {
        None
    }
}

/// The canonical digits of a version, major `"."` minor.
pub open spec fn render_spec(v: Version) -> Seq<u8> {
    match v {
        Version::V1 => seq![49u8, 46u8, 48u8],
        Version::V2 => seq![50u8, 46u8, 48u8],
    }
}

impl Version {
    /// Converts a version tokenizer to the typed version, rejecting any
    /// digit sequence outside the recognized vocabulary.
    pub fn parse(t: &Tokenizer<'_>) -> (r: Result<Version, SemanticError>)
        ensures
            match version_of(t.major@, t.minor@) {
                Some(v) => r == Ok::<Version, SemanticError>(v),
                None => r == Err::<Version, SemanticError>(SemanticError::Version),
            },
    {
        let minor_zero = t.minor.len() == 1 && *vstd::slice::slice_index_get(t.minor, 0) == 48;
        if t.major.len() == 1 && minor_zero {
            let m = *vstd::slice::slice_index_get(t.major, 0);
            if m == 49 {
                proof {
                    assert(t.major@ =~= seq![49u8]);
                    assert(t.minor@ =~= seq![48u8]);
                }
                return Ok(Version::V1);
            }
            if m == 50 {
                proof {
                    assert(t.major@ =~= seq![50u8]);
                    assert(t.minor@ =~= seq![48u8]);
                }
                return Ok(Version::V2);
            }
        }
        proof {
            if t.major@ == seq![49u8] && t.minor@ == seq![48u8] {
                assert(t.major@.len() == 1 && t.major@[0] == 49);
                assert(t.minor@.len() == 1 && t.minor@[0] == 48);
            }
            if t.major@ == seq![50u8] && t.minor@ == seq![48u8] {
                assert(t.major@.len() == 1 && t.major@[0] == 50);
                assert(t.minor@.len() == 1 && t.minor@[0] == 48);
            }
        }
        Err(SemanticError::Version)
    }

    /// The canonical textual form of the version, major `"."` minor.
    pub fn render(&self) -> (r: Vec<u8>)
        ensures
            r@ == render_spec(*self),
    {
        let mut v: Vec<u8> = Vec::new();
        match self {
            Version::V1 => v.push(49),
            Version::V2 => v.push(50),
        }
        v.push(46);
        v.push(48);
        proof {
            assert(v@ =~= render_spec(*self));
        }
        v
    }
}

} // verus!

verus! {

/// A successful version scan makes progress and stays in bounds.
pub proof fn lemma_tokenize_ok_bounds(s: Seq<u8>, i: int)
    requires
        0 <= i <= s.len(),
    ensures
        tokenize_spec(s, i) matches Ok((t, j)) ==> i < j <= s.len(),
{
    broadcast use crate::scan::lemma_find_nondigit_bounds;

}

} // verus!
