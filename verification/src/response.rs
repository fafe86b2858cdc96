//! The response message: `status-line *header CRLF *OCTET`.  The tokenizer
//! walks the buffer once, producing borrowed spans only; `parse` converts
//! them into an owned `Response`, surfacing the first semantic error; and
//! `render` reproduces wire-format bytes.

use vstd::prelude::*;

verus! {

use crate::error::{Error, Rule, SemanticError, SynView, SyntaxError};
use crate::header::{self, Header, Headers};
use crate::scan::dec_str;
use crate::status_code::{self, StatusCode};
use crate::version::{self, Version};

/// An owned, mutable SIP response: status code, version, ordered headers and
/// an opaque body that this layer never parses.
#[derive(Debug, Clone, PartialEq, Eq)]
pub struct Response {
    pub status_code: StatusCode,
    pub version: Version,
    pub headers: Headers,
    pub body: Vec<u8>,
}

/// Ghost counterpart of a response.
pub ghost struct RespView {
    pub status_code: StatusCode,
    pub version: Version,
    pub headers: Seq<header::HeaderView>,
    pub body: Seq<u8>,
}

impl View for Response {
    type V = RespView;

    open spec fn view(&self) -> RespView {
        RespView {
            status_code: self.status_code,
            version: self.version,
            headers: self.headers@,
            body: self.body@,
        }
    }
}

/// Borrowed spans of one whole tokenized response, all aliasing the input
/// buffer: no byte is copied during tokenization.
#[derive(Debug, Clone, PartialEq, Eq)]
pub struct Tokenizer<'a> {
    pub version: version::Tokenizer<'a>,
    pub status_code: status_code::Tokenizer<'a>,
    pub headers: Vec<header::Tokenizer<'a>>,
    pub body: &'a [u8],
}

/// Ghost counterpart of the response tokenizer.
pub ghost struct TokView {
    pub version: version::TokView,
    pub status_code: status_code::TokView,
    pub headers: Seq<header::TokView>,
    pub body: Seq<u8>,
}

impl<'a> View for Tokenizer<'a> {
    type V = TokView;

    open spec fn view(&self) -> TokView {
        TokView {
            version: self.version@,
            status_code: self.status_code@,
            headers: header::views(self.headers@),
            body: self.body@,
        }
    }
}

/// What tokenizing one complete response buffer yields: the status line, the
/// headers up to where the header pattern stops matching, a mandatory CRLF
/// separator, and the rest of the buffer as the body.
pub open spec fn tokenize_spec(s: Seq<u8>) -> Result<TokView, SynView> {
    match version::tokenize_spec(s, 0) {
        Err(e) => Err(e),
        Ok((v, p)) => match status_code::tokenize_spec(s, p) {
            Err(e) => Err(e),
            Ok((st, q)) => {
                let hl = header::list_spec(s, q);
                if hl.1 + 2 <= s.len() && s[hl.1] == 13 && s[hl.1 + 1] == 10 {
                    Ok(
                        TokView {
                            version: v,
                            status_code: st,
                            headers: hl.0,
                            body: s.subrange(hl.1 + 2, s.len() as int),
                        },
                    )
                } else {
                    Err(SynView { rule: Rule::Separator, pos: hl.1 })
                }
            },
        },
    }
}

impl<'a> Tokenizer<'a> {
    /// Tokenizes one complete response buffer.  All spans of the result alias
    /// `part`; the remaining slice of a successful result is empty, since the
    /// body takes everything after the separator.
    pub fn tokenize(part: &'a [u8]) -> (r: Result<(&'a [u8], Tokenizer<'a>), SyntaxError>)
        ensures
            match r {
                Ok((rem, t)) => tokenize_spec(part@) == Ok::<TokView, SynView>(t@) && rem@
                    == Seq::<u8>::empty(),
                Err(e) => tokenize_spec(part@) == Err::<TokView, SynView>(e@),
            },
    {
        let n = part.len();
        let (ver, p) = match version::Tokenizer::tokenize(part, 0) {
            Err(e) => {
                return Err(e);
            },
            Ok(vp) => vp,
        };
        proof {
            version::lemma_tokenize_ok_bounds(part@, 0);
        }
        let (st, q) = match status_code::Tokenizer::tokenize_with_reason(part, p) {
            Err(e) => {
                return Err(e);
            },
            Ok(sq) => sq,
        };
        proof {
            status_code::lemma_tokenize_ok_bounds(part@, p as int);
        }
        let (hdrs, hend) = header::Tokenizer::tokenize_list(part, q);
        if n - hend >= 2 && *vstd::slice::slice_index_get(part, hend) == 13
            && *vstd::slice::slice_index_get(part, hend + 1) == 10 {
            let body = vstd::slice::slice_subrange(part, hend + 2, n);
            let rem = vstd::slice::slice_subrange(part, n, n);
            proof {
                assert(rem@ =~= Seq::<u8>::empty());
            }
            Ok((rem, Tokenizer { version: ver, status_code: st, headers: hdrs, body }))
        } else {
            Err(SyntaxError { rule: Rule::Separator, pos: hend })
        }
    }
}

/// The owned response a tokenized response denotes: an unrecognized version
/// is the first semantic error, an out-of-range status code the second;
/// header and body conversion are total, and header order is preserved.
pub open spec fn response_of(t: TokView) -> Result<RespView, SemanticError> {
    match version::version_of(t.version.major, t.version.minor) {
        None => Err(SemanticError::Version),
        Some(v) => match status_code::status_of(t.status_code.code) {
            None => Err(SemanticError::StatusCode),
            Some(c) => Ok(
                RespView {
                    status_code: StatusCode(c),
                    version: v,
                    headers: header::headers_of(t.headers),
                    body: t.body,
                },
            ),
        },
    }
}

impl Response {
    /// Converts a tokenized response into an owned one.  Conversion is total
    /// over every tokenizer value: it returns the owned response or the
    /// first semantic error, never a partial value.
    pub fn parse(tokenizer: Tokenizer<'_>) -> (r: Result<Response, Error>)
        ensures
            match response_of(tokenizer@) {
                Ok(g) => r matches Ok(resp) && resp@ == g,
                Err(e) => r == Err::<Response, Error>(Error::Semantic(e)),
            },
    {
        let version = match Version::parse(&tokenizer.version) {
            Err(e) => {
                return Err(Error::Semantic(e));
            },
            Ok(v) => v,
        };
        let status_code = match StatusCode::parse(&tokenizer.status_code) {
            Err(e) => {
                return Err(Error::Semantic(e));
            },
            Ok(c) => c,
        };
        let mut headers = Headers::new();
        let m = tokenizer.headers.len();
        let mut i: usize = 0;
        while i < m
            invariant
                0 <= i <= m,
                m == tokenizer.headers@.len(),
                headers@ == header::headers_of(
                    header::views(tokenizer.headers@).subrange(0, i as int),
                ),
            decreases m - i,
        {
            let htok = *vstd::slice::slice_index_get(tokenizer.headers.as_slice(), i);
            let h = Header::parse(&htok);
            let ghost before = headers@;
            headers.push(h);
            proof {
                let tv = header::views(tokenizer.headers@);
                assert(htok@ == tv[i as int]);
                assert(headers@ == before.push(h@));
                assert(headers@.len() == i + 1);
                assert forall|k: int| 0 <= k < i + 1 implies headers@[k] == header::headers_of(
                    tv.subrange(0, i + 1),
                )[k] by {
                    assert(header::headers_of(tv.subrange(0, i + 1))[k] == header::header_of(
                        tv[k],
                    ));
                    if k < i {
                        assert(headers@[k] == before[k]);
                        assert(before[k] == header::headers_of(tv.subrange(0, i as int))[k]);
                    } else {
                        assert(headers@[k] == h@);
                    }
                }
                assert(headers@ =~= header::headers_of(tv.subrange(0, i + 1)));
            }
            i = i + 1;
        }
        proof {
            assert(header::views(tokenizer.headers@).subrange(
                0,
                tokenizer.headers@.len() as int,
            ) =~= header::views(tokenizer.headers@));
        }
        let body = vstd::slice::slice_to_vec(tokenizer.body);
        Ok(Response { status_code, version, headers, body })
    }

    /// The status code of this response.
    pub fn status_code(&self) -> (r: &StatusCode)
        ensures
            *r == self.status_code,
    {
        &self.status_code
    }

    /// The protocol version of this response.
    pub fn version(&self) -> (r: &Version)
        ensures
            *r == self.version,
    {
        &self.version
    }

    /// The ordered header collection of this response.
    pub fn headers(&self) -> (r: &Headers)
        ensures
            *r == self.headers,
    {
        &self.headers
    }

    /// Write access to the headers; every other field is untouched.
    pub fn headers_mut(&mut self) -> (r: &mut Headers)
        ensures
            *r == old(self).headers,
            final(self).headers == *final(r),
            final(self).status_code == old(self).status_code,
            final(self).version == old(self).version,
            final(self).body == old(self).body,
    {
        &mut self.headers
    }

    /// The opaque body bytes of this response.
    pub fn body(&self) -> (r: &Vec<u8>)
        ensures
            *r == self.body,
    {
        &self.body
    }

    /// Write access to the body; every other field is untouched.
    pub fn body_mut(&mut self) -> (r: &mut Vec<u8>)
        ensures
            *r == old(self).body,
            final(self).body == *final(r),
            final(self).status_code == old(self).status_code,
            final(self).version == old(self).version,
            final(self).headers == old(self).headers,
    {
        &mut self.body
    }

    /// Narrows a message to its response variant.  Viewing a message that
    /// holds a request as a response fails with this static error text.
    pub fn try_from(sip_message: crate::SipMessage) -> (r: Result<Response, &'static str>)
        ensures
            match sip_message {
                crate::SipMessage::Response(resp) => r == Ok::<Response, &'static str>(resp),
                crate::SipMessage::Request(_) => r matches Err(m) && m@
                    == "Can't convert a models::SipMessage::Response into Request !"@,
            },
    {
        match sip_message {
            crate::SipMessage::Request(_) => Err(
                "Can't convert a models::SipMessage::Response into Request !",
            ),
            crate::SipMessage::Response(response) => Ok(response),
        }
    }

    /// Tokenizes and converts one complete response buffer: the convenience
    /// composition of the two pipeline phases.
    pub fn try_from_slice(buf: &[u8]) -> (r: Result<Response, Error>)
        ensures
            r matches Ok(resp) ==> tokenize_spec(buf@) matches Ok(t) && response_of(t)
                == Ok::<RespView, SemanticError>(resp@),
            r matches Err(err) ==> match err {
                Error::Syntax(e) => tokenize_spec(buf@) == Err::<TokView, SynView>(e@),
                Error::Semantic(e) => tokenize_spec(buf@) matches Ok(t) && response_of(t)
                    == Err::<RespView, SemanticError>(e),
            },
    {
        match Tokenizer::tokenize(buf) {
            Err(e) => Err(Error::Syntax(e)),
            Ok((_, t)) => Self::parse(t),
        }
    }

    /// The wire text of this response: the status line with an empty reason
    /// phrase, every header in order, the separator, then the body verbatim.
    pub fn render(&self) -> (r: Vec<u8>)
        ensures
            r@ == render_spec(self@),
    {
        let mut out: Vec<u8> = Vec::new();
        out.push(83);
        out.push(73);
        out.push(80);
        out.push(47);
        let ver = self.version.render();
        crate::scan::extend_bytes(&mut out, ver.as_slice());
        out.push(32);
        let ghost s1 = out@;
        let code = crate::scan::dec_u16(self.status_code.0);
        crate::scan::extend_bytes(&mut out, code.as_slice());
        out.push(32);
        out.push(13);
        out.push(10);
        let ghost s2 = out@;
        self.headers.render_onto(&mut out);
        out.push(13);
        out.push(10);
        let ghost s3 = out@;
        crate::scan::extend_bytes(&mut out, self.body.as_slice());
        proof {
            assert(s1 =~= seq![83u8, 73u8, 80u8, 47u8] + version::render_spec(self.version) + seq![
                32u8,
            ]);
            assert(s2 =~= s1 + dec_str(self.status_code.0 as int) + seq![32u8, 13u8, 10u8]);
            assert(s3 =~= s2 + header::headers_render_spec(self@.headers) + seq![13u8, 10u8]);
            assert(out@ =~= render_spec(self@));
        }
        out
    }
}

/// The wire text of an owned response.  The reason phrase is not part of the
/// owned value, so it renders empty; that is the one presentation variance
/// the round-trip contract allows here.
pub open spec fn render_spec(r: RespView) -> Seq<u8> {
    seq![83u8, 73u8, 80u8, 47u8] + version::render_spec(r.version) + seq![32u8] + dec_str(
        r.status_code.0 as int,
    ) + seq![32u8, 13u8, 10u8] + header::headers_render_spec(r.headers) + seq![13u8, 10u8] + r.body
}

/// The shape an owned response must have for its wire text to tokenize and
/// convert back to itself: a status code in range and well-formed headers.
pub open spec fn wf_spec(r: RespView) -> bool {
    &&& r.status_code.wf()
    &&& header::list_wf_spec(r.headers)
}

} // verus!

verus! {

#[verifier::external_type_specification]
#[verifier::external_body]
pub struct ExBytes(bytes::Bytes);

/// The bytes a `bytes::Bytes` buffer holds, a function of the buffer value
/// alone.
pub uninterp spec fn bytes_content(b: bytes::Bytes) -> Seq<u8>;

/// Relies on `<bytes::Bytes as AsRef<[u8]>>::as_ref`: returns a slice of
/// exactly the bytes the buffer holds.
#[verifier::external_body]
fn bytes_slice(b: &bytes::Bytes) -> (r: &[u8])
    ensures
        r@ == bytes_content(*b),
{
    b.as_ref()
}

impl Response {
    /// Tokenizes and converts one complete response held in a `bytes::Bytes`
    /// buffer, exactly as `try_from_slice` does on its contents.
    pub fn try_from_bytes(buf: &bytes::Bytes) -> (r: Result<Response, Error>)
        ensures
            r matches Ok(resp) ==> tokenize_spec(bytes_content(*buf)) matches Ok(t)
                && response_of(t) == Ok::<RespView, SemanticError>(resp@),
            r matches Err(err) ==> match err {
                Error::Syntax(e) => tokenize_spec(bytes_content(*buf)) == Err::<TokView, SynView>(
                    e@,
                ),
                Error::Semantic(e) => tokenize_spec(bytes_content(*buf)) matches Ok(t)
                    && response_of(t) == Err::<RespView, SemanticError>(e),
            },
    {
        Self::try_from_slice(bytes_slice(buf))
    }
}

} // verus!

verus! {

use crate::scan::{all_digits, dec_val, is_digit};

/// Tokenizing and converting the rendered text of a well-formed response
/// gives back exactly that response.  In particular, a header collection —
/// repeated names included — keeps its order and count through a full
/// render and re-parse.
#[verifier::rlimit(100)]
#[verifier::spinoff_prover]
pub proof fn lemma_response_round_trip(r: RespView)
    requires
        wf_spec(r),
    ensures
        tokenize_spec(render_spec(r)) matches Ok(t) && response_of(t) == Ok::<
            RespView,
            SemanticError,
        >(r),
{
    let s = render_spec(r);
    let vr = version::render_spec(r.version);
    let cs = dec_str(r.status_code.0 as int);
    let hr = header::headers_render_spec(r.headers);
    let hl = hr.len() as int;
    crate::scan::lemma_dec_str_val(r.status_code.0 as int);
    crate::scan::lemma_dec_str_len3(r.status_code.0 as int);
    assert(vr.len() == 3);
    assert(cs.len() == 3);
    assert(s.len() == 16 + hl + r.body.len());
    assert(s[0] == 83 && s[1] == 73 && s[2] == 80 && s[3] == 47);
    assert(s[4] == vr[0] && s[5] == vr[1] && s[6] == vr[2]);
    assert(s[7] == 32);
    assert(s[8] == cs[0] && s[9] == cs[1] && s[10] == cs[2]);
    assert(s[11] == 32 && s[12] == 13 && s[13] == 10);
    // The version: `SIP/` then one digit, the dot, one digit, then a space.
    assert(crate::version::sip_prefix(s, 0));
    assert(is_digit(s[4]) && s[5] == 46 && is_digit(s[6]) && !is_digit(s[7]));
    crate::scan::lemma_find_nondigit_exact(s, 4, 5);
    crate::scan::lemma_find_nondigit_exact(s, 6, 7);
    let major = s.subrange(4, 5);
    let minor = s.subrange(6, 7);
    assert(version::tokenize_spec(s, 0) == Ok::<(version::TokView, int), SynView>(
        (version::TokView { major, minor }, 7),
    ));
    assert(major =~= seq![s[4]]);
    assert(minor =~= seq![s[6]]);
    assert(version::version_of(major, minor) == Some(r.version)) by {
        match r.version {
            Version::V1 => {
                assert(major =~= seq![49u8]);
                assert(minor =~= seq![48u8]);
            },
            Version::V2 => {
                assert(major =~= seq![50u8]);
                assert(minor =~= seq![48u8]);
                assert(seq![50u8] != seq![49u8]) by {
                    assert(seq![50u8][0] == 50);
                }
            },
        }
    }
    // The status line tail: space, three digits, space, empty reason, CRLF.
    assert(is_digit(s[8]) && is_digit(s[9]) && is_digit(s[10]));
    crate::scan::lemma_find_crlf_exact(s, 12, 12);
    assert(status_code::tokenize_spec(s, 7) == Ok::<(status_code::TokView, int), SynView>(
        (status_code::TokView { code: s.subrange(8, 11), reason: s.subrange(12, 12) }, 14),
    ));
    assert(s.subrange(8, 11) =~= cs);
    // The headers, then the mandatory separator, then the body.
    let after = seq![13u8, 10u8] + r.body;
    assert(s.subrange(14, s.len() as int) =~= hr + after) by {
        assert forall|k: int| 0 <= k < s.len() - 14 implies #[trigger] s.subrange(
            14,
            s.len() as int,
        )[k] == (hr + after)[k] by {
            assert(s.subrange(14, s.len() as int)[k] == s[14 + k]);
        }
    }
    header::lemma_headers_round_trip(s, 14, r.headers, after);
    let ts = header::list_spec(s, 14).0;
    let hend = 14 + hl;
    assert(header::list_spec(s, 14).1 == hend);
    assert(s[hend] == 13 && s[hend + 1] == 10) by {
        assert(s.subrange(14, s.len() as int)[hl] == s[hend]);
        assert((hr + after)[hl] == after[0]);
        assert(s.subrange(14, s.len() as int)[hl + 1] == s[hend + 1]);
        assert((hr + after)[hl + 1] == after[1]);
    }
    let tok = TokView {
        version: version::TokView { major, minor },
        status_code: status_code::TokView { code: cs, reason: Seq::empty() },
        headers: ts,
        body: s.subrange(hend + 2, s.len() as int),
    };
    assert(s.subrange(12, 12) =~= Seq::<u8>::empty());
    assert(tokenize_spec(s) == Ok::<TokView, SynView>(tok));
    assert(s.subrange(hend + 2, s.len() as int) =~= r.body) by {
        assert forall|k: int| 0 <= k < r.body.len() implies #[trigger] s.subrange(
            hend + 2,
            s.len() as int,
        )[k] == r.body[k] by {
            assert(s.subrange(hend + 2, s.len() as int)[k] == s[hend + 2 + k]);
            assert(s.subrange(14, s.len() as int)[hl + 2 + k] == s[hend + 2 + k]);
            assert((hr + after)[hl + 2 + k] == after[2 + k]);
            assert(after[2 + k] == r.body[k]);
        }
    }
    assert(status_code::status_of(cs) == Some(r.status_code.0)) by {
        assert(cs.len() == 3 && all_digits(cs));
        assert(dec_val(cs) == r.status_code.0 as int);
    }
    assert(response_of(tok) == Ok::<RespView, SemanticError>(r)) by {
        assert(header::headers_of(ts) == r.headers);
        assert(StatusCode(r.status_code.0) == r.status_code);
    }
}

} // verus!

verus! {

use vstd::string::StringSliceAdditionalSpecFns;

impl Response {
    /// Tokenizes and converts one complete response given as text; the
    /// pipeline runs on the text's UTF-8 bytes.
    pub fn try_from_str(buf: &str) -> (r: Result<Response, Error>)
        ensures
            r matches Ok(resp) ==> tokenize_spec(buf.spec_bytes()) matches Ok(t) && response_of(t)
                == Ok::<RespView, SemanticError>(resp@),
            r matches Err(err) ==> match err {
                Error::Syntax(e) => tokenize_spec(buf.spec_bytes()) == Err::<TokView, SynView>(e@),
                Error::Semantic(e) => tokenize_spec(buf.spec_bytes()) matches Ok(t)
                    && response_of(t) == Err::<RespView, SemanticError>(e),
            },
    {
        Self::try_from_slice(buf.as_bytes())
    }
}

} // verus!

verus! {

/// Conversion is total over every tokenizer value: it yields an owned view
/// whose every field is determined by the tokenizer, or a semantic error,
/// exactly when the version or the status code is invalid — never a partial
/// value.  (That the executable `parse` cannot panic is part of its
/// verification: it has no precondition.)
pub proof fn lemma_conversion_total(t: TokView)
    ensures
        response_of(t) matches Ok(g) ==> {
            &&& version::version_of(t.version.major, t.version.minor) == Some(g.version)
            &&& status_code::status_of(t.status_code.code) == Some(g.status_code.0)
            &&& g.headers == header::headers_of(t.headers)
            &&& g.body == t.body
        },
        response_of(t) is Err <==> (version::version_of(t.version.major, t.version.minor) is None
            || status_code::status_of(t.status_code.code) is None),
{
}

} // verus!
