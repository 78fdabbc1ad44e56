//! Error payloads of the distribution (registry) specification.

use vstd::prelude::*;

use crate::error::OciSpecError;
use crate::json::{
    render_tokens, str_chars, tokenize_chars, push_tok, str_eq_lit, flat, render, sp_tokenize,
    sp_v_str, sp_v_opt_str, sp_skip_val, skip_val_exec, stream_ok, lemma_tokenize_render, GTok,
    Token,
};

verus! {

broadcast use vstd::string::group_string_axioms;

/// The string returned by an ErrorResponse error.
pub const ERR_REGISTRY: &'static str = "distribution: registry returned error";

/// Unique identifier representing an error code of the distribution
/// specification; a closed set, so an unknown literal refuses to decode.
#[derive(Clone, Copy, Debug, PartialEq, Eq, Structural)]
pub enum ErrorCode {
    /// Blob unknown to registry.
    BlobUnknown,
    /// Blob upload invalid.
    BlobUploadInvalid,
    /// Blob upload unknown to registry.
    BlobUploadUnknown,
    /// Provided digest did not match uploaded content.
    DigestInvalid,
    /// Blob unknown to registry.
    ManifestBlobUnknown,
    /// Manifest invalid.
    ManifestInvalid,
    /// Manifest unknown.
    ManifestUnknown,
    /// Invalid repository name.
    NameInvalid,
    /// Repository name not known to registry.
    NameUnknown,
    /// Provided length did not match content length.
    SizeInvalid,
    /// Authentication required.
    Unauthorized,
    /// Requested access to the resource is denied.
    Denied,
    /// The operation is unsupported.
    Unsupported,
    /// Too many requests; its wire literal is irregular, with no
    /// underscores.
    TooManyRequests,
}

/// The wire literal of an error code: upper snake case, except the
/// irregular final member.
pub open spec fn ec_wire(c: ErrorCode) -> Seq<char> {
    match c {
        ErrorCode::BlobUnknown => "BLOB_UNKNOWN"@,
        ErrorCode::BlobUploadInvalid => "BLOB_UPLOAD_INVALID"@,
        ErrorCode::BlobUploadUnknown => "BLOB_UPLOAD_UNKNOWN"@,
        ErrorCode::DigestInvalid => "DIGEST_INVALID"@,
        ErrorCode::ManifestBlobUnknown => "MANIFEST_BLOB_UNKNOWN"@,
        ErrorCode::ManifestInvalid => "MANIFEST_INVALID"@,
        ErrorCode::ManifestUnknown => "MANIFEST_UNKNOWN"@,
        ErrorCode::NameInvalid => "NAME_INVALID"@,
        ErrorCode::NameUnknown => "NAME_UNKNOWN"@,
        ErrorCode::SizeInvalid => "SIZE_INVALID"@,
        ErrorCode::Unauthorized => "UNAUTHORIZED"@,
        ErrorCode::Denied => "DENIED"@,
        ErrorCode::Unsupported => "UNSUPPORTED"@,
        ErrorCode::TooManyRequests => "TOOMANYREQUESTS"@,
    }
}

/// The error code of a wire literal, if it names one.
pub open spec fn ec_parse(s: Seq<char>) -> Option<ErrorCode> {
    if s == "BLOB_UNKNOWN"@ {
        Some(ErrorCode::BlobUnknown)
    } else if s == "BLOB_UPLOAD_INVALID"@ {
        Some(ErrorCode::BlobUploadInvalid)
    } else if s == "BLOB_UPLOAD_UNKNOWN"@ {
        Some(ErrorCode::BlobUploadUnknown)
    } else if s == "DIGEST_INVALID"@ {
        Some(ErrorCode::DigestInvalid)
    } else if s == "MANIFEST_BLOB_UNKNOWN"@ {
        Some(ErrorCode::ManifestBlobUnknown)
    } else if s == "MANIFEST_INVALID"@ {
        Some(ErrorCode::ManifestInvalid)
    } else if s == "MANIFEST_UNKNOWN"@ {
        Some(ErrorCode::ManifestUnknown)
    } else if s == "NAME_INVALID"@ {
        Some(ErrorCode::NameInvalid)
    } else if s == "NAME_UNKNOWN"@ {
        Some(ErrorCode::NameUnknown)
    } else if s == "SIZE_INVALID"@ {
        Some(ErrorCode::SizeInvalid)
    } else if s == "UNAUTHORIZED"@ {
        Some(ErrorCode::Unauthorized)
    } else if s == "DENIED"@ {
        Some(ErrorCode::Denied)
    } else if s == "UNSUPPORTED"@ {
        Some(ErrorCode::Unsupported)
    } else if s == "TOOMANYREQUESTS"@ {
        Some(ErrorCode::TooManyRequests)
    } else {
        None
    }
}

/// Reading back a written error code yields the same code.
pub proof fn lemma_ec_rt(c: ErrorCode)
    ensures
        ec_parse(ec_wire(c)) == Some(c),
{
    reveal_strlit("BLOB_UNKNOWN");
    reveal_strlit("BLOB_UPLOAD_INVALID");
    reveal_strlit("BLOB_UPLOAD_UNKNOWN");
    reveal_strlit("DIGEST_INVALID");
    reveal_strlit("MANIFEST_BLOB_UNKNOWN");
    reveal_strlit("MANIFEST_INVALID");
    reveal_strlit("MANIFEST_UNKNOWN");
    reveal_strlit("NAME_INVALID");
    reveal_strlit("NAME_UNKNOWN");
    reveal_strlit("SIZE_INVALID");
    reveal_strlit("UNAUTHORIZED");
    reveal_strlit("DENIED");
    reveal_strlit("UNSUPPORTED");
    reveal_strlit("TOOMANYREQUESTS");
    assert("BLOB_UNKNOWN"@.len() == 12);
    assert("BLOB_UPLOAD_INVALID"@.len() == 19);
    assert("BLOB_UPLOAD_UNKNOWN"@.len() == 19);
    assert("DIGEST_INVALID"@.len() == 14);
    assert("MANIFEST_BLOB_UNKNOWN"@.len() == 21);
    assert("MANIFEST_INVALID"@.len() == 16);
    assert("MANIFEST_UNKNOWN"@.len() == 16);
    assert("NAME_INVALID"@.len() == 12);
    assert("NAME_UNKNOWN"@.len() == 12);
    assert("SIZE_INVALID"@.len() == 12);
    assert("UNAUTHORIZED"@.len() == 12);
    assert("DENIED"@.len() == 6);
    assert("UNSUPPORTED"@.len() == 11);
    assert("TOOMANYREQUESTS"@.len() == 15);
    // Same-length literals differ at a witnessed position.
    assert("BLOB_UPLOAD_UNKNOWN"@[12] != "BLOB_UPLOAD_INVALID"@[12]);
    assert("MANIFEST_UNKNOWN"@[9] != "MANIFEST_INVALID"@[9]);
    assert("NAME_INVALID"@[0] != "BLOB_UNKNOWN"@[0]);
    assert("NAME_UNKNOWN"@[0] != "BLOB_UNKNOWN"@[0]);
    assert("NAME_UNKNOWN"@[5] != "NAME_INVALID"@[5]);
    assert("SIZE_INVALID"@[0] != "BLOB_UNKNOWN"@[0]);
    assert("SIZE_INVALID"@[0] != "NAME_INVALID"@[0]);
    assert("SIZE_INVALID"@[0] != "NAME_UNKNOWN"@[0]);
    assert("UNAUTHORIZED"@[0] != "BLOB_UNKNOWN"@[0]);
    assert("UNAUTHORIZED"@[0] != "NAME_INVALID"@[0]);
    assert("UNAUTHORIZED"@[0] != "NAME_UNKNOWN"@[0]);
    assert("UNAUTHORIZED"@[0] != "SIZE_INVALID"@[0]);
}

impl ErrorCode {
    /// The wire literal this code serializes to.
    pub fn wire(&self) -> (r: String)
        ensures
            r@ == ec_wire(*self),
    {
        match self {
            ErrorCode::BlobUnknown => "BLOB_UNKNOWN".to_owned(),
            ErrorCode::BlobUploadInvalid => "BLOB_UPLOAD_INVALID".to_owned(),
            ErrorCode::BlobUploadUnknown => "BLOB_UPLOAD_UNKNOWN".to_owned(),
            ErrorCode::DigestInvalid => "DIGEST_INVALID".to_owned(),
            ErrorCode::ManifestBlobUnknown => "MANIFEST_BLOB_UNKNOWN".to_owned(),
            ErrorCode::ManifestInvalid => "MANIFEST_INVALID".to_owned(),
            ErrorCode::ManifestUnknown => "MANIFEST_UNKNOWN".to_owned(),
            ErrorCode::NameInvalid => "NAME_INVALID".to_owned(),
            ErrorCode::NameUnknown => "NAME_UNKNOWN".to_owned(),
            ErrorCode::SizeInvalid => "SIZE_INVALID".to_owned(),
            ErrorCode::Unauthorized => "UNAUTHORIZED".to_owned(),
            ErrorCode::Denied => "DENIED".to_owned(),
            ErrorCode::Unsupported => "UNSUPPORTED".to_owned(),
            ErrorCode::TooManyRequests => "TOOMANYREQUESTS".to_owned(),
        }
    }

    /// The code a wire literal names, if any.
    pub fn from_wire(s: &String) -> (r: Option<ErrorCode>)
        ensures
            r == ec_parse(s@),
    {
        if str_eq_lit(s, "BLOB_UNKNOWN") {
            Some(ErrorCode::BlobUnknown)
        } else if str_eq_lit(s, "BLOB_UPLOAD_INVALID") {
            Some(ErrorCode::BlobUploadInvalid)
        } else if str_eq_lit(s, "BLOB_UPLOAD_UNKNOWN") {
            Some(ErrorCode::BlobUploadUnknown)
        } else if str_eq_lit(s, "DIGEST_INVALID") {
            Some(ErrorCode::DigestInvalid)
        } else if str_eq_lit(s, "MANIFEST_BLOB_UNKNOWN") {
            Some(ErrorCode::ManifestBlobUnknown)
        } else if str_eq_lit(s, "MANIFEST_INVALID") {
            Some(ErrorCode::ManifestInvalid)
        } else if str_eq_lit(s, "MANIFEST_UNKNOWN") {
            Some(ErrorCode::ManifestUnknown)
        } else if str_eq_lit(s, "NAME_INVALID") {
            Some(ErrorCode::NameInvalid)
        } else if str_eq_lit(s, "NAME_UNKNOWN") {
            Some(ErrorCode::NameUnknown)
        } else if str_eq_lit(s, "SIZE_INVALID") {
            Some(ErrorCode::SizeInvalid)
        } else if str_eq_lit(s, "UNAUTHORIZED") {
            Some(ErrorCode::Unauthorized)
        } else if str_eq_lit(s, "DENIED") {
            Some(ErrorCode::Denied)
        } else if str_eq_lit(s, "UNSUPPORTED") {
            Some(ErrorCode::Unsupported)
        } else if str_eq_lit(s, "TOOMANYREQUESTS") {
            Some(ErrorCode::TooManyRequests)
        } else {
            None
        }
    }
}

/// Describes a server error returned from a registry.
#[derive(Clone, Debug)]
pub struct ErrorInfo {
    /// The unique identifier of the error.
    pub code: ErrorCode,
    /// An optional human readable message.
    pub message: Option<String>,
    /// Optional data the client can use to resolve the issue.
    pub detail: Option<String>,
}

/// The mathematical value of an [`ErrorInfo`].
#[verifier::ext_equal]
pub struct ErrorInfoV {
    pub code: ErrorCode,
    pub message: Option<Seq<char>>,
    pub detail: Option<Seq<char>>,
}

impl View for ErrorInfo {
    type V = ErrorInfoV;

    open spec fn view(&self) -> ErrorInfoV {
        ErrorInfoV {
            code: self.code,
            message: self.message.deep_view(),
            detail: self.detail.deep_view(),
        }
    }
}

impl DeepView for ErrorInfo {
    type V = ErrorInfoV;

    open spec fn deep_view(&self) -> ErrorInfoV {
        self.view()
    }
}

// --- encoding ---

/// Tokens from the `detail` field on: the field when present, then the
/// closing brace.
pub open spec fn einfo_tail3(v: ErrorInfoV) -> Seq<GTok> {
    match v.detail {
        Some(d) => seq![GTok::Comma, GTok::Lit("detail"@), GTok::Colon, GTok::Lit(d), GTok::RBrace],
        None => seq![GTok::RBrace],
    }
}

/// Tokens from the `message` field on.
pub open spec fn einfo_tail2(v: ErrorInfoV) -> Seq<GTok> {
    match v.message {
        Some(m) => seq![GTok::Comma, GTok::Lit("message"@), GTok::Colon, GTok::Lit(m)]
            + einfo_tail3(v),
        None => einfo_tail3(v),
    }
}

/// The tokens of an encoded error description: fields in declaration order,
/// absent optional fields omitted.
pub open spec fn toks_error_info(v: ErrorInfoV) -> Seq<GTok> {
    seq![GTok::LBrace, GTok::Lit("code"@), GTok::Colon, GTok::Lit(ec_wire(v.code))] + einfo_tail2(
        v,
    )
}

/// An encoded error description is a well-separated stream.
pub proof fn lemma_einfo_stream_ok(v: ErrorInfoV)
    ensures
        stream_ok(toks_error_info(v)),
{
}

// --- parsing ---

/// Finalizes a parsed error description: the code is required, the rest
/// default to absent.
pub open spec fn sp_einfo_fin(
    code: Option<ErrorCode>,
    msg: Option<Option<Seq<char>>>,
    det: Option<Option<Seq<char>>>,
    rest: Seq<GTok>,
) -> Option<(ErrorInfoV, Seq<GTok>)> {
    match code {
        Some(c) => Some((ErrorInfoV { code: c, message: flat(msg), detail: flat(det) }, rest)),
        None => None,
    }
}

/// After a field's value: a comma continues with more fields, a closing
/// brace finalizes.
pub open spec fn sp_einfo_after(
    ts: Seq<GTok>,
    code: Option<ErrorCode>,
    msg: Option<Option<Seq<char>>>,
    det: Option<Option<Seq<char>>>,
) -> Option<(ErrorInfoV, Seq<GTok>)>
    decreases ts.len(), 0int,
{
    if ts.len() == 0 {
        None
    } else if ts[0] is Comma {
        sp_einfo_fields(ts.skip(1), code, msg, det)
    } else if ts[0] is RBrace {
        sp_einfo_fin(code, msg, det, ts.skip(1))
    } else {
        None
    }
}

/// At a field's key: known keys parse their typed value once, an unknown key
/// has its value passed over.
pub open spec fn sp_einfo_fields(
    ts: Seq<GTok>,
    code: Option<ErrorCode>,
    msg: Option<Option<Seq<char>>>,
    det: Option<Option<Seq<char>>>,
) -> Option<(ErrorInfoV, Seq<GTok>)>
    decreases ts.len(), 1int,
{
    if ts.len() < 2 || !(ts[1] is Colon) {
        None
    } else {
        match ts[0] {
            GTok::Lit(k) => {
                let vts = ts.skip(2);
                if k == "code"@ {
                    if code is Some {
                        None
                    } else {
                        match sp_v_str(vts) {
                            Some((s, r)) => match ec_parse(s) {
                                Some(c) => if r.len() < ts.len() {
                                    sp_einfo_after(r, Some(c), msg, det)
                                } else {
                                    None
                                },
                                None => None,
                            },
                            None => None,
                        }
                    }
                } else if k == "message"@ {
                    if msg is Some {
                        None
                    } else {
                        match sp_v_opt_str(vts) {
                            Some((m, r)) => if r.len() < ts.len() {
                                sp_einfo_after(r, code, Some(m), det)
                            } else {
                                None
                            },
                            None => None,
                        }
                    }
                } else if k == "detail"@ {
                    if det is Some {
                        None
                    } else {
                        match sp_v_opt_str(vts) {
                            Some((d, r)) => if r.len() < ts.len() {
                                sp_einfo_after(r, code, msg, Some(d))
                            } else {
                                None
                            },
                            None => None,
                        }
                    }
                } else {
                    match sp_skip_val(vts) {
                        Some(r) => if r.len() < ts.len() {
                            sp_einfo_after(r, code, msg, det)
                        } else {
                            None
                        },
                        None => None,
                    }
                }
            },
            _ => None,
        }
    }
}

/// Parses one error description object.
pub open spec fn sp_error_info(ts: Seq<GTok>) -> Option<(ErrorInfoV, Seq<GTok>)> {
    if ts.len() < 2 || !(ts[0] is LBrace) {
        None
    } else if ts[1] is RBrace {
        sp_einfo_fin(None, None, None, ts.skip(2))
    } else {
        sp_einfo_fields(ts.skip(1), None, None, None)
    }
}

// --- the round trip, field by field ---

proof fn lemma_einfo_rt3(
    v: ErrorInfoV,
    rest: Seq<GTok>,
    msg: Option<Option<Seq<char>>>,
)
    requires
        flat(msg) == v.message,
    ensures
        sp_einfo_after(einfo_tail3(v) + rest, Some(v.code), msg, None) == Some((v, rest)),
{
    reveal_strlit("code");
    reveal_strlit("message");
    reveal_strlit("detail");
    assert("code"@.len() == 4 && "message"@.len() == 7 && "detail"@.len() == 6);
    let ts = einfo_tail3(v) + rest;
    match v.detail {
        None => {
            assert(ts[0] is RBrace);
            assert(ts.skip(1) =~= rest);
            assert(ErrorInfoV { code: v.code, message: flat(msg), detail: flat(None) } =~= v);
        },
        Some(d) => {
            assert(ts[0] is Comma);
            let fs = ts.skip(1);
            assert(fs[0] == GTok::Lit("detail"@) && fs[1] is Colon);
            assert(!("detail"@ == "code"@) && !("detail"@ == "message"@));
            let vts = fs.skip(2);
            assert(vts =~= seq![GTok::Lit(d), GTok::RBrace] + rest);
            assert(sp_v_opt_str(vts) == Some((Some(d), vts.skip(1))));
            let r = vts.skip(1);
            assert(r =~= seq![GTok::RBrace] + rest);
            assert(r.len() < fs.len());
            assert(r[0] is RBrace);
            assert(r.skip(1) =~= rest);
            assert(sp_einfo_after(r, Some(v.code), msg, Some(Some(d))) == sp_einfo_fin(
                Some(v.code),
                msg,
                Some(Some(d)),
                rest,
            ));
            assert(ErrorInfoV { code: v.code, message: flat(msg), detail: flat(Some(Some(d))) }
                =~= v);
        },
    }
}

proof fn lemma_einfo_rt2(v: ErrorInfoV, rest: Seq<GTok>)
    ensures
        sp_einfo_after(einfo_tail2(v) + rest, Some(v.code), None, None) == Some((v, rest)),
{
    reveal_strlit("code");
    reveal_strlit("message");
    reveal_strlit("detail");
    assert("code"@.len() == 4 && "message"@.len() == 7 && "detail"@.len() == 6);
    let ts = einfo_tail2(v) + rest;
    match v.message {
        None => {
            assert(einfo_tail2(v) == einfo_tail3(v));
            lemma_einfo_rt3(v, rest, None);
        },
        Some(m) => {
            assert(ts[0] is Comma);
            let fs = ts.skip(1);
            assert(fs =~= seq![GTok::Lit("message"@), GTok::Colon, GTok::Lit(m)] + (einfo_tail3(v)
                + rest));
            assert(!("message"@ == "code"@));
            let vts = fs.skip(2);
            assert(vts =~= seq![GTok::Lit(m)] + (einfo_tail3(v) + rest));
            assert(sp_v_opt_str(vts) == Some((Some(m), vts.skip(1))));
            let r = vts.skip(1);
            assert(r =~= einfo_tail3(v) + rest);
            assert(einfo_tail3(v).len() >= 1);
            assert(r.len() < fs.len());
            lemma_einfo_rt3(v, rest, Some(Some(m)));
        },
    }
}

/// Parsing an encoded error description recovers it exactly.
pub proof fn lemma_error_info_rt(v: ErrorInfoV, rest: Seq<GTok>)
    ensures
        sp_error_info(toks_error_info(v) + rest) == Some((v, rest)),
{
    reveal_strlit("code");
    let ts = toks_error_info(v) + rest;
    assert(ts[0] is LBrace && ts[1] == GTok::Lit("code"@));
    let fs = ts.skip(1);
    assert(fs =~= seq![GTok::Lit("code"@), GTok::Colon, GTok::Lit(ec_wire(v.code))] + (einfo_tail2(
        v,
    ) + rest));
    let vts = fs.skip(2);
    assert(vts =~= seq![GTok::Lit(ec_wire(v.code))] + (einfo_tail2(v) + rest));
    assert(sp_v_str(vts) == Some((ec_wire(v.code), vts.skip(1))));
    lemma_ec_rt(v.code);
    let r = vts.skip(1);
    assert(r =~= einfo_tail2(v) + rest);
    assert(einfo_tail2(v).len() >= 1);
    assert(r.len() < fs.len());
    lemma_einfo_rt2(v, rest);
}

// --- executable codec ---

impl ErrorInfo {
    /// Appends this value's tokens.
    pub fn push_toks(&self, out: &mut Vec<Token>)
        ensures
            final(out).deep_view() == old(out).deep_view() + toks_error_info(self@),
    {
        push_tok(out, Token::LBrace);
        push_tok(out, Token::Lit("code".to_owned()));
        push_tok(out, Token::Colon);
        push_tok(out, Token::Lit(self.code.wire()));
        if let Some(m) = &self.message {
            push_tok(out, Token::Comma);
            push_tok(out, Token::Lit("message".to_owned()));
            push_tok(out, Token::Colon);
            push_tok(out, Token::Lit(m.clone()));
        }
        if let Some(d) = &self.detail {
            push_tok(out, Token::Comma);
            push_tok(out, Token::Lit("detail".to_owned()));
            push_tok(out, Token::Colon);
            push_tok(out, Token::Lit(d.clone()));
        }
        push_tok(out, Token::RBrace);
        assert(out.deep_view() =~= old(out).deep_view() + toks_error_info(self@));
    }
}

/// Parses one error description, mirroring [`sp_error_info`].
pub fn p_error_info(ts: &Vec<Token>, i: usize) -> (r: Option<(ErrorInfo, usize)>)
    requires
        i <= ts.len(),
    ensures
        match r {
            Some((v, j)) => i < j <= ts.len() && sp_error_info(ts.deep_view().skip(i as int))
                == Some((v@, ts.deep_view().skip(j as int))),
            None => sp_error_info(ts.deep_view().skip(i as int)) is None,
        },
{
    let ghost dv = ts.deep_view();
    let ghost pre = dv.skip(i as int);
    if ts.len() - i < 2 {
        return None;
    }
    assert(pre[0] == dv[i as int] && pre[1] == dv[i as int + 1]);
    if !matches!(&ts[i], Token::LBrace) {
        return None;
    }
    let mut code: Option<ErrorCode> = None;
    let mut msg: Option<Option<String>> = None;
    let mut det: Option<Option<String>> = None;
    if matches!(&ts[i + 1], Token::RBrace) {
        assert(pre.skip(2) =~= dv.skip(i as int + 2));
        return None;  // the code field is required, so an empty object fails
    }
    assert(pre.skip(1) =~= dv.skip(i as int + 1));
    let mut k: usize = i + 1;
    loop
        invariant
            i + 1 <= k <= ts.len(),
            dv == ts.deep_view(),
            dv.len() == ts.len(),
            sp_error_info(dv.skip(i as int)) == sp_einfo_fields(
                dv.skip(k as int),
                code,
                msg.deep_view(),
                det.deep_view(),
            ),
        decreases ts.len() - k,
    {
        let ghost cur = dv.skip(k as int);
        if ts.len() - k < 2 {
            assert(cur.len() < 2);
            return None;
        }
        assert(cur[0] == dv[k as int] && cur[1] == dv[k as int + 1]);
        if !matches!(&ts[k + 1], Token::Colon) {
            return None;
        }
        let key: String;
        match &ts[k] {
            Token::Lit(k0) => {
                key = k0.clone();
            },
            _ => {
                return None;
            },
        }
        assert(cur.skip(2) =~= dv.skip(k as int + 2));
        let j: usize;
        if str_eq_lit(&key, "code") {
            if code.is_some() {
                return None;
            }
            if k + 2 >= ts.len() {
                return None;
            }
            assert(cur.skip(2)[0] == dv[k as int + 2]);
            match &ts[k + 2] {
                Token::Lit(s) => {
                    match ErrorCode::from_wire(s) {
                        Some(c) => {
                            code = Some(c);
                        },
                        None => {
                            return None;
                        },
                    }
                },
                _ => {
                    return None;
                },
            }
            assert(cur.skip(2).skip(1) =~= dv.skip(k as int + 3));
            j = k + 3;
        } else if str_eq_lit(&key, "message") {
            if msg.is_some() {
                return None;
            }
            if k + 2 >= ts.len() {
                return None;
            }
            assert(cur.skip(2)[0] == dv[k as int + 2]);
            match &ts[k + 2] {
                Token::Lit(s) => {
                    msg = Some(Some(s.clone()));
                },
                Token::Null => {
                    msg = Some(None);
                },
                _ => {
                    return None;
                },
            }
            assert(cur.skip(2).skip(1) =~= dv.skip(k as int + 3));
            j = k + 3;
        } else if str_eq_lit(&key, "detail") {
            if det.is_some() {
                return None;
            }
            if k + 2 >= ts.len() {
                return None;
            }
            assert(cur.skip(2)[0] == dv[k as int + 2]);
            match &ts[k + 2] {
                Token::Lit(s) => {
                    det = Some(Some(s.clone()));
                },
                Token::Null => {
                    det = Some(None);
                },
                _ => {
                    return None;
                },
            }
            assert(cur.skip(2).skip(1) =~= dv.skip(k as int + 3));
            j = k + 3;
        } else {
            match skip_val_exec(ts, k + 2) {
                Some(j2) => {
                    j = j2;
                },
                None => {
                    return None;
                },
            }
        }
        assert(dv.skip(j as int).len() < cur.len());
        if j == ts.len() {
            return None;
        }
        assert(dv.skip(j as int)[0] == dv[j as int]);
        assert(dv.skip(j as int).skip(1) =~= dv.skip(j as int + 1));
        match &ts[j] {
            Token::Comma => {
                k = j + 1;
            },
            Token::RBrace => {
                match code {
                    Some(c) => {
                        let v = ErrorInfo {
                            code: c,
                            message: match msg {
                                Some(m) => m,
                                None => None,
                            },
                            detail: match det {
                                Some(d) => d,
                                None => None,
                            },
                        };
                        assert(v@ =~= ErrorInfoV {
                            code: c,
                            message: flat(msg.deep_view()),
                            detail: flat(det.deep_view()),
                        });
                        return Some((v, j + 1));
                    },
                    None => {
                        return None;
                    },
                }
            },
            _ => {
                return None;
            },
        }
    }
}

// ---------------------------------------------------------------------------
// Error responses
// ---------------------------------------------------------------------------

/// The document a registry returns on an invalid request: a list of error
/// descriptions, possibly empty, but always present.
#[derive(Clone, Debug)]
pub struct ErrorResponse {
    /// Available errors within the response.
    pub errors: Vec<ErrorInfo>,
}

/// The mathematical value of an [`ErrorResponse`].
#[verifier::ext_equal]
pub struct ErrorResponseV {
    pub errors: Seq<ErrorInfoV>,
}

impl View for ErrorResponse {
    type V = ErrorResponseV;

    open spec fn view(&self) -> ErrorResponseV {
        ErrorResponseV { errors: self.errors.deep_view() }
    }
}

impl DeepView for ErrorResponse {
    type V = ErrorResponseV;

    open spec fn deep_view(&self) -> ErrorResponseV {
        self.view()
    }
}

/// The trailing elements of an encoded error array, comma-separated, ending
/// with the closing bracket.
pub open spec fn arr_einfo_tail(vs: Seq<ErrorInfoV>) -> Seq<GTok>
    decreases vs.len(),
{
    if vs.len() == 0 {
        seq![GTok::RBrack]
    } else {
        seq![GTok::Comma] + toks_error_info(vs[0]) + arr_einfo_tail(vs.skip(1))
    }
}

/// The tokens of an encoded error array.
pub open spec fn toks_arr_einfo(vs: Seq<ErrorInfoV>) -> Seq<GTok> {
    if vs.len() == 0 {
        seq![GTok::LBrack, GTok::RBrack]
    } else {
        seq![GTok::LBrack] + toks_error_info(vs[0]) + arr_einfo_tail(vs.skip(1))
    }
}

/// The tokens of an encoded error response: the one required field.
pub open spec fn toks_error_response(v: ErrorResponseV) -> Seq<GTok> {
    seq![GTok::LBrace, GTok::Lit("errors"@), GTok::Colon] + toks_arr_einfo(v.errors) + seq![
        GTok::RBrace,
    ]
}

/// An encoded error response is a well-separated stream.
pub proof fn lemma_eresp_stream_ok(v: ErrorResponseV)
    ensures
        stream_ok(toks_error_response(v)),
{
    lemma_arr_einfo_stream_ok(v.errors);
    let a = toks_arr_einfo(v.errors);
    let ts = toks_error_response(v);
    assert(forall|i: int| 0 <= i < a.len() ==> #[trigger] ts[i + 3] == a[i]);
    assert(forall|i: int| 0 <= i < ts.len() ==> !(#[trigger] ts[i] is Int && ts[i + 1] is Int));
}

/// An encoded error array is a well-separated stream, and never starts or
/// ends with an integer token.
proof fn lemma_arr_einfo_stream_ok(vs: Seq<ErrorInfoV>)
    ensures
        stream_ok(toks_arr_einfo(vs)),
        toks_arr_einfo(vs).len() >= 2,
        !(toks_arr_einfo(vs)[0] is Int),
        !(toks_arr_einfo(vs).last() is Int),
    decreases vs.len(),
{
    if vs.len() == 0 {
    } else {
        lemma_arr_einfo_tail_stream_ok(vs.skip(1));
        lemma_einfo_stream_ok_strong(vs[0]);
        let e = toks_error_info(vs[0]);
        let t = arr_einfo_tail(vs.skip(1));
        let a = toks_arr_einfo(vs);
        assert(a =~= seq![GTok::LBrack] + e + t);
        assert(forall|i: int| 0 <= i < e.len() ==> #[trigger] a[i + 1] == e[i]);
        assert(forall|i: int| 0 <= i < t.len() ==> #[trigger] a[i + 1 + e.len()] == t[i]);
        assert(a.last() == t.last());
        assert(forall|i: int| 0 <= i < a.len() ==> !(#[trigger] a[i] is Int && a[i + 1] is Int));
    }
}

/// The tail of an encoded error array is well separated; it starts with a
/// comma or bracket and ends with the bracket.
proof fn lemma_arr_einfo_tail_stream_ok(vs: Seq<ErrorInfoV>)
    ensures
        stream_ok(arr_einfo_tail(vs)),
        arr_einfo_tail(vs).len() >= 1,
        !(arr_einfo_tail(vs)[0] is Int),
        !(arr_einfo_tail(vs).last() is Int),
    decreases vs.len(),
{
    if vs.len() == 0 {
    } else {
        lemma_arr_einfo_tail_stream_ok(vs.skip(1));
        lemma_einfo_stream_ok_strong(vs[0]);
        let e = toks_error_info(vs[0]);
        let t = arr_einfo_tail(vs.skip(1));
        let a = arr_einfo_tail(vs);
        assert(a =~= seq![GTok::Comma] + e + t);
        assert(forall|i: int| 0 <= i < e.len() ==> #[trigger] a[i + 1] == e[i]);
        assert(forall|i: int| 0 <= i < t.len() ==> #[trigger] a[i + 1 + e.len()] == t[i]);
        assert(a.last() == t.last());
        assert(forall|i: int| 0 <= i < a.len() ==> !(#[trigger] a[i] is Int && a[i + 1] is Int));
    }
}

/// An encoded error description is well separated, starts with a brace, and
/// ends with one.
proof fn lemma_einfo_stream_ok_strong(v: ErrorInfoV)
    ensures
        stream_ok(toks_error_info(v)),
        toks_error_info(v).len() >= 2,
        !(toks_error_info(v)[0] is Int),
        !(toks_error_info(v).last() is Int),
{
    let ts = toks_error_info(v);
    assert(ts.last() == einfo_tail2(v).last());
    assert(einfo_tail2(v).last() == einfo_tail3(v).last());
}

/// Parses the elements of an error array from its first element, including
/// the closing bracket.
pub open spec fn sp_arr_einfo_elems(ts: Seq<GTok>) -> Option<(Seq<ErrorInfoV>, Seq<GTok>)>
    decreases ts.len(),
{
    match sp_error_info(ts) {
        Some((v, r)) => if r.len() < ts.len() && r.len() >= 1 {
            if r[0] is Comma {
                match sp_arr_einfo_elems(r.skip(1)) {
                    Some((vs, r2)) => Some((seq![v] + vs, r2)),
                    None => None,
                }
            } else if r[0] is RBrack {
                Some((seq![v], r.skip(1)))
            } else {
                None
            }
        } else {
            None
        },
        None => None,
    }
}

/// Parses an array of error descriptions.
pub open spec fn sp_v_arr_einfo(ts: Seq<GTok>) -> Option<(Seq<ErrorInfoV>, Seq<GTok>)> {
    if ts.len() < 2 || !(ts[0] is LBrack) {
        None
    } else if ts[1] is RBrack {
        Some((Seq::empty(), ts.skip(2)))
    } else {
        sp_arr_einfo_elems(ts.skip(1))
    }
}

/// Parses an error response object: exactly the required `errors` field,
/// with unknown fields ignored.
pub open spec fn sp_eresp_after(ts: Seq<GTok>, errors: Option<Seq<ErrorInfoV>>) -> Option<
    (ErrorResponseV, Seq<GTok>),
>
    decreases ts.len(), 0int,
{
    if ts.len() == 0 {
        None
    } else if ts[0] is Comma {
        sp_eresp_fields(ts.skip(1), errors)
    } else if ts[0] is RBrace {
        match errors {
            Some(es) => Some((ErrorResponseV { errors: es }, ts.skip(1))),
            None => None,
        }
    } else {
        None
    }
}

/// At a field key of an error response.
pub open spec fn sp_eresp_fields(ts: Seq<GTok>, errors: Option<Seq<ErrorInfoV>>) -> Option<
    (ErrorResponseV, Seq<GTok>),
>
    decreases ts.len(), 1int,
{
    if ts.len() < 2 || !(ts[1] is Colon) {
        None
    } else {
        match ts[0] {
            GTok::Lit(k) => {
                let vts = ts.skip(2);
                if k == "errors"@ {
                    if errors is Some {
                        None
                    } else {
                        match sp_v_arr_einfo(vts) {
                            Some((es, r)) => if r.len() < ts.len() {
                                sp_eresp_after(r, Some(es))
                            } else {
                                None
                            },
                            None => None,
                        }
                    }
                } else {
                    match sp_skip_val(vts) {
                        Some(r) => if r.len() < ts.len() {
                            sp_eresp_after(r, errors)
                        } else {
                            None
                        },
                        None => None,
                    }
                }
            },
            _ => None,
        }
    }
}

/// Parses one error response object.
pub open spec fn sp_error_response(ts: Seq<GTok>) -> Option<(ErrorResponseV, Seq<GTok>)> {
    if ts.len() < 2 || !(ts[0] is LBrace) {
        None
    } else if ts[1] is RBrace {
        None  // the errors field is required
    } else {
        sp_eresp_fields(ts.skip(1), None)
    }
}

/// Parsing an encoded error array from its first element recovers it.
proof fn lemma_arr_einfo_tail_rt(v0: ErrorInfoV, vs: Seq<ErrorInfoV>, rest: Seq<GTok>)
    ensures
        sp_arr_einfo_elems(toks_error_info(v0) + (arr_einfo_tail(vs) + rest)) == Some(
            (seq![v0] + vs, rest),
        ),
    decreases vs.len(),
{
    let ts = toks_error_info(v0) + (arr_einfo_tail(vs) + rest);
    lemma_error_info_rt(v0, arr_einfo_tail(vs) + rest);
    assert(ts =~= toks_error_info(v0) + (arr_einfo_tail(vs) + rest));
    let r = arr_einfo_tail(vs) + rest;
    assert(r.len() < ts.len());
    if vs.len() == 0 {
        assert(r[0] is RBrack);
        assert(r.skip(1) =~= rest);
        assert(seq![v0] + vs =~= seq![v0]);
    } else {
        assert(r[0] is Comma);
        assert(r.skip(1) =~= toks_error_info(vs[0]) + (arr_einfo_tail(vs.skip(1)) + rest));
        lemma_arr_einfo_tail_rt(vs[0], vs.skip(1), rest);
        assert(seq![vs[0]] + vs.skip(1) =~= vs);
        assert(seq![v0] + (seq![vs[0]] + vs.skip(1)) =~= seq![v0] + vs);
    }
}

/// Parsing an encoded error array recovers it.
pub proof fn lemma_arr_einfo_rt(vs: Seq<ErrorInfoV>, rest: Seq<GTok>)
    ensures
        sp_v_arr_einfo(toks_arr_einfo(vs) + rest) == Some((vs, rest)),
{
    let ts = toks_arr_einfo(vs) + rest;
    if vs.len() == 0 {
        assert(ts.skip(2) =~= rest);
        assert(sp_v_arr_einfo(ts) == Some((Seq::<ErrorInfoV>::empty(), rest)));
    } else {
        lemma_einfo_stream_ok_strong(vs[0]);
        assert(ts[0] is LBrack);
        assert(ts[1] == toks_error_info(vs[0])[0]);
        assert(!(ts[1] is RBrack));
        assert(ts.skip(1) =~= toks_error_info(vs[0]) + (arr_einfo_tail(vs.skip(1)) + rest));
        lemma_arr_einfo_tail_rt(vs[0], vs.skip(1), rest);
        assert(seq![vs[0]] + vs.skip(1) =~= vs);
    }
}

/// Parsing an encoded error response recovers it exactly.
pub proof fn lemma_error_response_rt(v: ErrorResponseV, rest: Seq<GTok>)
    ensures
        sp_error_response(toks_error_response(v) + rest) == Some((v, rest)),
{
    reveal_strlit("errors");
    let ts = toks_error_response(v) + rest;
    assert(ts[0] is LBrace && ts[1] == GTok::Lit("errors"@));
    let fs = ts.skip(1);
    assert(fs =~= seq![GTok::Lit("errors"@), GTok::Colon] + (toks_arr_einfo(v.errors) + (seq![
        GTok::RBrace,
    ] + rest)));
    let vts = fs.skip(2);
    assert(vts =~= toks_arr_einfo(v.errors) + (seq![GTok::RBrace] + rest));
    lemma_arr_einfo_rt(v.errors, seq![GTok::RBrace] + rest);
    let r = seq![GTok::RBrace] + rest;
    assert(r.len() < fs.len());
    assert(r[0] is RBrace);
    assert(r.skip(1) =~= rest);
    assert(ErrorResponseV { errors: v.errors } =~= v);
}

// --- executable codec for the response ---

impl ErrorResponse {
    /// Appends this value's tokens.
    pub fn push_toks(&self, out: &mut Vec<Token>)
        ensures
            final(out).deep_view() == old(out).deep_view() + toks_error_response(self@),
    {
        push_tok(out, Token::LBrace);
        push_tok(out, Token::Lit("errors".to_owned()));
        push_tok(out, Token::Colon);
        push_arr_einfo(out, &self.errors);
        push_tok(out, Token::RBrace);
        assert(out.deep_view() =~= old(out).deep_view() + toks_error_response(self@));
    }
}

/// Appends the trailing elements of an error array.
fn push_arr_einfo_tail(out: &mut Vec<Token>, v: &Vec<ErrorInfo>, i: usize)
    requires
        i <= v.len(),
    ensures
        final(out).deep_view() == old(out).deep_view() + arr_einfo_tail(
            v.deep_view().skip(i as int),
        ),
    decreases v.len() - i,
{
    let ghost dv = v.deep_view();
    if i == v.len() {
        push_tok(out, Token::RBrack);
        assert(out.deep_view() =~= old(out).deep_view() + arr_einfo_tail(dv.skip(i as int)));
    } else {
        push_tok(out, Token::Comma);
        v[i].push_toks(out);
        assert(dv.skip(i as int)[0] == dv[i as int]);
        push_arr_einfo_tail(out, v, i + 1);
        assert(dv.skip(i as int).skip(1) =~= dv.skip(i as int + 1));
        assert(out.deep_view() =~= old(out).deep_view() + arr_einfo_tail(dv.skip(i as int)));
    }
}

/// Appends the tokens of an encoded error array.
fn push_arr_einfo(out: &mut Vec<Token>, v: &Vec<ErrorInfo>)
    ensures
        final(out).deep_view() == old(out).deep_view() + toks_arr_einfo(v.deep_view()),
{
    let ghost dv = v.deep_view();
    push_tok(out, Token::LBrack);
    if v.len() == 0 {
        push_tok(out, Token::RBrack);
        assert(out.deep_view() =~= old(out).deep_view() + toks_arr_einfo(dv));
    } else {
        v[0].push_toks(out);
        push_arr_einfo_tail(out, v, 1);
        assert(out.deep_view() =~= old(out).deep_view() + toks_arr_einfo(dv));
    }
}

/// Parses an array of error descriptions, mirroring [`sp_v_arr_einfo`].
fn p_arr_einfo(ts: &Vec<Token>, i: usize) -> (r: Option<(Vec<ErrorInfo>, usize)>)
    requires
        i <= ts.len(),
    ensures
        match r {
            Some((v, j)) => i < j <= ts.len() && sp_v_arr_einfo(ts.deep_view().skip(i as int))
                == Some((v.deep_view(), ts.deep_view().skip(j as int))),
            None => sp_v_arr_einfo(ts.deep_view().skip(i as int)) is None,
        },
{
    let ghost dv = ts.deep_view();
    let ghost pre = dv.skip(i as int);
    if ts.len() - i < 2 {
        return None;
    }
    assert(pre[0] == dv[i as int] && pre[1] == dv[i as int + 1]);
    if !matches!(&ts[i], Token::LBrack) {
        return None;
    }
    if matches!(&ts[i + 1], Token::RBrack) {
        let out: Vec<ErrorInfo> = Vec::new();
        assert(pre.skip(2) =~= dv.skip(i as int + 2));
        assert(out.deep_view() =~= Seq::<ErrorInfoV>::empty());
        return Some((out, i + 2));
    }
    assert(pre.skip(1) =~= dv.skip(i as int + 1));
    assert(sp_v_arr_einfo(pre) == sp_arr_einfo_elems(dv.skip(i as int + 1)));
    let mut out: Vec<ErrorInfo> = Vec::new();
    let mut k: usize = i + 1;
    loop
        invariant
            i + 1 <= k <= ts.len(),
            dv == ts.deep_view(),
            dv.len() == ts.len(),
            sp_v_arr_einfo(dv.skip(i as int)) == sp_arr_einfo_elems(dv.skip(i as int + 1)),
            match sp_arr_einfo_elems(dv.skip(k as int)) {
                Some((vs2, r2)) => sp_arr_einfo_elems(dv.skip(i as int + 1)) == Some(
                    (out.deep_view() + vs2, r2),
                ),
                None => sp_arr_einfo_elems(dv.skip(i as int + 1)) is None,
            },
        decreases ts.len() - k,
    {
        let ghost cur = dv.skip(k as int);
        let elem: ErrorInfo;
        let j2: usize;
        match p_error_info(ts, k) {
            Some((e, j)) => {
                elem = e;
                j2 = j;
            },
            None => {
                return None;
            },
        }
        let ghost r = dv.skip(j2 as int);
        assert(r.len() < cur.len());
        if j2 == ts.len() {
            assert(r.len() == 0);
            return None;
        }
        assert(r[0] == dv[j2 as int]);
        assert(r.skip(1) =~= dv.skip(j2 as int + 1));
        let ghost old_dv = out.deep_view();
        let ghost ev = elem@;
        match &ts[j2] {
            Token::Comma => {
                out.push(elem);
                proof {
                    assert(out.deep_view() =~= old_dv + seq![ev]);
                    match sp_arr_einfo_elems(dv.skip(j2 as int + 1)) {
                        Some((vs3, r3)) => {
                            assert(sp_arr_einfo_elems(cur) == Some((seq![ev] + vs3, r3)));
                            assert(old_dv + (seq![ev] + vs3) =~= (old_dv + seq![ev]) + vs3);
                        },
                        None => {},
                    }
                }
                k = j2 + 1;
            },
            Token::RBrack => {
                out.push(elem);
                proof {
                    assert(out.deep_view() =~= old_dv + seq![ev]);
                    assert(sp_arr_einfo_elems(cur) == Some((seq![ev], dv.skip(j2 as int + 1))));
                }
                return Some((out, j2 + 1));
            },
            _ => {
                return None;
            },
        }
    }
}

/// Parses one error response, mirroring [`sp_error_response`].
#[verifier::rlimit(100)]
pub fn p_error_response(ts: &Vec<Token>, i: usize) -> (r: Option<(ErrorResponse, usize)>)
    requires
        i <= ts.len(),
    ensures
        match r {
            Some((v, j)) => i < j <= ts.len() && sp_error_response(ts.deep_view().skip(i as int))
                == Some((v@, ts.deep_view().skip(j as int))),
            None => sp_error_response(ts.deep_view().skip(i as int)) is None,
        },
{
    let ghost dv = ts.deep_view();
    let ghost pre = dv.skip(i as int);
    if ts.len() - i < 2 {
        return None;
    }
    assert(pre[0] == dv[i as int] && pre[1] == dv[i as int + 1]);
    if !matches!(&ts[i], Token::LBrace) {
        return None;
    }
    let mut errors: Option<Vec<ErrorInfo>> = None;
    if matches!(&ts[i + 1], Token::RBrace) {
        return None;
    }
    assert(pre.skip(1) =~= dv.skip(i as int + 1));
    let mut k: usize = i + 1;
    loop
        invariant
            i + 1 <= k <= ts.len(),
            dv == ts.deep_view(),
            dv.len() == ts.len(),
            sp_error_response(dv.skip(i as int)) == sp_eresp_fields(
                dv.skip(k as int),
                errors.deep_view(),
            ),
        decreases ts.len() - k,
    {
        let ghost cur = dv.skip(k as int);
        if ts.len() - k < 2 {
            assert(cur.len() < 2);
            return None;
        }
        assert(cur[0] == dv[k as int] && cur[1] == dv[k as int + 1]);
        if !matches!(&ts[k + 1], Token::Colon) {
            return None;
        }
        let key: String;
        match &ts[k] {
            Token::Lit(k0) => {
                key = k0.clone();
            },
            _ => {
                return None;
            },
        }
        assert(cur.skip(2) =~= dv.skip(k as int + 2));
        let j: usize;
        if str_eq_lit(&key, "errors") {
            if errors.is_some() {
                return None;
            }
            match p_arr_einfo(ts, k + 2) {
                Some((es, j2)) => {
                    errors = Some(es);
                    j = j2;
                },
                None => {
                    return None;
                },
            }
        } else {
            match skip_val_exec(ts, k + 2) {
                Some(j2) => {
                    j = j2;
                },
                None => {
                    return None;
                },
            }
        }
        assert(dv.skip(j as int).len() < cur.len());
        if j == ts.len() {
            return None;
        }
        assert(dv.skip(j as int)[0] == dv[j as int]);
        assert(dv.skip(j as int).skip(1) =~= dv.skip(j as int + 1));
        match &ts[j] {
            Token::Comma => {
                k = j + 1;
            },
            Token::RBrace => {
                match errors {
                    Some(es) => {
                        let v = ErrorResponse { errors: es };
                        assert(v@ =~= ErrorResponseV { errors: v.errors.deep_view() });
                        return Some((v, j + 1));
                    },
                    None => {
                        return None;
                    },
                }
            },
            _ => {
                return None;
            },
        }
    }
}

// ---------------------------------------------------------------------------
// Public codec surface and laws
// ---------------------------------------------------------------------------

/// The decoded error description of a document text, if it is one.
pub open spec fn sp_decode_error_info(text: Seq<char>) -> Option<ErrorInfoV> {
    match sp_tokenize(text) {
        Some(ts) => match sp_error_info(ts) {
            Some((v, rest)) => if rest.len() == 0 {
                Some(v)
            } else {
                None
            },
            None => None,
        },
        None => None,
    }
}

/// The decoded error response of a document text, if it is one.
pub open spec fn sp_decode_error_response(text: Seq<char>) -> Option<ErrorResponseV> {
    match sp_tokenize(text) {
        Some(ts) => match sp_error_response(ts) {
            Some((v, rest)) => if rest.len() == 0 {
                Some(v)
            } else {
                None
            },
            None => None,
        },
        None => None,
    }
}

impl ErrorInfo {
    /// Serializes this value as JSON text, compact or pretty.
    pub fn encode(&self, pretty: bool) -> (r: String)
        ensures
            r@ == render(toks_error_info(self@), pretty),
    {
        let mut ts: Vec<Token> = Vec::new();
        self.push_toks(&mut ts);
        proof {
            assert(Seq::<GTok>::empty() + toks_error_info(self@) =~= toks_error_info(self@));
        }
        render_tokens(&ts, pretty)
    }

    /// Deserializes an error description from JSON text.
    pub fn decode(s: &str) -> (r: Result<ErrorInfo, OciSpecError>)
        ensures
            match r {
                Ok(v) => sp_decode_error_info(s@) == Some(v@),
                Err(e) => sp_decode_error_info(s@) is None && e is SerDe,
            },
    {
        let cs = str_chars(s);
        match tokenize_chars(&cs) {
            None => Err(OciSpecError::SerDe("the input is not well-formed JSON".to_owned())),
            Some(ts) => match p_error_info(&ts, 0) {
                Some((v, j)) => {
                    proof {
                        assert(ts.deep_view().skip(0) =~= ts.deep_view());
                    }
                    if j == ts.len() {
                        Ok(v)
                    } else {
                        Err(
                            OciSpecError::SerDe(
                                "unexpected trailing content after the document".to_owned(),
                            ),
                        )
                    }
                },
                None => {
                    proof {
                        assert(ts.deep_view().skip(0) =~= ts.deep_view());
                    }
                    Err(OciSpecError::SerDe("the input is not an error description".to_owned()))
                },
            },
        }
    }

    /// The error code of this description.
    pub fn code(&self) -> (r: &ErrorCode)
        ensures
            *r == self.code,
    {
        &self.code
    }

    /// The optional human readable message.
    pub fn message(&self) -> (r: &Option<String>)
        ensures
            r.deep_view() == self@.message,
    {
        &self.message
    }

    /// The optional detail carried by this description.
    pub fn detail(&self) -> (r: &Option<String>)
        ensures
            r.deep_view() == self@.detail,
    {
        &self.detail
    }
}

impl ErrorResponse {
    /// Serializes this response as JSON text, compact or pretty.
    pub fn encode(&self, pretty: bool) -> (r: String)
        ensures
            r@ == render(toks_error_response(self@), pretty),
    {
        let mut ts: Vec<Token> = Vec::new();
        self.push_toks(&mut ts);
        proof {
            assert(Seq::<GTok>::empty() + toks_error_response(self@) =~= toks_error_response(
                self@,
            ));
        }
        render_tokens(&ts, pretty)
    }

    /// Deserializes an error response from JSON text.
    pub fn decode(s: &str) -> (r: Result<ErrorResponse, OciSpecError>)
        ensures
            match r {
                Ok(v) => sp_decode_error_response(s@) == Some(v@),
                Err(e) => sp_decode_error_response(s@) is None && e is SerDe,
            },
    {
        let cs = str_chars(s);
        match tokenize_chars(&cs) {
            None => Err(OciSpecError::SerDe("the input is not well-formed JSON".to_owned())),
            Some(ts) => match p_error_response(&ts, 0) {
                Some((v, j)) => {
                    proof {
                        assert(ts.deep_view().skip(0) =~= ts.deep_view());
                    }
                    if j == ts.len() {
                        Ok(v)
                    } else {
                        Err(
                            OciSpecError::SerDe(
                                "unexpected trailing content after the document".to_owned(),
                            ),
                        )
                    }
                },
                None => {
                    proof {
                        assert(ts.deep_view().skip(0) =~= ts.deep_view());
                    }
                    Err(OciSpecError::SerDe("the input is not an error response".to_owned()))
                },
            },
        }
    }

    /// The error descriptions of this response.
    pub fn detail(&self) -> (r: &[ErrorInfo])
        ensures
            r.deep_view() == self@.errors,
    {
        self.errors.as_slice()
    }

    /// The fixed text a registry error displays.
    pub fn display_text(&self) -> (r: String)
        ensures
            r@ == ERR_REGISTRY@,
    {
        ERR_REGISTRY.to_owned()
    }
}

/// Decoding an encoded error description yields it back, in either output
/// mode: the round-trip law.
pub proof fn lemma_error_info_round_trip(v: ErrorInfoV, pretty: bool)
    ensures
        sp_decode_error_info(render(toks_error_info(v), pretty)) == Some(v),
{
    lemma_einfo_stream_ok(v);
    lemma_tokenize_render(toks_error_info(v), pretty);
    lemma_error_info_rt(v, Seq::empty());
    assert(toks_error_info(v) + Seq::<GTok>::empty() =~= toks_error_info(v));
}

/// Decoding an encoded error response yields it back, in either output mode.
pub proof fn lemma_error_response_round_trip(v: ErrorResponseV, pretty: bool)
    ensures
        sp_decode_error_response(render(toks_error_response(v), pretty)) == Some(v),
{
    lemma_eresp_stream_ok(v);
    lemma_tokenize_render(toks_error_response(v), pretty);
    lemma_error_response_rt(v, Seq::empty());
    assert(toks_error_response(v) + Seq::<GTok>::empty() =~= toks_error_response(v));
}

/// Re-encoding what was decoded from encoder output reproduces those bytes
/// exactly: the canonical-idempotence law, for both entities and both modes.
pub proof fn lemma_error_info_canonical(v: ErrorInfoV, pretty: bool)
    ensures
        ({
            let b = render(toks_error_info(v), pretty);
            &&& sp_decode_error_info(b) matches Some(w)
            &&& render(toks_error_info(sp_decode_error_info(b)->Some_0), pretty) == b
        }),
{
    lemma_error_info_round_trip(v, pretty);
}

/// See [`lemma_error_info_canonical`]; the same law for responses.
pub proof fn lemma_error_response_canonical(v: ErrorResponseV, pretty: bool)
    ensures
        ({
            let b = render(toks_error_response(v), pretty);
            &&& sp_decode_error_response(b) matches Some(w)
            &&& render(toks_error_response(sp_decode_error_response(b)->Some_0), pretty) == b
        }),
{
    lemma_error_response_round_trip(v, pretty);
}

/// The omission invariant: an optional field's key appears in the encoded
/// object exactly when the field is set. A key appearing means its literal
/// followed by a colon.
pub proof fn lemma_error_info_omission(v: ErrorInfoV)
    ensures
        v.message is Some <==> exists|i: int|
            0 <= i < toks_error_info(v).len() - 1 && #[trigger] toks_error_info(v)[i]
                == GTok::Lit("message"@) && toks_error_info(v)[i + 1] is Colon,
        v.detail is Some <==> exists|i: int|
            0 <= i < toks_error_info(v).len() - 1 && #[trigger] toks_error_info(v)[i] == GTok::Lit(
                "detail"@,
            ) && toks_error_info(v)[i + 1] is Colon,
{
    reveal_strlit("code");
    reveal_strlit("message");
    reveal_strlit("detail");
    assert("code"@.len() == 4 && "message"@.len() == 7 && "detail"@.len() == 6);
    let ts = toks_error_info(v);
    if v.message is Some {
        assert(ts[5] == GTok::Lit("message"@) && ts[6] is Colon);
    }
    if v.detail is Some {
        match v.message {
            Some(m) => {
                assert(ts[9] == GTok::Lit("detail"@) && ts[10] is Colon);
            },
            None => {
                assert(ts[5] == GTok::Lit("detail"@) && ts[6] is Colon);
            },
        }
    }
}

impl PartialEq for ErrorInfo {
    /// Two descriptions are equal exactly when their mathematical values
    /// agree; the check compares canonical encodings, which the round-trip
    /// law makes injective.
    fn eq(&self, other: &Self) -> (r: bool) {
        let a = self.encode(false);
        let b = other.encode(false);
        let r = a.eq(&b);
        proof {
            lemma_error_info_round_trip(self@, false);
            lemma_error_info_round_trip(other@, false);
        }
        r
    }
}

impl vstd::std_specs::cmp::PartialEqSpecImpl for ErrorInfo {
    open spec fn obeys_eq_spec() -> bool {
        true
    }

    open spec fn eq_spec(&self, other: &Self) -> bool {
        self@ == other@
    }
}

impl PartialEq for ErrorResponse {
    /// See [`ErrorInfo::eq`].
    fn eq(&self, other: &Self) -> (r: bool) {
        let a = self.encode(false);
        let b = other.encode(false);
        let r = a.eq(&b);
        proof {
            lemma_error_response_round_trip(self@, false);
            lemma_error_response_round_trip(other@, false);
        }
        r
    }
}

impl vstd::std_specs::cmp::PartialEqSpecImpl for ErrorResponse {
    open spec fn obeys_eq_spec() -> bool {
        true
    }

    open spec fn eq_spec(&self, other: &Self) -> bool {
        self@ == other@
    }
}

// ---------------------------------------------------------------------------
// Builders
// ---------------------------------------------------------------------------

/// Accumulates the fields of an [`ErrorInfo`]; the code is required.
pub struct ErrorInfoBuilder {
    /// The accumulated code, if set.
    pub code: Option<ErrorCode>,
    /// The accumulated message, if set.
    pub message: Option<String>,
    /// The accumulated detail, if set.
    pub detail: Option<String>,
}

impl Default for ErrorInfoBuilder {
    /// A builder with nothing set.
    fn default() -> (r: Self)
        ensures
            r.code is None && r.message is None && r.detail is None,
    {
        ErrorInfoBuilder { code: None, message: None, detail: None }
    }
}

impl ErrorInfoBuilder {
    /// Sets the error code.
    pub fn code(self, code: ErrorCode) -> (r: Self)
        ensures
            r.code == Some(code) && r.message == self.message && r.detail == self.detail,
    {
        ErrorInfoBuilder { code: Some(code), ..self }
    }

    /// Sets the message.
    pub fn message(self, message: &str) -> (r: Self)
        ensures
            r.message matches Some(m) && m@ == message@,
            r.code == self.code && r.detail == self.detail,
    {
        ErrorInfoBuilder { message: Some(message.to_owned()), ..self }
    }

    /// Sets the detail.
    pub fn detail(self, detail: &str) -> (r: Self)
        ensures
            r.detail matches Some(d) && d@ == detail@,
            r.code == self.code && r.message == self.message,
    {
        ErrorInfoBuilder { detail: Some(detail.to_owned()), ..self }
    }

    /// Finishes construction: fails naming the missing field exactly when
    /// the required code was never set; optional fields default to absent.
    pub fn build(self) -> (r: Result<ErrorInfo, OciSpecError>)
        ensures
            match r {
                Ok(v) => self.code == Some(v.code) && v.message.deep_view()
                    == self.message.deep_view() && v.detail.deep_view()
                    == self.detail.deep_view(),
                Err(e) => self.code is None && e is Builder,
            },
    {
        match self.code {
            Some(c) => Ok(ErrorInfo { code: c, message: self.message, detail: self.detail }),
            None => Err(OciSpecError::Builder("required field code is unset".to_owned())),
        }
    }
}

/// Accumulates the fields of an [`ErrorResponse`]; the error list is
/// required.
pub struct ErrorResponseBuilder {
    /// The accumulated error list, if set.
    pub errors: Option<Vec<ErrorInfo>>,
}

impl Default for ErrorResponseBuilder {
    /// A builder with nothing set.
    fn default() -> (r: Self)
        ensures
            r.errors is None,
    {
        ErrorResponseBuilder { errors: None }
    }
}

impl ErrorResponseBuilder {
    /// Sets the error list.
    pub fn errors(self, errors: Vec<ErrorInfo>) -> (r: Self)
        ensures
            r.errors == Some(errors),
    {
        ErrorResponseBuilder { errors: Some(errors) }
    }

    /// Finishes construction: fails naming the missing field exactly when
    /// the required error list was never set.
    pub fn build(self) -> (r: Result<ErrorResponse, OciSpecError>)
        ensures
            match r {
                Ok(v) => self.errors matches Some(es) && v.errors.deep_view() == es.deep_view(),
                Err(e) => self.errors is None && e is Builder,
            },
    {
        match self.errors {
            Some(es) => Ok(ErrorResponse { errors: es }),
            None => Err(OciSpecError::Builder("required field errors is unset".to_owned())),
        }
    }
}

} // verus!
