//! Runtime configuration blocks: the root filesystem, mounts, lifecycle
//! hooks, and Solaris-specific settings.

use vstd::prelude::*;

use crate::error::OciSpecError;
use crate::json::{
    render_tokens, str_chars, tokenize_chars, push_tok, str_eq_lit, push_arr_str, p_arr_str, flat,
    render, sp_tokenize, sp_v_str, sp_v_opt_str, sp_v_opt_bool, sp_v_opt_i64, sp_v_arr_str,
    toks_arr_str, lemma_arr_str_rt, sp_skip_val, skip_val_exec, stream_ok, no_int,
    lemma_stream_ok_concat,
    lemma_no_int_concat, lemma_no_int_stream_ok, lemma_arr_str_no_int, lemma_tokenize_render, GTok,
    Token,
};

verus! {

broadcast use vstd::string::group_string_axioms;

// ---------------------------------------------------------------------------
// Root
// ---------------------------------------------------------------------------

/// The container's root filesystem on the host.
#[derive(Clone, Debug)]
pub struct Root {
    /// The path to the root filesystem.
    pub path: String,
    /// Whether the root filesystem is made read-only before the process
    /// runs. Absent on the wire means unspecified, never a default.
    pub readonly: Option<bool>,
}

/// The mathematical value of a [`Root`].
#[verifier::ext_equal]
pub struct RootV {
    pub path: Seq<char>,
    pub readonly: Option<bool>,
}

impl View for Root {
    type V = RootV;

    open spec fn view(&self) -> RootV {
        RootV { path: self.path@, readonly: self.readonly }
    }
}

impl DeepView for Root {
    type V = RootV;

    open spec fn deep_view(&self) -> RootV {
        self.view()
    }
}

impl Default for Root {
    /// The default root: the relative path `rootfs`, read-only. This default
    /// applies only to construction; a decoded document with no `readonly`
    /// key yields an unspecified value, never this default.
    fn default() -> (r: Self)
        ensures
            r.path@ == "rootfs"@,
            r.readonly == Some(true),
    {
        Root { path: "rootfs".to_owned(), readonly: Some(true) }
    }
}

/// Tokens from the `readonly` field on.
pub open spec fn root_tail2(v: RootV) -> Seq<GTok> {
    match v.readonly {
        Some(b) => seq![
            GTok::Comma,
            GTok::Lit("readonly"@),
            GTok::Colon,
            if b {
                GTok::True
            } else {
                GTok::False
            },
            GTok::RBrace,
        ],
        None => seq![GTok::RBrace],
    }
}

/// The tokens of an encoded root: the path is always written, the read-only
/// mark only when specified.
pub open spec fn toks_root(v: RootV) -> Seq<GTok> {
    seq![GTok::LBrace, GTok::Lit("path"@), GTok::Colon, GTok::Lit(v.path)] + root_tail2(v)
}

/// An encoded root is a well-separated stream.
pub proof fn lemma_root_stream_ok(v: RootV)
    ensures
        stream_ok(toks_root(v)),
{
    let ts = toks_root(v);
    assert(no_int(ts)) by {
        assert(forall|i: int| 0 <= i < ts.len() ==> !(#[trigger] ts[i] is Int));
    }
    lemma_no_int_stream_ok(ts);
}

/// Finalizes a parsed root: an absent path reads as the empty path, an
/// absent read-only mark as unspecified.
pub open spec fn sp_root_fin(
    path: Option<Seq<char>>,
    ro: Option<Option<bool>>,
    rest: Seq<GTok>,
) -> Option<(RootV, Seq<GTok>)> {
    Some(
        (
            RootV {
                path: match path {
                    Some(p) => p,
                    None => Seq::empty(),
                },
                readonly: flat(ro),
            },
            rest,
        ),
    )
}

/// After a root field's value.
pub open spec fn sp_root_after(ts: Seq<GTok>, path: Option<Seq<char>>, ro: Option<Option<bool>>) -> Option<
    (RootV, Seq<GTok>),
>
    decreases ts.len(), 0int,
{
    if ts.len() == 0 {
        None
    } else if ts[0] is Comma {
        sp_root_fields(ts.skip(1), path, ro)
    } else if ts[0] is RBrace {
        sp_root_fin(path, ro, ts.skip(1))
    } else {
        None
    }
}

/// At a root field's key.
pub open spec fn sp_root_fields(
    ts: Seq<GTok>,
    path: Option<Seq<char>>,
    ro: Option<Option<bool>>,
) -> Option<(RootV, Seq<GTok>)>
    decreases ts.len(), 1int,
{
    if ts.len() < 2 || !(ts[1] is Colon) {
        None
    } else {
        match ts[0] {
            GTok::Lit(k) => {
                let vts = ts.skip(2);
                if k == "path"@ {
                    if path is Some {
                        None
                    } else {
                        match sp_v_str(vts) {
                            Some((s, r)) => if r.len() < ts.len() {
                                sp_root_after(r, Some(s), ro)
                            } else {
                                None
                            },
                            None => None,
                        }
                    }
                } else if k == "readonly"@ {
                    if ro is Some {
                        None
                    } else {
                        match sp_v_opt_bool(vts) {
                            Some((b, r)) => if r.len() < ts.len() {
                                sp_root_after(r, path, Some(b))
                            } else {
                                None
                            },
                            None => None,
                        }
                    }
                } else {
                    match sp_skip_val(vts) {
                        Some(r) => if r.len() < ts.len() {
                            sp_root_after(r, path, ro)
                        } else {
                            None
                        },
                        None => None,
                    }
                }
            },
            _ => None,
        }
    }
}

/// Parses one root object; an empty object is valid, both fields having
/// parse-time defaults.
pub open spec fn sp_root(ts: Seq<GTok>) -> Option<(RootV, Seq<GTok>)> {
    if ts.len() < 2 || !(ts[0] is LBrace) {
        None
    } else if ts[1] is RBrace {
        sp_root_fin(None, None, ts.skip(2))
    } else {
        sp_root_fields(ts.skip(1), None, None)
    }
}

/// Reveals the root key literals.
proof fn lemma_root_keys()
    ensures
        "path"@.len() == 4,
        "readonly"@.len() == 8,
{
    reveal_strlit("path");
    reveal_strlit("readonly");
}

/// Parsing an encoded root recovers it exactly.
pub proof fn lemma_root_rt(v: RootV, rest: Seq<GTok>)
    ensures
        sp_root(toks_root(v) + rest) == Some((v, rest)),
{
    lemma_root_keys();
    let ts = toks_root(v) + rest;
    assert(ts[0] is LBrace && ts[1] == GTok::Lit("path"@));
    let fs = ts.skip(1);
    assert(fs =~= seq![GTok::Lit("path"@), GTok::Colon, GTok::Lit(v.path)] + (root_tail2(v)
        + rest));
    let vts = fs.skip(2);
    assert(vts =~= seq![GTok::Lit(v.path)] + (root_tail2(v) + rest));
    assert(sp_v_str(vts) == Some((v.path, vts.skip(1))));
    let r = vts.skip(1);
    assert(r =~= root_tail2(v) + rest);
    assert(root_tail2(v).len() >= 1);
    assert(r.len() < fs.len());
    match v.readonly {
        None => {
            assert(r[0] is RBrace);
            assert(r.skip(1) =~= rest);
            assert(RootV { path: v.path, readonly: flat(None::<Option<bool>>) } =~= v);
        },
        Some(b) => {
            assert(r[0] is Comma);
            let fs2 = r.skip(1);
            assert(fs2 =~= seq![
                GTok::Lit("readonly"@),
                GTok::Colon,
                if b {
                    GTok::True
                } else {
                    GTok::False
                },
                GTok::RBrace,
            ] + rest);
            let vts2 = fs2.skip(2);
            assert(sp_v_opt_bool(vts2) == Some((Some(b), vts2.skip(1))));
            let r2 = vts2.skip(1);
            assert(r2 =~= seq![GTok::RBrace] + rest);
            assert(r2.len() < fs2.len());
            assert(r2[0] is RBrace);
            assert(r2.skip(1) =~= rest);
            assert(RootV { path: v.path, readonly: flat(Some(Some(b))) } =~= v);
            assert(sp_root_after(r, Some(v.path), None) == sp_root_fields(fs2, Some(v.path), None));
            assert(sp_root_fields(fs2, Some(v.path), None) == sp_root_after(
                r2,
                Some(v.path),
                Some(Some(b)),
            ));
        },
    }
}

/// The decoded root of a document text, if it is one.
pub open spec fn sp_decode_root(text: Seq<char>) -> Option<RootV> {
    match sp_tokenize(text) {
        Some(ts) => match sp_root(ts) {
            Some((v, rest)) => if rest.len() == 0 {
                Some(v)
            } else {
                None
            },
            None => None,
        },
        None => None,
    }
}

impl Root {
    /// Appends this value's tokens.
    pub fn push_toks(&self, out: &mut Vec<Token>)
        ensures
            final(out).deep_view() == old(out).deep_view() + toks_root(self@),
    {
        push_tok(out, Token::LBrace);
        push_tok(out, Token::Lit("path".to_owned()));
        push_tok(out, Token::Colon);
        push_tok(out, Token::Lit(self.path.clone()));
        if let Some(b) = self.readonly {
            push_tok(out, Token::Comma);
            push_tok(out, Token::Lit("readonly".to_owned()));
            push_tok(out, Token::Colon);
            if b {
                push_tok(out, Token::True);
            } else {
                push_tok(out, Token::False);
            }
        }
        push_tok(out, Token::RBrace);
        assert(out.deep_view() =~= old(out).deep_view() + toks_root(self@));
    }

    /// Serializes this value as JSON text, compact or pretty.
    pub fn encode(&self, pretty: bool) -> (r: String)
        ensures
            r@ == render(toks_root(self@), pretty),
    {
        let mut ts: Vec<Token> = Vec::new();
        self.push_toks(&mut ts);
        proof {
            assert(Seq::<GTok>::empty() + toks_root(self@) =~= toks_root(self@));
        }
        render_tokens(&ts, pretty)
    }

    /// Deserializes a root from JSON text. An absent `readonly` key reads
    /// as unspecified, not as the constructed default.
    pub fn decode(s: &str) -> (r: Result<Root, OciSpecError>)
        ensures
            match r {
                Ok(v) => sp_decode_root(s@) == Some(v@),
                Err(e) => sp_decode_root(s@) is None && e is SerDe,
            },
    {
        let cs = str_chars(s);
        match tokenize_chars(&cs) {
            None => Err(OciSpecError::SerDe("the input is not well-formed JSON".to_owned())),
            Some(ts) => match p_root(&ts, 0) {
                Some((v, j)) => {
                    proof {
                        assert(ts.deep_view().skip(0) =~= ts.deep_view());
                    }
                    if j == ts.len() {
                        Ok(v)
                    } else {
                        Err(
                            OciSpecError::SerDe(
                                "unexpected trailing content after the document".to_owned(),
                            ),
                        )
                    }
                },
                None => {
                    proof {
                        assert(ts.deep_view().skip(0) =~= ts.deep_view());
                    }
                    Err(OciSpecError::SerDe("the input is not a root".to_owned()))
                },
            },
        }
    }

    /// The path to the root filesystem.
    pub fn path(&self) -> (r: &String)
        ensures
            r@ == self@.path,
    {
        &self.path
    }

    /// The read-only mark, if specified.
    pub fn readonly(&self) -> (r: Option<bool>)
        ensures
            r == self@.readonly,
    {
        self.readonly
    }
}

/// Parses one root object, mirroring [`sp_root`].
pub fn p_root(ts: &Vec<Token>, i: usize) -> (r: Option<(Root, usize)>)
    requires
        i <= ts.len(),
    ensures
        match r {
            Some((v, j)) => i < j <= ts.len() && sp_root(ts.deep_view().skip(i as int)) == Some(
                (v@, ts.deep_view().skip(j as int)),
            ),
            None => sp_root(ts.deep_view().skip(i as int)) is None,
        },
{
    let ghost dv = ts.deep_view();
    let ghost pre = dv.skip(i as int);
    if ts.len() - i < 2 {
        return None;
    }
    assert(pre[0] == dv[i as int] && pre[1] == dv[i as int + 1]);
    if !matches!(&ts[i], Token::LBrace) {
        return None;
    }
    let mut path: Option<String> = None;
    let mut ro: Option<Option<bool>> = None;
    if matches!(&ts[i + 1], Token::RBrace) {
        assert(pre.skip(2) =~= dv.skip(i as int + 2));
        let v = Root { path: String::new(), readonly: None };
        assert(v@ =~= RootV { path: Seq::empty(), readonly: None });
        return Some((v, i + 2));
    }
    assert(pre.skip(1) =~= dv.skip(i as int + 1));
    let mut k: usize = i + 1;
    loop
        invariant
            i + 1 <= k <= ts.len(),
            dv == ts.deep_view(),
            dv.len() == ts.len(),
            sp_root(dv.skip(i as int)) == sp_root_fields(
                dv.skip(k as int),
                path.deep_view(),
                ro,
            ),
        decreases ts.len() - k,
    {
        let ghost cur = dv.skip(k as int);
        if ts.len() - k < 2 {
            assert(cur.len() < 2);
            return None;
        }
        assert(cur[0] == dv[k as int] && cur[1] == dv[k as int + 1]);
        if !matches!(&ts[k + 1], Token::Colon) {
            return None;
        }
        let key: String;
        match &ts[k] {
            Token::Lit(k0) => {
                key = k0.clone();
            },
            _ => {
                return None;
            },
        }
        assert(cur.skip(2) =~= dv.skip(k as int + 2));
        let j: usize;
        if str_eq_lit(&key, "path") {
            if path.is_some() {
                return None;
            }
            if k + 2 >= ts.len() {
                return None;
            }
            assert(cur.skip(2)[0] == dv[k as int + 2]);
            match &ts[k + 2] {
                Token::Lit(s) => {
                    path = Some(s.clone());
                },
                _ => {
                    return None;
                },
            }
            assert(cur.skip(2).skip(1) =~= dv.skip(k as int + 3));
            j = k + 3;
        } else if str_eq_lit(&key, "readonly") {
            if ro.is_some() {
                return None;
            }
            if k + 2 >= ts.len() {
                return None;
            }
            assert(cur.skip(2)[0] == dv[k as int + 2]);
            match &ts[k + 2] {
                Token::True => {
                    ro = Some(Some(true));
                },
                Token::False => {
                    ro = Some(Some(false));
                },
                Token::Null => {
                    ro = Some(None);
                },
                _ => {
                    return None;
                },
            }
            assert(cur.skip(2).skip(1) =~= dv.skip(k as int + 3));
            j = k + 3;
        } else {
            match skip_val_exec(ts, k + 2) {
                Some(j2) => {
                    j = j2;
                },
                None => {
                    return None;
                },
            }
        }
        assert(dv.skip(j as int).len() < cur.len());
        if j == ts.len() {
            return None;
        }
        assert(dv.skip(j as int)[0] == dv[j as int]);
        assert(dv.skip(j as int).skip(1) =~= dv.skip(j as int + 1));
        match &ts[j] {
            Token::Comma => {
                k = j + 1;
            },
            Token::RBrace => {
                let v = Root {
                    path: match path {
                        Some(p) => p,
                        None => String::new(),
                    },
                    readonly: match ro {
                        Some(b) => b,
                        None => None,
                    },
                };
                assert(v@ =~= sp_root_fin(path.deep_view(), ro, dv.skip(j as int + 1))->Some_0.0);
                return Some((v, j + 1));
            },
            _ => {
                return None;
            },
        }
    }
}

/// Decoding an encoded root yields it back, in either output mode.
pub proof fn lemma_root_round_trip(v: RootV, pretty: bool)
    ensures
        sp_decode_root(render(toks_root(v), pretty)) == Some(v),
{
    lemma_root_stream_ok(v);
    lemma_tokenize_render(toks_root(v), pretty);
    lemma_root_rt(v, Seq::empty());
    assert(toks_root(v) + Seq::<GTok>::empty() =~= toks_root(v));
}

/// Re-encoding what was decoded from encoder output reproduces those bytes
/// exactly: canonical idempotence for roots, either mode.
pub proof fn lemma_root_canonical(v: RootV, pretty: bool)
    ensures
        ({
            let b = render(toks_root(v), pretty);
            &&& sp_decode_root(b) matches Some(w)
            &&& render(toks_root(sp_decode_root(b)->Some_0), pretty) == b
        }),
{
    lemma_root_round_trip(v, pretty);
}

/// The omission invariant for the root: the `readonly` key appears exactly
/// when the mark is specified; the key literal cannot occur elsewhere, since
/// the only other literals are the `path` key and the path value, which is
/// never followed by a colon.
pub proof fn lemma_root_omission(v: RootV)
    ensures
        v.readonly is Some <==> exists|i: int|
            0 <= i < toks_root(v).len() - 1 && #[trigger] toks_root(v)[i] == GTok::Lit(
                "readonly"@,
            ) && toks_root(v)[i + 1] is Colon,
{
    lemma_root_keys();
    let ts = toks_root(v);
    if v.readonly is Some {
        assert(ts[5] == GTok::Lit("readonly"@) && ts[6] is Colon);
    }
}

// ---------------------------------------------------------------------------
// Mount
// ---------------------------------------------------------------------------

/// A filesystem mount of a container.
#[derive(Clone, Debug)]
pub struct Mount {
    /// The path where the mount is placed inside the container.
    pub destination: String,
    /// The kind of the mount, written as `type` on the wire.
    pub typ: Option<String>,
    /// The source path of the mount.
    pub source: Option<String>,
    /// fstab-style mount options.
    pub options: Option<Vec<String>>,
}

/// The mathematical value of a [`Mount`].
#[verifier::ext_equal]
pub struct MountV {
    pub destination: Seq<char>,
    pub typ: Option<Seq<char>>,
    pub source: Option<Seq<char>>,
    pub options: Option<Seq<Seq<char>>>,
}

impl View for Mount {
    type V = MountV;

    open spec fn view(&self) -> MountV {
        MountV {
            destination: self.destination@,
            typ: self.typ.deep_view(),
            source: self.source.deep_view(),
            options: self.options.deep_view(),
        }
    }
}

impl DeepView for Mount {
    type V = MountV;

    open spec fn deep_view(&self) -> MountV {
        self.view()
    }
}

impl Default for Mount {
    /// A mount with an empty destination and nothing else set.
    fn default() -> (r: Self)
        ensures
            r.destination@ == Seq::<char>::empty(),
            r.typ is None && r.source is None && r.options is None,
    {
        Mount { destination: String::new(), typ: None, source: None, options: None }
    }
}

/// Tokens from the `options` field on.
pub open spec fn mnt_tail4(v: MountV) -> Seq<GTok> {
    match v.options {
        Some(os) => seq![GTok::Comma, GTok::Lit("options"@), GTok::Colon] + toks_arr_str(os) + seq![
            GTok::RBrace,
        ],
        None => seq![GTok::RBrace],
    }
}

/// Tokens from the `source` field on.
pub open spec fn mnt_tail3(v: MountV) -> Seq<GTok> {
    match v.source {
        Some(s) => seq![GTok::Comma, GTok::Lit("source"@), GTok::Colon, GTok::Lit(s)] + mnt_tail4(
            v,
        ),
        None => mnt_tail4(v),
    }
}

/// Tokens from the `type` field on.
pub open spec fn mnt_tail2(v: MountV) -> Seq<GTok> {
    match v.typ {
        Some(t) => seq![GTok::Comma, GTok::Lit("type"@), GTok::Colon, GTok::Lit(t)] + mnt_tail3(v),
        None => mnt_tail3(v),
    }
}

/// The tokens of an encoded mount.
pub open spec fn toks_mount(v: MountV) -> Seq<GTok> {
    seq![GTok::LBrace, GTok::Lit("destination"@), GTok::Colon, GTok::Lit(v.destination)]
        + mnt_tail2(v)
}

/// An encoded mount is a well-separated stream enclosed in braces.
pub proof fn lemma_mount_stream_ok(v: MountV)
    ensures
        stream_ok(toks_mount(v)),
        toks_mount(v).len() >= 2,
        !(toks_mount(v)[0] is Int),
        !(toks_mount(v).last() is Int),
{
    lemma_mnt_tail2_no_int(v);
    lemma_no_int_concat(
        seq![GTok::LBrace, GTok::Lit("destination"@), GTok::Colon, GTok::Lit(v.destination)],
        mnt_tail2(v),
    );
    assert(toks_mount(v) =~= seq![
        GTok::LBrace,
        GTok::Lit("destination"@),
        GTok::Colon,
        GTok::Lit(v.destination),
    ] + mnt_tail2(v));
    lemma_no_int_stream_ok(toks_mount(v));
    assert(toks_mount(v).last() == mnt_tail2(v).last());
}

/// The tokens from the `type` field on hold no integer.
proof fn lemma_mnt_tail2_no_int(v: MountV)
    ensures
        no_int(mnt_tail2(v)),
        mnt_tail2(v).len() >= 1,
        mnt_tail2(v).last() is RBrace,
{
    match v.options {
        Some(os) => {
            lemma_arr_str_no_int(os);
            lemma_no_int_concat(
                seq![GTok::Comma, GTok::Lit("options"@), GTok::Colon],
                toks_arr_str(os),
            );
            lemma_no_int_concat(
                seq![GTok::Comma, GTok::Lit("options"@), GTok::Colon] + toks_arr_str(os),
                seq![GTok::RBrace],
            );
        },
        None => {},
    }
    match v.source {
        Some(s) => {
            lemma_no_int_concat(
                seq![GTok::Comma, GTok::Lit("source"@), GTok::Colon, GTok::Lit(s)],
                mnt_tail4(v),
            );
            assert(mnt_tail3(v).last() == mnt_tail4(v).last());
        },
        None => {},
    }
    match v.typ {
        Some(t) => {
            lemma_no_int_concat(
                seq![GTok::Comma, GTok::Lit("type"@), GTok::Colon, GTok::Lit(t)],
                mnt_tail3(v),
            );
            assert(mnt_tail2(v).last() == mnt_tail3(v).last());
        },
        None => {},
    }
}

/// Finalizes a parsed mount; the destination is required.
pub open spec fn sp_mnt_fin(
    dest: Option<Seq<char>>,
    typ: Option<Option<Seq<char>>>,
    src: Option<Option<Seq<char>>>,
    opts: Option<Option<Seq<Seq<char>>>>,
    rest: Seq<GTok>,
) -> Option<(MountV, Seq<GTok>)> {
    match dest {
        Some(d) => Some(
            (
                MountV { destination: d, typ: flat(typ), source: flat(src), options: flat(opts) },
                rest,
            ),
        ),
        None => None,
    }
}

/// After a mount field's value.
pub open spec fn sp_mnt_after(
    ts: Seq<GTok>,
    dest: Option<Seq<char>>,
    typ: Option<Option<Seq<char>>>,
    src: Option<Option<Seq<char>>>,
    opts: Option<Option<Seq<Seq<char>>>>,
) -> Option<(MountV, Seq<GTok>)>
    decreases ts.len(), 0int,
{
    if ts.len() == 0 {
        None
    } else if ts[0] is Comma {
        sp_mnt_fields(ts.skip(1), dest, typ, src, opts)
    } else if ts[0] is RBrace {
        sp_mnt_fin(dest, typ, src, opts, ts.skip(1))
    } else {
        None
    }
}

/// At a mount field's key.
pub open spec fn sp_mnt_fields(
    ts: Seq<GTok>,
    dest: Option<Seq<char>>,
    typ: Option<Option<Seq<char>>>,
    src: Option<Option<Seq<char>>>,
    opts: Option<Option<Seq<Seq<char>>>>,
) -> Option<(MountV, Seq<GTok>)>
    decreases ts.len(), 1int,
{
    if ts.len() < 2 || !(ts[1] is Colon) {
        None
    } else {
        match ts[0] {
            GTok::Lit(k) => {
                let vts = ts.skip(2);
                if k == "destination"@ {
                    if dest is Some {
                        None
                    } else {
                        match sp_v_str(vts) {
                            Some((s, r)) => if r.len() < ts.len() {
                                sp_mnt_after(r, Some(s), typ, src, opts)
                            } else {
                                None
                            },
                            None => None,
                        }
                    }
                } else if k == "type"@ {
                    if typ is Some {
                        None
                    } else {
                        match sp_v_opt_str(vts) {
                            Some((s, r)) => if r.len() < ts.len() {
                                sp_mnt_after(r, dest, Some(s), src, opts)
                            } else {
                                None
                            },
                            None => None,
                        }
                    }
                } else if k == "source"@ {
                    if src is Some {
                        None
                    } else {
                        match sp_v_opt_str(vts) {
                            Some((s, r)) => if r.len() < ts.len() {
                                sp_mnt_after(r, dest, typ, Some(s), opts)
                            } else {
                                None
                            },
                            None => None,
                        }
                    }
                } else if k == "options"@ {
                    if opts is Some {
                        None
                    } else if vts.len() >= 1 && vts[0] is Null {
                        if vts.len() - 1 < ts.len() {
                            sp_mnt_after(vts.skip(1), dest, typ, src, Some(None))
                        } else {
                            None
                        }
                    } else {
                        match sp_v_arr_str(vts) {
                            Some((os, r)) => if r.len() < ts.len() {
                                sp_mnt_after(r, dest, typ, src, Some(Some(os)))
                            } else {
                                None
                            },
                            None => None,
                        }
                    }
                } else {
                    match sp_skip_val(vts) {
                        Some(r) => if r.len() < ts.len() {
                            sp_mnt_after(r, dest, typ, src, opts)
                        } else {
                            None
                        },
                        None => None,
                    }
                }
            },
            _ => None,
        }
    }
}

/// Parses one mount object.
pub open spec fn sp_mount(ts: Seq<GTok>) -> Option<(MountV, Seq<GTok>)> {
    if ts.len() < 2 || !(ts[0] is LBrace) {
        None
    } else if ts[1] is RBrace {
        None  // the destination is required
    } else {
        sp_mnt_fields(ts.skip(1), None, None, None, None)
    }
}

/// Reveals the mount key literals, pairwise of different lengths.
proof fn lemma_mnt_keys()
    ensures
        "destination"@.len() == 11,
        "type"@.len() == 4,
        "source"@.len() == 6,
        "options"@.len() == 7,
{
    reveal_strlit("destination");
    reveal_strlit("type");
    reveal_strlit("source");
    reveal_strlit("options");
}

proof fn lemma_mnt_rt4(
    v: MountV,
    rest: Seq<GTok>,
    typ: Option<Option<Seq<char>>>,
    src: Option<Option<Seq<char>>>,
)
    requires
        flat(typ) == v.typ,
        flat(src) == v.source,
    ensures
        sp_mnt_after(mnt_tail4(v) + rest, Some(v.destination), typ, src, None) == Some((v, rest)),
{
    lemma_mnt_keys();
    let ts = mnt_tail4(v) + rest;
    match v.options {
        None => {
            assert(ts[0] is RBrace);
            assert(ts.skip(1) =~= rest);
            assert(MountV {
                destination: v.destination,
                typ: flat(typ),
                source: flat(src),
                options: flat(None::<Option<Seq<Seq<char>>>>),
            } =~= v);
        },
        Some(os) => {
            assert(ts[0] is Comma);
            let fs = ts.skip(1);
            assert(fs =~= seq![GTok::Lit("options"@), GTok::Colon] + (toks_arr_str(os) + (seq![
                GTok::RBrace,
            ] + rest)));
            let vts = fs.skip(2);
            assert(vts =~= toks_arr_str(os) + (seq![GTok::RBrace] + rest));
            assert(vts[0] is LBrack);
            assert(!(vts[0] is Null));
            lemma_arr_str_rt(os, seq![GTok::RBrace] + rest);
            let r = seq![GTok::RBrace] + rest;
            assert(r.len() < fs.len());
            assert(r[0] is RBrace);
            assert(r.skip(1) =~= rest);
            assert(MountV {
                destination: v.destination,
                typ: flat(typ),
                source: flat(src),
                options: flat(Some(Some(os))),
            } =~= v);
            assert(sp_mnt_after(r, Some(v.destination), typ, src, Some(Some(os))) == Some(
                (v, rest),
            ));
            assert(sp_mnt_fields(fs, Some(v.destination), typ, src, None) == Some((v, rest)));
        },
    }
}

proof fn lemma_mnt_rt3(v: MountV, rest: Seq<GTok>, typ: Option<Option<Seq<char>>>)
    requires
        flat(typ) == v.typ,
    ensures
        sp_mnt_after(mnt_tail3(v) + rest, Some(v.destination), typ, None, None) == Some((v, rest)),
{
    lemma_mnt_keys();
    let ts = mnt_tail3(v) + rest;
    match v.source {
        None => {
            assert(mnt_tail3(v) == mnt_tail4(v));
            lemma_mnt_rt4(v, rest, typ, None);
        },
        Some(s) => {
            assert(ts[0] is Comma);
            let fs = ts.skip(1);
            assert(fs =~= seq![GTok::Lit("source"@), GTok::Colon, GTok::Lit(s)] + (mnt_tail4(v)
                + rest));
            let vts = fs.skip(2);
            assert(vts =~= seq![GTok::Lit(s)] + (mnt_tail4(v) + rest));
            assert(sp_v_opt_str(vts) == Some((Some(s), vts.skip(1))));
            let r = vts.skip(1);
            assert(r =~= mnt_tail4(v) + rest);
            assert(mnt_tail4(v).len() >= 1);
            assert(r.len() < fs.len());
            lemma_mnt_rt4(v, rest, typ, Some(Some(s)));
            assert(sp_mnt_fields(fs, Some(v.destination), typ, None, None) == Some((v, rest)));
        },
    }
}

proof fn lemma_mnt_rt2(v: MountV, rest: Seq<GTok>)
    ensures
        sp_mnt_after(mnt_tail2(v) + rest, Some(v.destination), None, None, None) == Some(
            (v, rest),
        ),
{
    lemma_mnt_keys();
    let ts = mnt_tail2(v) + rest;
    match v.typ {
        None => {
            assert(mnt_tail2(v) == mnt_tail3(v));
            lemma_mnt_rt3(v, rest, None);
        },
        Some(t) => {
            assert(ts[0] is Comma);
            let fs = ts.skip(1);
            assert(fs =~= seq![GTok::Lit("type"@), GTok::Colon, GTok::Lit(t)] + (mnt_tail3(v)
                + rest));
            let vts = fs.skip(2);
            assert(vts =~= seq![GTok::Lit(t)] + (mnt_tail3(v) + rest));
            assert(sp_v_opt_str(vts) == Some((Some(t), vts.skip(1))));
            let r = vts.skip(1);
            assert(r =~= mnt_tail3(v) + rest);
            assert(mnt_tail3(v).len() >= 1) by {
                match v.source {
                    Some(s) => {},
                    None => {},
                }
            }
            assert(r.len() < fs.len());
            lemma_mnt_rt3(v, rest, Some(Some(t)));
            assert(sp_mnt_fields(fs, Some(v.destination), None, None, None) == Some((v, rest)));
        },
    }
}

/// Parsing an encoded mount recovers it exactly.
pub proof fn lemma_mount_rt(v: MountV, rest: Seq<GTok>)
    ensures
        sp_mount(toks_mount(v) + rest) == Some((v, rest)),
{
    lemma_mnt_keys();
    let ts = toks_mount(v) + rest;
    assert(ts[0] is LBrace && ts[1] == GTok::Lit("destination"@));
    let fs = ts.skip(1);
    assert(fs =~= seq![GTok::Lit("destination"@), GTok::Colon, GTok::Lit(v.destination)] + (
    mnt_tail2(v) + rest));
    let vts = fs.skip(2);
    assert(vts =~= seq![GTok::Lit(v.destination)] + (mnt_tail2(v) + rest));
    assert(sp_v_str(vts) == Some((v.destination, vts.skip(1))));
    let r = vts.skip(1);
    assert(r =~= mnt_tail2(v) + rest);
    lemma_mnt_tail2_no_int(v);
    assert(r.len() < fs.len());
    lemma_mnt_rt2(v, rest);
    assert(sp_mnt_fields(fs, None, None, None, None) == Some((v, rest)));
}

/// The decoded mount of a document text, if it is one.
pub open spec fn sp_decode_mount(text: Seq<char>) -> Option<MountV> {
    match sp_tokenize(text) {
        Some(ts) => match sp_mount(ts) {
            Some((v, rest)) => if rest.len() == 0 {
                Some(v)
            } else {
                None
            },
            None => None,
        },
        None => None,
    }
}

/// Decoding an encoded mount yields it back, in either output mode.
pub proof fn lemma_mount_round_trip(v: MountV, pretty: bool)
    ensures
        sp_decode_mount(render(toks_mount(v), pretty)) == Some(v),
{
    lemma_mount_stream_ok(v);
    lemma_tokenize_render(toks_mount(v), pretty);
    lemma_mount_rt(v, Seq::empty());
    assert(toks_mount(v) + Seq::<GTok>::empty() =~= toks_mount(v));
}

impl Mount {
    /// Appends this value's tokens.
    pub fn push_toks(&self, out: &mut Vec<Token>)
        ensures
            final(out).deep_view() == old(out).deep_view() + toks_mount(self@),
    {
        push_tok(out, Token::LBrace);
        push_tok(out, Token::Lit("destination".to_owned()));
        push_tok(out, Token::Colon);
        push_tok(out, Token::Lit(self.destination.clone()));
        if let Some(t) = &self.typ {
            push_tok(out, Token::Comma);
            push_tok(out, Token::Lit("type".to_owned()));
            push_tok(out, Token::Colon);
            push_tok(out, Token::Lit(t.clone()));
        }
        if let Some(s) = &self.source {
            push_tok(out, Token::Comma);
            push_tok(out, Token::Lit("source".to_owned()));
            push_tok(out, Token::Colon);
            push_tok(out, Token::Lit(s.clone()));
        }
        if let Some(os) = &self.options {
            push_tok(out, Token::Comma);
            push_tok(out, Token::Lit("options".to_owned()));
            push_tok(out, Token::Colon);
            push_arr_str(out, os);
        }
        push_tok(out, Token::RBrace);
        assert(out.deep_view() =~= old(out).deep_view() + toks_mount(self@));
    }

    /// Serializes this value as JSON text, compact or pretty.
    pub fn encode(&self, pretty: bool) -> (r: String)
        ensures
            r@ == render(toks_mount(self@), pretty),
    {
        let mut ts: Vec<Token> = Vec::new();
        self.push_toks(&mut ts);
        proof {
            assert(Seq::<GTok>::empty() + toks_mount(self@) =~= toks_mount(self@));
        }
        render_tokens(&ts, pretty)
    }

    /// Deserializes a mount from JSON text.
    pub fn decode(s: &str) -> (r: Result<Mount, OciSpecError>)
        ensures
            match r {
                Ok(v) => sp_decode_mount(s@) == Some(v@),
                Err(e) => sp_decode_mount(s@) is None && e is SerDe,
            },
    {
        let cs = str_chars(s);
        match tokenize_chars(&cs) {
            None => Err(OciSpecError::SerDe("the input is not well-formed JSON".to_owned())),
            Some(ts) => match p_mount(&ts, 0) {
                Some((v, j)) => {
                    proof {
                        assert(ts.deep_view().skip(0) =~= ts.deep_view());
                    }
                    if j == ts.len() {
                        Ok(v)
                    } else {
                        Err(
                            OciSpecError::SerDe(
                                "unexpected trailing content after the document".to_owned(),
                            ),
                        )
                    }
                },
                None => {
                    proof {
                        assert(ts.deep_view().skip(0) =~= ts.deep_view());
                    }
                    Err(OciSpecError::SerDe("the input is not a mount".to_owned()))
                },
            },
        }
    }
}

/// Parses one mount object, mirroring [`sp_mount`].
#[verifier::rlimit(100)]
pub fn p_mount(ts: &Vec<Token>, i: usize) -> (r: Option<(Mount, usize)>)
    requires
        i <= ts.len(),
    ensures
        match r {
            Some((v, j)) => i < j <= ts.len() && sp_mount(ts.deep_view().skip(i as int)) == Some(
                (v@, ts.deep_view().skip(j as int)),
            ),
            None => sp_mount(ts.deep_view().skip(i as int)) is None,
        },
{
    let ghost dv = ts.deep_view();
    let ghost pre = dv.skip(i as int);
    if ts.len() - i < 2 {
        return None;
    }
    assert(pre[0] == dv[i as int] && pre[1] == dv[i as int + 1]);
    if !matches!(&ts[i], Token::LBrace) {
        return None;
    }
    if matches!(&ts[i + 1], Token::RBrace) {
        return None;
    }
    assert(pre.skip(1) =~= dv.skip(i as int + 1));
    let mut dest: Option<String> = None;
    let mut typ: Option<Option<String>> = None;
    let mut src: Option<Option<String>> = None;
    let mut opts: Option<Option<Vec<String>>> = None;
    let mut k: usize = i + 1;
    loop
        invariant
            i + 1 <= k <= ts.len(),
            dv == ts.deep_view(),
            dv.len() == ts.len(),
            sp_mount(dv.skip(i as int)) == sp_mnt_fields(
                dv.skip(k as int),
                dest.deep_view(),
                typ.deep_view(),
                src.deep_view(),
                opts.deep_view(),
            ),
        decreases ts.len() - k,
    {
        let ghost cur = dv.skip(k as int);
        if ts.len() - k < 2 {
            assert(cur.len() < 2);
            return None;
        }
        assert(cur[0] == dv[k as int] && cur[1] == dv[k as int + 1]);
        if !matches!(&ts[k + 1], Token::Colon) {
            return None;
        }
        let key: String;
        match &ts[k] {
            Token::Lit(k0) => {
                key = k0.clone();
            },
            _ => {
                return None;
            },
        }
        assert(cur.skip(2) =~= dv.skip(k as int + 2));
        let j: usize;
        if str_eq_lit(&key, "destination") {
            if dest.is_some() {
                return None;
            }
            if k + 2 >= ts.len() {
                return None;
            }
            assert(cur.skip(2)[0] == dv[k as int + 2]);
            match &ts[k + 2] {
                Token::Lit(s) => {
                    dest = Some(s.clone());
                },
                _ => {
                    return None;
                },
            }
            assert(cur.skip(2).skip(1) =~= dv.skip(k as int + 3));
            j = k + 3;
        } else if str_eq_lit(&key, "type") {
            if typ.is_some() {
                return None;
            }
            if k + 2 >= ts.len() {
                return None;
            }
            assert(cur.skip(2)[0] == dv[k as int + 2]);
            match &ts[k + 2] {
                Token::Lit(s) => {
                    typ = Some(Some(s.clone()));
                },
                Token::Null => {
                    typ = Some(None);
                },
                _ => {
                    return None;
                },
            }
            assert(cur.skip(2).skip(1) =~= dv.skip(k as int + 3));
            j = k + 3;
        } else if str_eq_lit(&key, "source") {
            if src.is_some() {
                return None;
            }
            if k + 2 >= ts.len() {
                return None;
            }
            assert(cur.skip(2)[0] == dv[k as int + 2]);
            match &ts[k + 2] {
                Token::Lit(s) => {
                    src = Some(Some(s.clone()));
                },
                Token::Null => {
                    src = Some(None);
                },
                _ => {
                    return None;
                },
            }
            assert(cur.skip(2).skip(1) =~= dv.skip(k as int + 3));
            j = k + 3;
        } else if str_eq_lit(&key, "options") {
            if opts.is_some() {
                return None;
            }
            if k + 2 >= ts.len() {
                return None;
            }
            assert(cur.skip(2)[0] == dv[k as int + 2]);
            if matches!(&ts[k + 2], Token::Null) {
                opts = Some(None);
                assert(cur.skip(2).skip(1) =~= dv.skip(k as int + 3));
                j = k + 3;
            } else {
                match p_arr_str(ts, k + 2) {
                    Some((os, j2)) => {
                        opts = Some(Some(os));
                        j = j2;
                    },
                    None => {
                        return None;
                    },
                }
            }
        } else {
            match skip_val_exec(ts, k + 2) {
                Some(j2) => {
                    j = j2;
                },
                None => {
                    return None;
                },
            }
        }
        assert(dv.skip(j as int).len() < cur.len());
        if j == ts.len() {
            return None;
        }
        assert(dv.skip(j as int)[0] == dv[j as int]);
        assert(dv.skip(j as int).skip(1) =~= dv.skip(j as int + 1));
        match &ts[j] {
            Token::Comma => {
                k = j + 1;
            },
            Token::RBrace => {
                match dest {
                    Some(d) => {
                        let v = Mount {
                            destination: d,
                            typ: match typ {
                                Some(x) => x,
                                None => None,
                            },
                            source: match src {
                                Some(x) => x,
                                None => None,
                            },
                            options: match opts {
                                Some(x) => x,
                                None => None,
                            },
                        };
                        assert(v@ =~= MountV {
                            destination: v.destination@,
                            typ: flat(typ.deep_view()),
                            source: flat(src.deep_view()),
                            options: flat(opts.deep_view()),
                        });
                        return Some((v, j + 1));
                    },
                    None => {
                        return None;
                    },
                }
            },
            _ => {
                return None;
            },
        }
    }
}

impl PartialEq for Root {
    /// Two roots are equal exactly when their mathematical values agree; the
    /// check compares canonical encodings, which the round-trip law makes
    /// injective.
    fn eq(&self, other: &Self) -> (r: bool) {
        let a = self.encode(false);
        let b = other.encode(false);
        let r = a.eq(&b);
        proof {
            lemma_root_round_trip(self@, false);
            lemma_root_round_trip(other@, false);
        }
        r
    }
}

impl vstd::std_specs::cmp::PartialEqSpecImpl for Root {
    open spec fn obeys_eq_spec() -> bool {
        true
    }

    open spec fn eq_spec(&self, other: &Self) -> bool {
        self@ == other@
    }
}

impl PartialEq for Mount {
    /// See [`Root::eq`].
    fn eq(&self, other: &Self) -> (r: bool) {
        let a = self.encode(false);
        let b = other.encode(false);
        let r = a.eq(&b);
        proof {
            lemma_mount_round_trip(self@, false);
            lemma_mount_round_trip(other@, false);
        }
        r
    }
}

impl vstd::std_specs::cmp::PartialEqSpecImpl for Mount {
    open spec fn obeys_eq_spec() -> bool {
        true
    }

    open spec fn eq_spec(&self, other: &Self) -> bool {
        self@ == other@
    }
}

// ---------------------------------------------------------------------------
// The recommended default mounts
// ---------------------------------------------------------------------------

/// The spec-recommended default mount set, as a mathematical sequence.
pub open spec fn default_mounts_v() -> Seq<MountV> {
    seq![
        MountV {
            destination: "/proc"@,
            typ: Some("proc"@),
            source: Some("proc"@),
            options: None,
        },
        MountV {
            destination: "/dev"@,
            typ: Some("tmpfs"@),
            source: Some("tmpfs"@),
            options: Some(seq!["nosuid"@, "strictatime"@, "mode=755"@, "size=65536k"@]),
        },
        MountV {
            destination: "/dev/pts"@,
            typ: Some("devpts"@),
            source: Some("devpts"@),
            options: Some(
                seq![
                    "nosuid"@,
                    "noexec"@,
                    "newinstance"@,
                    "ptmxmode=0666"@,
                    "mode=0620"@,
                    "gid=5"@,
                ],
            ),
        },
        MountV {
            destination: "/dev/shm"@,
            typ: Some("tmpfs"@),
            source: Some("shm"@),
            options: Some(seq!["nosuid"@, "noexec"@, "nodev"@, "mode=1777"@, "size=65536k"@]),
        },
        MountV {
            destination: "/dev/mqueue"@,
            typ: Some("mqueue"@),
            source: Some("mqueue"@),
            options: Some(seq!["nosuid"@, "noexec"@, "nodev"@]),
        },
        MountV {
            destination: "/sys"@,
            typ: Some("sysfs"@),
            source: Some("sysfs"@),
            options: Some(seq!["nosuid"@, "noexec"@, "nodev"@, "ro"@]),
        },
        MountV {
            destination: "/sys/fs/cgroup"@,
            typ: Some("cgroup"@),
            source: Some("cgroup"@),
            options: Some(seq!["nosuid"@, "noexec"@, "nodev"@, "relatime"@, "ro"@]),
        },
    ]
}

/// Builds one mount from its parts.
fn mk_mount(destination: &str, typ: &str, source: &str, options: Vec<String>, with_opts: bool) -> (r:
    Mount)
    ensures
        r@ == (MountV {
            destination: destination@,
            typ: Some(typ@),
            source: Some(source@),
            options: if with_opts {
                Some(options.deep_view())
            } else {
                None
            },
        }),
{
    let r = Mount {
        destination: destination.to_owned(),
        typ: Some(typ.to_owned()),
        source: Some(source.to_owned()),
        options: if with_opts {
            Some(options)
        } else {
            None
        },
    };
    assert(r@ =~= MountV {
        destination: destination@,
        typ: Some(typ@),
        source: Some(source@),
        options: if with_opts {
            Some(r.options.deep_view()->Some_0)
        } else {
            None
        },
    });
    r
}

/// Collects string literals into a vector.
fn strs4(a: &str, b: &str, c: &str, d: &str) -> (r: Vec<String>)
    ensures
        r.deep_view() == seq![a@, b@, c@, d@],
{
    let mut v: Vec<String> = Vec::new();
    v.push(a.to_owned());
    v.push(b.to_owned());
    v.push(c.to_owned());
    v.push(d.to_owned());
    assert(v.deep_view() =~= seq![a@, b@, c@, d@]);
    v
}

/// Collects string literals into a vector.
fn strs6(a: &str, b: &str, c: &str, d: &str, e: &str, f: &str) -> (r: Vec<String>)
    ensures
        r.deep_view() == seq![a@, b@, c@, d@, e@, f@],
{
    let mut v: Vec<String> = Vec::new();
    v.push(a.to_owned());
    v.push(b.to_owned());
    v.push(c.to_owned());
    v.push(d.to_owned());
    v.push(e.to_owned());
    v.push(f.to_owned());
    assert(v.deep_view() =~= seq![a@, b@, c@, d@, e@, f@]);
    v
}

/// Collects string literals into a vector.
fn strs5(a: &str, b: &str, c: &str, d: &str, e: &str) -> (r: Vec<String>)
    ensures
        r.deep_view() == seq![a@, b@, c@, d@, e@],
{
    let mut v: Vec<String> = Vec::new();
    v.push(a.to_owned());
    v.push(b.to_owned());
    v.push(c.to_owned());
    v.push(d.to_owned());
    v.push(e.to_owned());
    assert(v.deep_view() =~= seq![a@, b@, c@, d@, e@]);
    v
}

/// Collects string literals into a vector.
fn strs3(a: &str, b: &str, c: &str) -> (r: Vec<String>)
    ensures
        r.deep_view() == seq![a@, b@, c@],
{
    let mut v: Vec<String> = Vec::new();
    v.push(a.to_owned());
    v.push(b.to_owned());
    v.push(c.to_owned());
    assert(v.deep_view() =~= seq![a@, b@, c@]);
    v
}

/// The spec-recommended default mount set, freshly built on every call so
/// that no two callers ever share state.
pub fn get_default_mounts() -> (r: Vec<Mount>)
    ensures
        r.deep_view() == default_mounts_v(),
{
    let mut v: Vec<Mount> = Vec::new();
    v.push(mk_mount("/proc", "proc", "proc", Vec::new(), false));
    v.push(mk_mount("/dev", "tmpfs", "tmpfs", strs4("nosuid", "strictatime", "mode=755", "size=65536k"), true));
    v.push(
        mk_mount(
            "/dev/pts",
            "devpts",
            "devpts",
            strs6("nosuid", "noexec", "newinstance", "ptmxmode=0666", "mode=0620", "gid=5"),
            true,
        ),
    );
    v.push(
        mk_mount(
            "/dev/shm",
            "tmpfs",
            "shm",
            strs5("nosuid", "noexec", "nodev", "mode=1777", "size=65536k"),
            true,
        ),
    );
    v.push(mk_mount("/dev/mqueue", "mqueue", "mqueue", strs3("nosuid", "noexec", "nodev"), true));
    v.push(mk_mount("/sys", "sysfs", "sysfs", strs4("nosuid", "noexec", "nodev", "ro"), true));
    v.push(
        mk_mount(
            "/sys/fs/cgroup",
            "cgroup",
            "cgroup",
            strs5("nosuid", "noexec", "nodev", "relatime", "ro"),
            true,
        ),
    );
    assert(v.deep_view() =~= default_mounts_v());
    v
}

/// Re-encoding what was decoded from encoder output reproduces those bytes
/// exactly: canonical idempotence for mounts, either mode.
pub proof fn lemma_mount_canonical(v: MountV, pretty: bool)
    ensures
        ({
            let b = render(toks_mount(v), pretty);
            &&& sp_decode_mount(b) matches Some(w)
            &&& render(toks_mount(sp_decode_mount(b)->Some_0), pretty) == b
        }),
{
    lemma_mount_round_trip(v, pretty);
}

// ---------------------------------------------------------------------------
// Lifecycle hooks
// ---------------------------------------------------------------------------

/// A command run at a particular event in a container's lifecycle.
#[derive(Clone, Debug)]
pub struct Hook {
    /// The path to the binary; must be absolute.
    pub path: String,
    /// The arguments, including the binary name itself.
    pub args: Option<Vec<String>>,
    /// Additional `key=value` environment entries.
    pub env: Option<Vec<String>>,
    /// Seconds before the hook is aborted; when set, it must be greater
    /// than zero.
    pub timeout: Option<i64>,
}

impl Default for Hook {
    /// A hook with an empty path and nothing else set.
    fn default() -> (r: Self)
        ensures
            r.path@ == Seq::<char>::empty(),
            r.args is None && r.env is None && r.timeout is None,
    {
        Hook { path: String::new(), args: None, env: None, timeout: None }
    }
}

/// The mathematical value of a [`Hook`].
#[verifier::ext_equal]
pub struct HookV {
    pub path: Seq<char>,
    pub args: Option<Seq<Seq<char>>>,
    pub env: Option<Seq<Seq<char>>>,
    pub timeout: Option<i64>,
}

impl View for Hook {
    type V = HookV;

    open spec fn view(&self) -> HookV {
        HookV {
            path: self.path@,
            args: self.args.deep_view(),
            env: self.env.deep_view(),
            timeout: self.timeout,
        }
    }
}

impl DeepView for Hook {
    type V = HookV;

    open spec fn deep_view(&self) -> HookV {
        self.view()
    }
}

/// Tokens from the `timeout` field on.
pub open spec fn hook_tail4(v: HookV) -> Seq<GTok> {
    match v.timeout {
        Some(t) => seq![
            GTok::Comma,
            GTok::Lit("timeout"@),
            GTok::Colon,
            GTok::Int(t as int),
            GTok::RBrace,
        ],
        None => seq![GTok::RBrace],
    }
}

/// Tokens from the `env` field on.
pub open spec fn hook_tail3(v: HookV) -> Seq<GTok> {
    match v.env {
        Some(es) => seq![GTok::Comma, GTok::Lit("env"@), GTok::Colon] + toks_arr_str(es)
            + hook_tail4(v),
        None => hook_tail4(v),
    }
}

/// Tokens from the `args` field on.
pub open spec fn hook_tail2(v: HookV) -> Seq<GTok> {
    match v.args {
        Some(xs) => seq![GTok::Comma, GTok::Lit("args"@), GTok::Colon] + toks_arr_str(xs)
            + hook_tail3(v),
        None => hook_tail3(v),
    }
}

/// The tokens of an encoded hook.
pub open spec fn toks_hook(v: HookV) -> Seq<GTok> {
    seq![GTok::LBrace, GTok::Lit("path"@), GTok::Colon, GTok::Lit(v.path)] + hook_tail2(v)
}

/// An encoded hook is a well-separated stream enclosed in braces.
pub proof fn lemma_hook_stream_ok(v: HookV)
    ensures
        stream_ok(toks_hook(v)),
        toks_hook(v).len() >= 2,
        !(toks_hook(v)[0] is Int),
        !(toks_hook(v).last() is Int),
{
    lemma_hook_tail2_stream_ok(v);
    assert(stream_ok(seq![GTok::LBrace, GTok::Lit("path"@), GTok::Colon, GTok::Lit(v.path)]));
    lemma_stream_ok_concat(
        seq![GTok::LBrace, GTok::Lit("path"@), GTok::Colon, GTok::Lit(v.path)],
        hook_tail2(v),
    );
    assert(toks_hook(v).last() == hook_tail2(v).last());
}

/// The tokens from the `args` field on are well separated, start with a
/// comma or brace, and end with the closing brace.
proof fn lemma_hook_tail2_stream_ok(v: HookV)
    ensures
        stream_ok(hook_tail2(v)),
        hook_tail2(v).len() >= 1,
        hook_tail2(v)[0] is Comma || hook_tail2(v)[0] is RBrace,
        hook_tail2(v).last() is RBrace,
{
    assert(stream_ok(hook_tail4(v)) && hook_tail4(v).last() is RBrace && (hook_tail4(v)[0]
        is Comma || hook_tail4(v)[0] is RBrace)) by {
        match v.timeout {
            Some(t) => {},
            None => {},
        }
    }
    match v.env {
        Some(es) => {
            lemma_arr_str_no_int(es);
            lemma_no_int_stream_ok(toks_arr_str(es));
            lemma_stream_ok_concat(
                seq![GTok::Comma, GTok::Lit("env"@), GTok::Colon],
                toks_arr_str(es),
            );
            assert(seq![GTok::Comma, GTok::Lit("env"@), GTok::Colon] + toks_arr_str(es)
                + hook_tail4(v) =~= (seq![GTok::Comma, GTok::Lit("env"@), GTok::Colon]
                + toks_arr_str(es)) + hook_tail4(v));
            lemma_stream_ok_concat(
                seq![GTok::Comma, GTok::Lit("env"@), GTok::Colon] + toks_arr_str(es),
                hook_tail4(v),
            );
            assert(hook_tail3(v).last() == hook_tail4(v).last());
        },
        None => {},
    }
    match v.args {
        Some(xs) => {
            lemma_arr_str_no_int(xs);
            lemma_no_int_stream_ok(toks_arr_str(xs));
            lemma_stream_ok_concat(
                seq![GTok::Comma, GTok::Lit("args"@), GTok::Colon],
                toks_arr_str(xs),
            );
            assert(seq![GTok::Comma, GTok::Lit("args"@), GTok::Colon] + toks_arr_str(xs)
                + hook_tail3(v) =~= (seq![GTok::Comma, GTok::Lit("args"@), GTok::Colon]
                + toks_arr_str(xs)) + hook_tail3(v));
            lemma_stream_ok_concat(
                seq![GTok::Comma, GTok::Lit("args"@), GTok::Colon] + toks_arr_str(xs),
                hook_tail3(v),
            );
            assert(hook_tail2(v).last() == hook_tail3(v).last());
        },
        None => {},
    }
}

/// Finalizes a parsed hook; the path is required.
pub open spec fn sp_hook_fin(
    path: Option<Seq<char>>,
    args: Option<Option<Seq<Seq<char>>>>,
    env: Option<Option<Seq<Seq<char>>>>,
    tmo: Option<Option<i64>>,
    rest: Seq<GTok>,
) -> Option<(HookV, Seq<GTok>)> {
    match path {
        Some(p) => Some(
            (HookV { path: p, args: flat(args), env: flat(env), timeout: flat(tmo) }, rest),
        ),
        None => None,
    }
}

/// After a hook field's value.
pub open spec fn sp_hook_after(
    ts: Seq<GTok>,
    path: Option<Seq<char>>,
    args: Option<Option<Seq<Seq<char>>>>,
    env: Option<Option<Seq<Seq<char>>>>,
    tmo: Option<Option<i64>>,
) -> Option<(HookV, Seq<GTok>)>
    decreases ts.len(), 0int,
{
    if ts.len() == 0 {
        None
    } else if ts[0] is Comma {
        sp_hook_fields(ts.skip(1), path, args, env, tmo)
    } else if ts[0] is RBrace {
        sp_hook_fin(path, args, env, tmo, ts.skip(1))
    } else {
        None
    }
}

/// At a hook field's key.
pub open spec fn sp_hook_fields(
    ts: Seq<GTok>,
    path: Option<Seq<char>>,
    args: Option<Option<Seq<Seq<char>>>>,
    env: Option<Option<Seq<Seq<char>>>>,
    tmo: Option<Option<i64>>,
) -> Option<(HookV, Seq<GTok>)>
    decreases ts.len(), 1int,
{
    if ts.len() < 2 || !(ts[1] is Colon) {
        None
    } else {
        match ts[0] {
            GTok::Lit(k) => {
                let vts = ts.skip(2);
                if k == "path"@ {
                    if path is Some {
                        None
                    } else {
                        match sp_v_str(vts) {
                            Some((s, r)) => if r.len() < ts.len() {
                                sp_hook_after(r, Some(s), args, env, tmo)
                            } else {
                                None
                            },
                            None => None,
                        }
                    }
                } else if k == "args"@ {
                    if args is Some {
                        None
                    } else if vts.len() >= 1 && vts[0] is Null {
                        if vts.len() - 1 < ts.len() {
                            sp_hook_after(vts.skip(1), path, Some(None), env, tmo)
                        } else {
                            None
                        }
                    } else {
                        match sp_v_arr_str(vts) {
                            Some((xs, r)) => if r.len() < ts.len() {
                                sp_hook_after(r, path, Some(Some(xs)), env, tmo)
                            } else {
                                None
                            },
                            None => None,
                        }
                    }
                } else if k == "env"@ {
                    if env is Some {
                        None
                    } else if vts.len() >= 1 && vts[0] is Null {
                        if vts.len() - 1 < ts.len() {
                            sp_hook_after(vts.skip(1), path, args, Some(None), tmo)
                        } else {
                            None
                        }
                    } else {
                        match sp_v_arr_str(vts) {
                            Some((es, r)) => if r.len() < ts.len() {
                                sp_hook_after(r, path, args, Some(Some(es)), tmo)
                            } else {
                                None
                            },
                            None => None,
                        }
                    }
                } else if k == "timeout"@ {
                    if tmo is Some {
                        None
                    } else {
                        match sp_v_opt_i64(vts) {
                            Some((t, r)) => if r.len() < ts.len() {
                                sp_hook_after(r, path, args, env, Some(t))
                            } else {
                                None
                            },
                            None => None,
                        }
                    }
                } else {
                    match sp_skip_val(vts) {
                        Some(r) => if r.len() < ts.len() {
                            sp_hook_after(r, path, args, env, tmo)
                        } else {
                            None
                        },
                        None => None,
                    }
                }
            },
            _ => None,
        }
    }
}

/// Parses one hook object.
pub open spec fn sp_hook(ts: Seq<GTok>) -> Option<(HookV, Seq<GTok>)> {
    if ts.len() < 2 || !(ts[0] is LBrace) {
        None
    } else if ts[1] is RBrace {
        None  // the path is required
    } else {
        sp_hook_fields(ts.skip(1), None, None, None, None)
    }
}

/// Reveals the hook key literals; `path` and `args` share a length and
/// differ at their first character.
proof fn lemma_hook_keys()
    ensures
        "path"@.len() == 4,
        "args"@.len() == 4,
        "env"@.len() == 3,
        "timeout"@.len() == 7,
        "path"@ != "args"@,
{
    reveal_strlit("path");
    reveal_strlit("args");
    reveal_strlit("env");
    reveal_strlit("timeout");
    assert("path"@[0] != "args"@[0]);
}

proof fn lemma_hook_rt4(
    v: HookV,
    rest: Seq<GTok>,
    args: Option<Option<Seq<Seq<char>>>>,
    env: Option<Option<Seq<Seq<char>>>>,
)
    requires
        flat(args) == v.args,
        flat(env) == v.env,
    ensures
        sp_hook_after(hook_tail4(v) + rest, Some(v.path), args, env, None) == Some((v, rest)),
{
    lemma_hook_keys();
    let ts = hook_tail4(v) + rest;
    match v.timeout {
        None => {
            assert(ts[0] is RBrace);
            assert(ts.skip(1) =~= rest);
            assert(HookV {
                path: v.path,
                args: flat(args),
                env: flat(env),
                timeout: flat(None::<Option<i64>>),
            } =~= v);
        },
        Some(t) => {
            assert(ts[0] is Comma);
            let fs = ts.skip(1);
            assert(fs =~= seq![
                GTok::Lit("timeout"@),
                GTok::Colon,
                GTok::Int(t as int),
                GTok::RBrace,
            ] + rest);
            let vts = fs.skip(2);
            assert(sp_v_opt_i64(vts) == Some((Some(t), vts.skip(1))));
            let r = vts.skip(1);
            assert(r =~= seq![GTok::RBrace] + rest);
            assert(r.len() < fs.len());
            assert(r[0] is RBrace);
            assert(r.skip(1) =~= rest);
            assert(HookV {
                path: v.path,
                args: flat(args),
                env: flat(env),
                timeout: flat(Some(Some(t))),
            } =~= v);
            assert(sp_hook_after(r, Some(v.path), args, env, Some(Some(t))) == Some((v, rest)));
            assert(sp_hook_fields(fs, Some(v.path), args, env, None) == Some((v, rest)));
        },
    }
}

proof fn lemma_hook_rt3(v: HookV, rest: Seq<GTok>, args: Option<Option<Seq<Seq<char>>>>)
    requires
        flat(args) == v.args,
    ensures
        sp_hook_after(hook_tail3(v) + rest, Some(v.path), args, None, None) == Some((v, rest)),
{
    lemma_hook_keys();
    let ts = hook_tail3(v) + rest;
    match v.env {
        None => {
            assert(hook_tail3(v) == hook_tail4(v));
            lemma_hook_rt4(v, rest, args, None);
        },
        Some(es) => {
            assert(ts[0] is Comma);
            let fs = ts.skip(1);
            assert(fs =~= seq![GTok::Lit("env"@), GTok::Colon] + (toks_arr_str(es) + (hook_tail4(v)
                + rest)));
            let vts = fs.skip(2);
            assert(vts =~= toks_arr_str(es) + (hook_tail4(v) + rest));
            assert(vts[0] is LBrack);
            assert(!(vts[0] is Null));
            lemma_arr_str_rt(es, hook_tail4(v) + rest);
            let r = hook_tail4(v) + rest;
            assert(hook_tail4(v).len() >= 1) by {
                match v.timeout {
                    Some(t) => {},
                    None => {},
                }
            }
            assert(r.len() < fs.len());
            lemma_hook_rt4(v, rest, args, Some(Some(es)));
            assert(sp_hook_fields(fs, Some(v.path), args, None, None) == Some((v, rest)));
        },
    }
}

proof fn lemma_hook_rt2(v: HookV, rest: Seq<GTok>)
    ensures
        sp_hook_after(hook_tail2(v) + rest, Some(v.path), None, None, None) == Some((v, rest)),
{
    lemma_hook_keys();
    let ts = hook_tail2(v) + rest;
    match v.args {
        None => {
            assert(hook_tail2(v) == hook_tail3(v));
            lemma_hook_rt3(v, rest, None);
        },
        Some(xs) => {
            assert(ts[0] is Comma);
            let fs = ts.skip(1);
            assert(fs =~= seq![GTok::Lit("args"@), GTok::Colon] + (toks_arr_str(xs) + (hook_tail3(
                v,
            ) + rest)));
            let vts = fs.skip(2);
            assert(vts =~= toks_arr_str(xs) + (hook_tail3(v) + rest));
            assert(vts[0] is LBrack);
            assert(!(vts[0] is Null));
            lemma_arr_str_rt(xs, hook_tail3(v) + rest);
            let r = hook_tail3(v) + rest;
            lemma_hook_tail2_stream_ok(v);
            assert(hook_tail3(v).len() >= 1) by {
                match v.env {
                    Some(es) => {},
                    None => {
                        match v.timeout {
                            Some(t) => {},
                            None => {},
                        }
                    },
                }
            }
            assert(r.len() < fs.len());
            lemma_hook_rt3(v, rest, Some(Some(xs)));
            assert(sp_hook_fields(fs, Some(v.path), None, None, None) == Some((v, rest)));
        },
    }
}

/// Parsing an encoded hook recovers it exactly.
pub proof fn lemma_hook_rt(v: HookV, rest: Seq<GTok>)
    ensures
        sp_hook(toks_hook(v) + rest) == Some((v, rest)),
{
    lemma_hook_keys();
    let ts = toks_hook(v) + rest;
    assert(ts[0] is LBrace && ts[1] == GTok::Lit("path"@));
    let fs = ts.skip(1);
    assert(fs =~= seq![GTok::Lit("path"@), GTok::Colon, GTok::Lit(v.path)] + (hook_tail2(v)
        + rest));
    let vts = fs.skip(2);
    assert(vts =~= seq![GTok::Lit(v.path)] + (hook_tail2(v) + rest));
    assert(sp_v_str(vts) == Some((v.path, vts.skip(1))));
    let r = vts.skip(1);
    assert(r =~= hook_tail2(v) + rest);
    lemma_hook_tail2_stream_ok(v);
    assert(r.len() < fs.len());
    lemma_hook_rt2(v, rest);
    assert(sp_hook_fields(fs, None, None, None, None) == Some((v, rest)));
}

/// The decoded hook of a document text, if it is one.
pub open spec fn sp_decode_hook(text: Seq<char>) -> Option<HookV> {
    match sp_tokenize(text) {
        Some(ts) => match sp_hook(ts) {
            Some((v, rest)) => if rest.len() == 0 {
                Some(v)
            } else {
                None
            },
            None => None,
        },
        None => None,
    }
}

impl Hook {
    /// Appends this value's tokens.
    pub fn push_toks(&self, out: &mut Vec<Token>)
        ensures
            final(out).deep_view() == old(out).deep_view() + toks_hook(self@),
    {
        push_tok(out, Token::LBrace);
        push_tok(out, Token::Lit("path".to_owned()));
        push_tok(out, Token::Colon);
        push_tok(out, Token::Lit(self.path.clone()));
        if let Some(xs) = &self.args {
            push_tok(out, Token::Comma);
            push_tok(out, Token::Lit("args".to_owned()));
            push_tok(out, Token::Colon);
            push_arr_str(out, xs);
        }
        if let Some(es) = &self.env {
            push_tok(out, Token::Comma);
            push_tok(out, Token::Lit("env".to_owned()));
            push_tok(out, Token::Colon);
            push_arr_str(out, es);
        }
        if let Some(t) = self.timeout {
            push_tok(out, Token::Comma);
            push_tok(out, Token::Lit("timeout".to_owned()));
            push_tok(out, Token::Colon);
            push_tok(out, Token::Int(t));
        }
        push_tok(out, Token::RBrace);
        assert(out.deep_view() =~= old(out).deep_view() + toks_hook(self@));
    }

    /// Serializes this value as JSON text, compact or pretty.
    pub fn encode(&self, pretty: bool) -> (r: String)
        ensures
            r@ == render(toks_hook(self@), pretty),
    {
        let mut ts: Vec<Token> = Vec::new();
        self.push_toks(&mut ts);
        proof {
            assert(Seq::<GTok>::empty() + toks_hook(self@) =~= toks_hook(self@));
        }
        render_tokens(&ts, pretty)
    }

    /// Deserializes a hook from JSON text.
    pub fn decode(s: &str) -> (r: Result<Hook, OciSpecError>)
        ensures
            match r {
                Ok(v) => sp_decode_hook(s@) == Some(v@),
                Err(e) => sp_decode_hook(s@) is None && e is SerDe,
            },
    {
        let cs = str_chars(s);
        match tokenize_chars(&cs) {
            None => Err(OciSpecError::SerDe("the input is not well-formed JSON".to_owned())),
            Some(ts) => match p_hook(&ts, 0) {
                Some((v, j)) => {
                    proof {
                        assert(ts.deep_view().skip(0) =~= ts.deep_view());
                    }
                    if j == ts.len() {
                        Ok(v)
                    } else {
                        Err(
                            OciSpecError::SerDe(
                                "unexpected trailing content after the document".to_owned(),
                            ),
                        )
                    }
                },
                None => {
                    proof {
                        assert(ts.deep_view().skip(0) =~= ts.deep_view());
                    }
                    Err(OciSpecError::SerDe("the input is not a hook".to_owned()))
                },
            },
        }
    }
}

/// Parses one hook object, mirroring [`sp_hook`].
#[verifier::rlimit(100)]
pub fn p_hook(ts: &Vec<Token>, i: usize) -> (r: Option<(Hook, usize)>)
    requires
        i <= ts.len(),
    ensures
        match r {
            Some((v, j)) => i < j <= ts.len() && sp_hook(ts.deep_view().skip(i as int)) == Some(
                (v@, ts.deep_view().skip(j as int)),
            ),
            None => sp_hook(ts.deep_view().skip(i as int)) is None,
        },
{
    let ghost dv = ts.deep_view();
    let ghost pre = dv.skip(i as int);
    if ts.len() - i < 2 {
        return None;
    }
    assert(pre[0] == dv[i as int] && pre[1] == dv[i as int + 1]);
    if !matches!(&ts[i], Token::LBrace) {
        return None;
    }
    if matches!(&ts[i + 1], Token::RBrace) {
        return None;
    }
    assert(pre.skip(1) =~= dv.skip(i as int + 1));
    let mut path: Option<String> = None;
    let mut args: Option<Option<Vec<String>>> = None;
    let mut env: Option<Option<Vec<String>>> = None;
    let mut tmo: Option<Option<i64>> = None;
    let mut k: usize = i + 1;
    loop
        invariant
            i + 1 <= k <= ts.len(),
            dv == ts.deep_view(),
            dv.len() == ts.len(),
            sp_hook(dv.skip(i as int)) == sp_hook_fields(
                dv.skip(k as int),
                path.deep_view(),
                args.deep_view(),
                env.deep_view(),
                tmo,
            ),
        decreases ts.len() - k,
    {
        let ghost cur = dv.skip(k as int);
        if ts.len() - k < 2 {
            assert(cur.len() < 2);
            return None;
        }
        assert(cur[0] == dv[k as int] && cur[1] == dv[k as int + 1]);
        if !matches!(&ts[k + 1], Token::Colon) {
            return None;
        }
        let key: String;
        match &ts[k] {
            Token::Lit(k0) => {
                key = k0.clone();
            },
            _ => {
                return None;
            },
        }
        assert(cur.skip(2) =~= dv.skip(k as int + 2));
        let j: usize;
        if str_eq_lit(&key, "path") {
            if path.is_some() {
                return None;
            }
            if k + 2 >= ts.len() {
                return None;
            }
            assert(cur.skip(2)[0] == dv[k as int + 2]);
            match &ts[k + 2] {
                Token::Lit(s) => {
                    path = Some(s.clone());
                },
                _ => {
                    return None;
                },
            }
            assert(cur.skip(2).skip(1) =~= dv.skip(k as int + 3));
            j = k + 3;
        } else if str_eq_lit(&key, "args") {
            if args.is_some() {
                return None;
            }
            if k + 2 >= ts.len() {
                return None;
            }
            assert(cur.skip(2)[0] == dv[k as int + 2]);
            if matches!(&ts[k + 2], Token::Null) {
                args = Some(None);
                assert(cur.skip(2).skip(1) =~= dv.skip(k as int + 3));
                j = k + 3;
            } else {
                match p_arr_str(ts, k + 2) {
                    Some((xs, j2)) => {
                        args = Some(Some(xs));
                        j = j2;
                    },
                    None => {
                        return None;
                    },
                }
            }
        } else if str_eq_lit(&key, "env") {
            if env.is_some() {
                return None;
            }
            if k + 2 >= ts.len() {
                return None;
            }
            assert(cur.skip(2)[0] == dv[k as int + 2]);
            if matches!(&ts[k + 2], Token::Null) {
                env = Some(None);
                assert(cur.skip(2).skip(1) =~= dv.skip(k as int + 3));
                j = k + 3;
            } else {
                match p_arr_str(ts, k + 2) {
                    Some((es, j2)) => {
                        env = Some(Some(es));
                        j = j2;
                    },
                    None => {
                        return None;
                    },
                }
            }
        } else if str_eq_lit(&key, "timeout") {
            if tmo.is_some() {
                return None;
            }
            if k + 2 >= ts.len() {
                return None;
            }
            assert(cur.skip(2)[0] == dv[k as int + 2]);
            match &ts[k + 2] {
                Token::Int(t) => {
                    tmo = Some(Some(*t));
                },
                Token::Null => {
                    tmo = Some(None);
                },
                _ => {
                    return None;
                },
            }
            assert(cur.skip(2).skip(1) =~= dv.skip(k as int + 3));
            j = k + 3;
        } else {
            match skip_val_exec(ts, k + 2) {
                Some(j2) => {
                    j = j2;
                },
                None => {
                    return None;
                },
            }
        }
        assert(dv.skip(j as int).len() < cur.len());
        if j == ts.len() {
            return None;
        }
        assert(dv.skip(j as int)[0] == dv[j as int]);
        assert(dv.skip(j as int).skip(1) =~= dv.skip(j as int + 1));
        match &ts[j] {
            Token::Comma => {
                k = j + 1;
            },
            Token::RBrace => {
                match path {
                    Some(p) => {
                        let v = Hook {
                            path: p,
                            args: match args {
                                Some(x) => x,
                                None => None,
                            },
                            env: match env {
                                Some(x) => x,
                                None => None,
                            },
                            timeout: match tmo {
                                Some(x) => x,
                                None => None,
                            },
                        };
                        assert(v@ =~= HookV {
                            path: v.path@,
                            args: flat(args.deep_view()),
                            env: flat(env.deep_view()),
                            timeout: flat(tmo),
                        });
                        return Some((v, j + 1));
                    },
                    None => {
                        return None;
                    },
                }
            },
            _ => {
                return None;
            },
        }
    }
}

/// Decoding an encoded hook yields it back, in either output mode.
pub proof fn lemma_hook_round_trip(v: HookV, pretty: bool)
    ensures
        sp_decode_hook(render(toks_hook(v), pretty)) == Some(v),
{
    lemma_hook_stream_ok(v);
    lemma_tokenize_render(toks_hook(v), pretty);
    lemma_hook_rt(v, Seq::empty());
    assert(toks_hook(v) + Seq::<GTok>::empty() =~= toks_hook(v));
}

/// Re-encoding what was decoded from encoder output reproduces those bytes
/// exactly: canonical idempotence for hooks, either mode.
pub proof fn lemma_hook_canonical(v: HookV, pretty: bool)
    ensures
        ({
            let b = render(toks_hook(v), pretty);
            &&& sp_decode_hook(b) matches Some(w)
            &&& render(toks_hook(sp_decode_hook(b)->Some_0), pretty) == b
        }),
{
    lemma_hook_round_trip(v, pretty);
}

impl PartialEq for Hook {
    /// See [`Root::eq`].
    fn eq(&self, other: &Self) -> (r: bool) {
        let a = self.encode(false);
        let b = other.encode(false);
        let r = a.eq(&b);
        proof {
            lemma_hook_round_trip(self@, false);
            lemma_hook_round_trip(other@, false);
        }
        r
    }
}

impl vstd::std_specs::cmp::PartialEqSpecImpl for Hook {
    open spec fn obeys_eq_spec() -> bool {
        true
    }

    open spec fn eq_spec(&self, other: &Self) -> bool {
        self@ == other@
    }
}

/// Accumulates the fields of a [`Hook`]; every field falls back to the
/// default value, and a set timeout must be strictly positive.
pub struct HookBuilder {
    /// The accumulated path, if set.
    pub path: Option<String>,
    /// The accumulated arguments, if set.
    pub args: Option<Vec<String>>,
    /// The accumulated environment, if set.
    pub env: Option<Vec<String>>,
    /// The accumulated timeout, if set.
    pub timeout: Option<i64>,
}

impl Default for HookBuilder {
    /// A builder with nothing set.
    fn default() -> (r: Self)
        ensures
            r.path is None && r.args is None && r.env is None && r.timeout is None,
    {
        HookBuilder { path: None, args: None, env: None, timeout: None }
    }
}

impl HookBuilder {
    /// Sets the path.
    pub fn path(self, path: &str) -> (r: Self)
        ensures
            r.path matches Some(p) && p@ == path@,
            r.args == self.args && r.env == self.env && r.timeout == self.timeout,
    {
        HookBuilder { path: Some(path.to_owned()), ..self }
    }

    /// Sets the arguments.
    pub fn args(self, args: Vec<String>) -> (r: Self)
        ensures
            r.args == Some(args) && r.path == self.path && r.env == self.env && r.timeout
                == self.timeout,
    {
        HookBuilder { args: Some(args), ..self }
    }

    /// Sets the environment.
    pub fn env(self, env: Vec<String>) -> (r: Self)
        ensures
            r.env == Some(env) && r.path == self.path && r.args == self.args && r.timeout
                == self.timeout,
    {
        HookBuilder { env: Some(env), ..self }
    }

    /// Sets the timeout, in seconds.
    pub fn timeout(self, timeout: i64) -> (r: Self)
        ensures
            r.timeout == Some(timeout) && r.path == self.path && r.args == self.args && r.env
                == self.env,
    {
        HookBuilder { timeout: Some(timeout), ..self }
    }

    /// Finishes construction: every unset field takes its default, and a
    /// timeout that is not strictly positive is refused by name.
    pub fn build(self) -> (r: Result<Hook, OciSpecError>)
        ensures
            match r {
                Ok(v) => ({
                    &&& match self.path {
                        Some(p) => v.path == p,
                        None => v.path@ == Seq::<char>::empty(),
                    }
                    &&& v.args == self.args
                    &&& v.env == self.env
                    &&& v.timeout == self.timeout
                    &&& (self.timeout matches Some(t) ==> t > 0)
                }),
                Err(e) => (self.timeout matches Some(t) && t <= 0) && e is Builder,
            },
    {
        if let Some(t) = self.timeout {
            if t <= 0 {
                return Err(
                    OciSpecError::Builder("the timeout must be greater than zero".to_owned()),
                );
            }
        }
        Ok(
            Hook {
                path: match self.path {
                    Some(p) => p,
                    None => String::new(),
                },
                args: self.args,
                env: self.env,
                timeout: self.timeout,
            },
        )
    }
}

/// The commands run at each lifecycle event of a container. The `prestart`
/// list is deprecated in favor of the create and start lists, but remains a
/// first-class field so that older documents keep decoding.
#[derive(Clone, Debug)]
pub struct Hooks {
    /// Run after the start operation, before the user program; deprecated.
    pub prestart: Option<Vec<Hook>>,
    /// Run after the container is created, before any pivot to the new
    /// root, in the runtime namespace.
    pub create_runtime: Option<Vec<Hook>>,
    /// Run after the container is created, before any pivot to the new
    /// root, in the container namespace.
    pub create_container: Option<Vec<Hook>>,
    /// Run after the start operation, before the container process starts,
    /// in the container namespace.
    pub start_container: Option<Vec<Hook>>,
    /// Run after the container process starts, in the runtime namespace.
    pub poststart: Option<Vec<Hook>>,
    /// Run after the container process exits, in the runtime namespace.
    pub poststop: Option<Vec<Hook>>,
}

impl Default for Hooks {
    /// No hooks at any event.
    fn default() -> (r: Self)
        ensures
            r.prestart is None && r.create_runtime is None && r.create_container is None
                && r.start_container is None && r.poststart is None && r.poststop is None,
    {
        Hooks {
            prestart: None,
            create_runtime: None,
            create_container: None,
            start_container: None,
            poststart: None,
            poststop: None,
        }
    }
}

// ---------------------------------------------------------------------------
// Solaris configuration
// ---------------------------------------------------------------------------

/// Platform-specific configuration for Solaris application containers;
/// every field is optional.
#[derive(Clone, Debug)]
pub struct Solaris {
    /// The SMF FMRI that should be online before the container process
    /// starts.
    pub milestone: Option<String>,
    /// The maximum set of privileges a process in this container can
    /// obtain.
    pub limitpriv: Option<String>,
    /// The maximum amount of shared memory allowed for this container.
    pub max_shm_memory: Option<String>,
    /// Automatic creation of network resources for this container.
    pub anet: Option<Vec<SolarisAnet>>,
    /// The cap on CPU time usable by this container.
    pub capped_cpu: Option<SolarisCappedCPU>,
    /// The physical and swap caps on memory usable by this container.
    pub capped_memory: Option<SolarisCappedMemory>,
}

impl Default for Solaris {
    /// A configuration with nothing set.
    fn default() -> (r: Self)
        ensures
            r.milestone is None && r.limitpriv is None && r.max_shm_memory is None
                && r.anet is None && r.capped_cpu is None && r.capped_memory is None,
    {
        Solaris {
            milestone: None,
            limitpriv: None,
            max_shm_memory: None,
            anet: None,
            capped_cpu: None,
            capped_memory: None,
        }
    }
}

/// Automatic creation of network resources for a Solaris container; every
/// field is optional.
#[derive(Clone, Debug)]
pub struct SolarisAnet {
    /// The name of the automatically created VNIC datalink.
    pub linkname: Option<String>,
    /// The link over which the VNIC is created.
    pub lower_link: Option<String>,
    /// The set of IP addresses the container can use.
    pub allowed_address: Option<String>,
    /// Whether the allowed-address limitation applies to the VNIC.
    pub configure_allowed_address: Option<String>,
    /// The optional default router.
    pub defrouter: Option<String>,
    /// One or more kinds of link protection.
    pub link_protection: Option<String>,
    /// The VNIC's MAC address.
    pub mac_address: Option<String>,
}

impl Default for SolarisAnet {
    /// A network block with nothing set.
    fn default() -> (r: Self)
        ensures
            r.linkname is None && r.lower_link is None && r.allowed_address is None
                && r.configure_allowed_address is None && r.defrouter is None
                && r.link_protection is None && r.mac_address is None,
    {
        SolarisAnet {
            linkname: None,
            lower_link: None,
            allowed_address: None,
            configure_allowed_address: None,
            defrouter: None,
            link_protection: None,
            mac_address: None,
        }
    }
}

/// The cap on CPU time usable by a Solaris container.
#[derive(Clone, Debug)]
pub struct SolarisCappedCPU {
    /// The amount of CPUs.
    pub ncpus: Option<String>,
}

impl Default for SolarisCappedCPU {
    /// A cap with nothing set.
    fn default() -> (r: Self)
        ensures
            r.ncpus is None,
    {
        SolarisCappedCPU { ncpus: None }
    }
}

/// The mathematical value of a [`SolarisCappedCPU`].
#[verifier::ext_equal]
pub struct SolarisCappedCPUV {
    pub ncpus: Option<Seq<char>>,
}

impl View for SolarisCappedCPU {
    type V = SolarisCappedCPUV;

    open spec fn view(&self) -> SolarisCappedCPUV {
        SolarisCappedCPUV { ncpus: self.ncpus.deep_view() }
    }
}

impl DeepView for SolarisCappedCPU {
    type V = SolarisCappedCPUV;

    open spec fn deep_view(&self) -> SolarisCappedCPUV {
        self.view()
    }
}

/// The tokens of an encoded CPU cap: an empty object when nothing is set.
pub open spec fn toks_ccpu(v: SolarisCappedCPUV) -> Seq<GTok> {
    match v.ncpus {
        Some(x) => seq![GTok::LBrace, GTok::Lit("ncpus"@), GTok::Colon, GTok::Lit(x), GTok::RBrace],
        None => seq![GTok::LBrace, GTok::RBrace],
    }
}

/// After a CPU-cap field's value.
pub open spec fn sp_ccpu_after(ts: Seq<GTok>, ncpus: Option<Option<Seq<char>>>) -> Option<
    (SolarisCappedCPUV, Seq<GTok>),
>
    decreases ts.len(), 0int,
{
    if ts.len() == 0 {
        None
    } else if ts[0] is Comma {
        sp_ccpu_fields(ts.skip(1), ncpus)
    } else if ts[0] is RBrace {
        Some((SolarisCappedCPUV { ncpus: flat(ncpus) }, ts.skip(1)))
    } else {
        None
    }
}

/// At a CPU-cap field's key.
pub open spec fn sp_ccpu_fields(ts: Seq<GTok>, ncpus: Option<Option<Seq<char>>>) -> Option<
    (SolarisCappedCPUV, Seq<GTok>),
>
    decreases ts.len(), 1int,
{
    if ts.len() < 2 || !(ts[1] is Colon) {
        None
    } else {
        match ts[0] {
            GTok::Lit(k) => {
                let vts = ts.skip(2);
                if k == "ncpus"@ {
                    if ncpus is Some {
                        None
                    } else {
                        match sp_v_opt_str(vts) {
                            Some((s, r)) => if r.len() < ts.len() {
                                sp_ccpu_after(r, Some(s))
                            } else {
                                None
                            },
                            None => None,
                        }
                    }
                } else {
                    match sp_skip_val(vts) {
                        Some(r) => if r.len() < ts.len() {
                            sp_ccpu_after(r, ncpus)
                        } else {
                            None
                        },
                        None => None,
                    }
                }
            },
            _ => None,
        }
    }
}

/// Parses one CPU-cap object; an empty object is valid.
pub open spec fn sp_ccpu(ts: Seq<GTok>) -> Option<(SolarisCappedCPUV, Seq<GTok>)> {
    if ts.len() < 2 || !(ts[0] is LBrace) {
        None
    } else if ts[1] is RBrace {
        Some((SolarisCappedCPUV { ncpus: None }, ts.skip(2)))
    } else {
        sp_ccpu_fields(ts.skip(1), None)
    }
}

/// Parsing an encoded CPU cap recovers it exactly.
pub proof fn lemma_ccpu_rt(v: SolarisCappedCPUV, rest: Seq<GTok>)
    ensures
        sp_ccpu(toks_ccpu(v) + rest) == Some((v, rest)),
{
    reveal_strlit("ncpus");
    let ts = toks_ccpu(v) + rest;
    match v.ncpus {
        None => {
            assert(ts.skip(2) =~= rest);
            assert(SolarisCappedCPUV { ncpus: None } =~= v);
        },
        Some(x) => {
            let fs = ts.skip(1);
            assert(fs =~= seq![GTok::Lit("ncpus"@), GTok::Colon, GTok::Lit(x), GTok::RBrace]
                + rest);
            let vts = fs.skip(2);
            assert(sp_v_opt_str(vts) == Some((Some(x), vts.skip(1))));
            let r = vts.skip(1);
            assert(r =~= seq![GTok::RBrace] + rest);
            assert(r.len() < fs.len());
            assert(r[0] is RBrace);
            assert(r.skip(1) =~= rest);
            assert(SolarisCappedCPUV { ncpus: flat(Some(Some(x))) } =~= v);
        },
    }
}

/// The decoded CPU cap of a document text, if it is one.
pub open spec fn sp_decode_ccpu(text: Seq<char>) -> Option<SolarisCappedCPUV> {
    match sp_tokenize(text) {
        Some(ts) => match sp_ccpu(ts) {
            Some((v, rest)) => if rest.len() == 0 {
                Some(v)
            } else {
                None
            },
            None => None,
        },
        None => None,
    }
}

impl SolarisCappedCPU {
    /// Appends this value's tokens.
    pub fn push_toks(&self, out: &mut Vec<Token>)
        ensures
            final(out).deep_view() == old(out).deep_view() + toks_ccpu(self@),
    {
        push_tok(out, Token::LBrace);
        if let Some(x) = &self.ncpus {
            push_tok(out, Token::Lit("ncpus".to_owned()));
            push_tok(out, Token::Colon);
            push_tok(out, Token::Lit(x.clone()));
        }
        push_tok(out, Token::RBrace);
        assert(out.deep_view() =~= old(out).deep_view() + toks_ccpu(self@));
    }

    /// Serializes this value as JSON text, compact or pretty.
    pub fn encode(&self, pretty: bool) -> (r: String)
        ensures
            r@ == render(toks_ccpu(self@), pretty),
    {
        let mut ts: Vec<Token> = Vec::new();
        self.push_toks(&mut ts);
        proof {
            assert(Seq::<GTok>::empty() + toks_ccpu(self@) =~= toks_ccpu(self@));
        }
        render_tokens(&ts, pretty)
    }

    /// Deserializes a CPU cap from JSON text.
    pub fn decode(s: &str) -> (r: Result<SolarisCappedCPU, OciSpecError>)
        ensures
            match r {
                Ok(v) => sp_decode_ccpu(s@) == Some(v@),
                Err(e) => sp_decode_ccpu(s@) is None && e is SerDe,
            },
    {
        let cs = str_chars(s);
        match tokenize_chars(&cs) {
            None => Err(OciSpecError::SerDe("the input is not well-formed JSON".to_owned())),
            Some(ts) => match p_ccpu(&ts, 0) {
                Some((v, j)) => {
                    proof {
                        assert(ts.deep_view().skip(0) =~= ts.deep_view());
                    }
                    if j == ts.len() {
                        Ok(v)
                    } else {
                        Err(
                            OciSpecError::SerDe(
                                "unexpected trailing content after the document".to_owned(),
                            ),
                        )
                    }
                },
                None => {
                    proof {
                        assert(ts.deep_view().skip(0) =~= ts.deep_view());
                    }
                    Err(OciSpecError::SerDe("the input is not a CPU cap".to_owned()))
                },
            },
        }
    }
}

/// Parses one CPU-cap object, mirroring [`sp_ccpu`].
pub fn p_ccpu(ts: &Vec<Token>, i: usize) -> (r: Option<(SolarisCappedCPU, usize)>)
    requires
        i <= ts.len(),
    ensures
        match r {
            Some((v, j)) => i < j <= ts.len() && sp_ccpu(ts.deep_view().skip(i as int)) == Some(
                (v@, ts.deep_view().skip(j as int)),
            ),
            None => sp_ccpu(ts.deep_view().skip(i as int)) is None,
        },
{
    let ghost dv = ts.deep_view();
    let ghost pre = dv.skip(i as int);
    if ts.len() - i < 2 {
        return None;
    }
    assert(pre[0] == dv[i as int] && pre[1] == dv[i as int + 1]);
    if !matches!(&ts[i], Token::LBrace) {
        return None;
    }
    if matches!(&ts[i + 1], Token::RBrace) {
        assert(pre.skip(2) =~= dv.skip(i as int + 2));
        let v = SolarisCappedCPU { ncpus: None };
        assert(v@ =~= SolarisCappedCPUV { ncpus: None });
        return Some((v, i + 2));
    }
    assert(pre.skip(1) =~= dv.skip(i as int + 1));
    let mut ncpus: Option<Option<String>> = None;
    let mut k: usize = i + 1;
    loop
        invariant
            i + 1 <= k <= ts.len(),
            dv == ts.deep_view(),
            dv.len() == ts.len(),
            sp_ccpu(dv.skip(i as int)) == sp_ccpu_fields(dv.skip(k as int), ncpus.deep_view()),
        decreases ts.len() - k,
    {
        let ghost cur = dv.skip(k as int);
        if ts.len() - k < 2 {
            assert(cur.len() < 2);
            return None;
        }
        assert(cur[0] == dv[k as int] && cur[1] == dv[k as int + 1]);
        if !matches!(&ts[k + 1], Token::Colon) {
            return None;
        }
        let key: String;
        match &ts[k] {
            Token::Lit(k0) => {
                key = k0.clone();
            },
            _ => {
                return None;
            },
        }
        assert(cur.skip(2) =~= dv.skip(k as int + 2));
        let j: usize;
        if str_eq_lit(&key, "ncpus") {
            if ncpus.is_some() {
                return None;
            }
            if k + 2 >= ts.len() {
                return None;
            }
            assert(cur.skip(2)[0] == dv[k as int + 2]);
            match &ts[k + 2] {
                Token::Lit(s) => {
                    ncpus = Some(Some(s.clone()));
                },
                Token::Null => {
                    ncpus = Some(None);
                },
                _ => {
                    return None;
                },
            }
            assert(cur.skip(2).skip(1) =~= dv.skip(k as int + 3));
            j = k + 3;
        } else {
            match skip_val_exec(ts, k + 2) {
                Some(j2) => {
                    j = j2;
                },
                None => {
                    return None;
                },
            }
        }
        assert(dv.skip(j as int).len() < cur.len());
        if j == ts.len() {
            return None;
        }
        assert(dv.skip(j as int)[0] == dv[j as int]);
        assert(dv.skip(j as int).skip(1) =~= dv.skip(j as int + 1));
        match &ts[j] {
            Token::Comma => {
                k = j + 1;
            },
            Token::RBrace => {
                let v = SolarisCappedCPU {
                    ncpus: match ncpus {
                        Some(x) => x,
                        None => None,
                    },
                };
                assert(v@ =~= SolarisCappedCPUV { ncpus: flat(ncpus.deep_view()) });
                return Some((v, j + 1));
            },
            _ => {
                return None;
            },
        }
    }
}

/// Decoding an encoded CPU cap yields it back, in either output mode.
pub proof fn lemma_ccpu_round_trip(v: SolarisCappedCPUV, pretty: bool)
    ensures
        sp_decode_ccpu(render(toks_ccpu(v), pretty)) == Some(v),
{
    assert(stream_ok(toks_ccpu(v))) by {
        assert(no_int(toks_ccpu(v))) by {
            assert(forall|i: int|
                0 <= i < toks_ccpu(v).len() ==> !(#[trigger] toks_ccpu(v)[i] is Int));
        }
        lemma_no_int_stream_ok(toks_ccpu(v));
    }
    lemma_tokenize_render(toks_ccpu(v), pretty);
    lemma_ccpu_rt(v, Seq::empty());
    assert(toks_ccpu(v) + Seq::<GTok>::empty() =~= toks_ccpu(v));
}

impl PartialEq for SolarisCappedCPU {
    /// See [`Root::eq`].
    fn eq(&self, other: &Self) -> (r: bool) {
        let a = self.encode(false);
        let b = other.encode(false);
        let r = a.eq(&b);
        proof {
            lemma_ccpu_round_trip(self@, false);
            lemma_ccpu_round_trip(other@, false);
        }
        r
    }
}

impl vstd::std_specs::cmp::PartialEqSpecImpl for SolarisCappedCPU {
    open spec fn obeys_eq_spec() -> bool {
        true
    }

    open spec fn eq_spec(&self, other: &Self) -> bool {
        self@ == other@
    }
}

/// The physical and swap caps on memory usable by a Solaris container.
#[derive(Clone, Debug)]
pub struct SolarisCappedMemory {
    /// The physical cap.
    pub physical: Option<String>,
    /// The swap cap.
    pub swap: Option<String>,
}

impl Default for SolarisCappedMemory {
    /// A cap with nothing set.
    fn default() -> (r: Self)
        ensures
            r.physical is None && r.swap is None,
    {
        SolarisCappedMemory { physical: None, swap: None }
    }
}

} // verus!