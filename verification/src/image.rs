//! The image index document and its nested structures.

use vstd::prelude::*;

use crate::error::OciSpecError;
use crate::json::{
    render_tokens, str_chars, tokenize_chars, push_tok, str_eq_lit, push_arr_str, push_map,
    p_arr_str, p_map, flat, render, sp_tokenize, sp_v_str, sp_v_opt_str, sp_v_u32, sp_v_i64,
    sp_v_arr_str, sp_v_map, toks_arr_str, toks_map, lemma_arr_str_rt, lemma_map_rt, sp_skip_val,
    skip_val_exec, stream_ok, tok_ok, no_int, lemma_no_int_concat, lemma_no_int_stream_ok,
    lemma_arr_str_no_int, lemma_map_no_int, lemma_tokenize_render, GTok, Token,
};

verus! {

broadcast use vstd::string::group_string_axioms;

/// The expected schema version; equals 2 for compatibility with older
/// versions of Docker.
pub const SCHEMA_VERSION: u32 = 2;

/// A processor architecture, an open set: the known members use their
/// recommended literal, and any other literal round-trips verbatim. Its
/// mathematical value is its wire literal.
#[derive(Clone, Debug)]
pub enum Arch {
    /// The 64-bit x86 architecture.
    Amd64,
    /// The 32-bit ARM architecture.
    Arm,
    /// The 64-bit ARM architecture.
    Arm64,
    /// The 64-bit MIPS architecture.
    Mips64,
    /// The big-endian 64-bit PowerPC architecture.
    PowerPC64,
    /// The little-endian 64-bit PowerPC architecture.
    PowerPC64le,
    /// The 64-bit RISC-V architecture.
    RiscV64,
    /// The IBM z architecture.
    S390x,
    /// WebAssembly.
    Wasm,
    /// Any other architecture, carried verbatim.
    Other(String),
}

impl View for Arch {
    type V = Seq<char>;

    open spec fn view(&self) -> Seq<char> {
        match self {
            Arch::Amd64 => "amd64"@,
            Arch::Arm => "arm"@,
            Arch::Arm64 => "arm64"@,
            Arch::Mips64 => "mips64"@,
            Arch::PowerPC64 => "ppc64"@,
            Arch::PowerPC64le => "ppc64le"@,
            Arch::RiscV64 => "riscv64"@,
            Arch::S390x => "s390x"@,
            Arch::Wasm => "wasm"@,
            Arch::Other(s) => s@,
        }
    }
}

impl Arch {
    /// The literal this architecture serializes to.
    pub fn wire(&self) -> (r: String)
        ensures
            r@ == self@,
    {
        match self {
            Arch::Amd64 => "amd64".to_owned(),
            Arch::Arm => "arm".to_owned(),
            Arch::Arm64 => "arm64".to_owned(),
            Arch::Mips64 => "mips64".to_owned(),
            Arch::PowerPC64 => "ppc64".to_owned(),
            Arch::PowerPC64le => "ppc64le".to_owned(),
            Arch::RiscV64 => "riscv64".to_owned(),
            Arch::S390x => "s390x".to_owned(),
            Arch::Wasm => "wasm".to_owned(),
            Arch::Other(s) => s.clone(),
        }
    }

    /// The architecture a literal names; an unknown literal is carried
    /// verbatim, so the value always reads back to the same literal.
    pub fn from_wire(s: String) -> (r: Arch)
        ensures
            r@ == s@,
    {
        if str_eq_lit(&s, "amd64") {
            Arch::Amd64
        } else if str_eq_lit(&s, "arm") {
            Arch::Arm
        } else if str_eq_lit(&s, "arm64") {
            Arch::Arm64
        } else if str_eq_lit(&s, "mips64") {
            Arch::Mips64
        } else if str_eq_lit(&s, "ppc64") {
            Arch::PowerPC64
        } else if str_eq_lit(&s, "ppc64le") {
            Arch::PowerPC64le
        } else if str_eq_lit(&s, "riscv64") {
            Arch::RiscV64
        } else if str_eq_lit(&s, "s390x") {
            Arch::S390x
        } else if str_eq_lit(&s, "wasm") {
            Arch::Wasm
        } else {
            Arch::Other(s)
        }
    }
}

impl PartialEq for Arch {
    /// Two architectures are equal exactly when they serialize alike.
    fn eq(&self, other: &Self) -> (r: bool) {
        let a = self.wire();
        let b = other.wire();
        a.eq(&b)
    }
}

impl vstd::std_specs::cmp::PartialEqSpecImpl for Arch {
    open spec fn obeys_eq_spec() -> bool {
        true
    }

    open spec fn eq_spec(&self, other: &Self) -> bool {
        self@ == other@
    }
}

/// An operating system, an open set like [`Arch`].
#[derive(Clone, Debug)]
pub enum Os {
    /// Linux.
    Linux,
    /// Windows.
    Windows,
    /// macOS.
    Darwin,
    /// FreeBSD.
    FreeBSD,
    /// NetBSD.
    NetBSD,
    /// OpenBSD.
    OpenBSD,
    /// Solaris.
    Solaris,
    /// Any other operating system, carried verbatim.
    Other(String),
}

impl View for Os {
    type V = Seq<char>;

    open spec fn view(&self) -> Seq<char> {
        match self {
            Os::Linux => "linux"@,
            Os::Windows => "windows"@,
            Os::Darwin => "darwin"@,
            Os::FreeBSD => "freebsd"@,
            Os::NetBSD => "netbsd"@,
            Os::OpenBSD => "openbsd"@,
            Os::Solaris => "solaris"@,
            Os::Other(s) => s@,
        }
    }
}

impl Os {
    /// The literal this operating system serializes to.
    pub fn wire(&self) -> (r: String)
        ensures
            r@ == self@,
    {
        match self {
            Os::Linux => "linux".to_owned(),
            Os::Windows => "windows".to_owned(),
            Os::Darwin => "darwin".to_owned(),
            Os::FreeBSD => "freebsd".to_owned(),
            Os::NetBSD => "netbsd".to_owned(),
            Os::OpenBSD => "openbsd".to_owned(),
            Os::Solaris => "solaris".to_owned(),
            Os::Other(s) => s.clone(),
        }
    }

    /// The operating system a literal names; unknown literals are carried
    /// verbatim.
    pub fn from_wire(s: String) -> (r: Os)
        ensures
            r@ == s@,
    {
        if str_eq_lit(&s, "linux") {
            Os::Linux
        } else if str_eq_lit(&s, "windows") {
            Os::Windows
        } else if str_eq_lit(&s, "darwin") {
            Os::Darwin
        } else if str_eq_lit(&s, "freebsd") {
            Os::FreeBSD
        } else if str_eq_lit(&s, "netbsd") {
            Os::NetBSD
        } else if str_eq_lit(&s, "openbsd") {
            Os::OpenBSD
        } else if str_eq_lit(&s, "solaris") {
            Os::Solaris
        } else {
            Os::Other(s)
        }
    }
}

impl PartialEq for Os {
    /// Two operating systems are equal exactly when they serialize alike.
    fn eq(&self, other: &Self) -> (r: bool) {
        let a = self.wire();
        let b = other.wire();
        a.eq(&b)
    }
}

impl vstd::std_specs::cmp::PartialEqSpecImpl for Os {
    open spec fn obeys_eq_spec() -> bool {
        true
    }

    open spec fn eq_spec(&self, other: &Self) -> bool {
        self@ == other@
    }
}

/// The media type of referenced content, an open set like [`Arch`].
#[derive(Clone, Debug)]
pub enum MediaType {
    /// A content descriptor document.
    Descriptor,
    /// The layout header of an image layout.
    LayoutHeader,
    /// An image manifest document.
    ImageManifest,
    /// An image index document.
    ImageIndex,
    /// An uncompressed layer archive.
    ImageLayer,
    /// A gzip-compressed layer archive.
    ImageLayerGzip,
    /// An image configuration document.
    ImageConfig,
    /// Any other media type, carried verbatim.
    Other(String),
}

impl View for MediaType {
    type V = Seq<char>;

    open spec fn view(&self) -> Seq<char> {
        match self {
            MediaType::Descriptor => "application/vnd.oci.descriptor.v1+json"@,
            MediaType::LayoutHeader => "application/vnd.oci.layout.header.v1+json"@,
            MediaType::ImageManifest => "application/vnd.oci.image.manifest.v1+json"@,
            MediaType::ImageIndex => "application/vnd.oci.image.index.v1+json"@,
            MediaType::ImageLayer => "application/vnd.oci.image.layer.v1.tar"@,
            MediaType::ImageLayerGzip => "application/vnd.oci.image.layer.v1.tar+gzip"@,
            MediaType::ImageConfig => "application/vnd.oci.image.config.v1+json"@,
            MediaType::Other(s) => s@,
        }
    }
}

impl MediaType {
    /// The literal this media type serializes to.
    pub fn wire(&self) -> (r: String)
        ensures
            r@ == self@,
    {
        match self {
            MediaType::Descriptor => "application/vnd.oci.descriptor.v1+json".to_owned(),
            MediaType::LayoutHeader => "application/vnd.oci.layout.header.v1+json".to_owned(),
            MediaType::ImageManifest => "application/vnd.oci.image.manifest.v1+json".to_owned(),
            MediaType::ImageIndex => "application/vnd.oci.image.index.v1+json".to_owned(),
            MediaType::ImageLayer => "application/vnd.oci.image.layer.v1.tar".to_owned(),
            MediaType::ImageLayerGzip => "application/vnd.oci.image.layer.v1.tar+gzip".to_owned(),
            MediaType::ImageConfig => "application/vnd.oci.image.config.v1+json".to_owned(),
            MediaType::Other(s) => s.clone(),
        }
    }

    /// The media type a literal names; unknown literals are carried
    /// verbatim.
    pub fn from_wire(s: String) -> (r: MediaType)
        ensures
            r@ == s@,
    {
        if str_eq_lit(&s, "application/vnd.oci.descriptor.v1+json") {
            MediaType::Descriptor
        } else if str_eq_lit(&s, "application/vnd.oci.layout.header.v1+json") {
            MediaType::LayoutHeader
        } else if str_eq_lit(&s, "application/vnd.oci.image.manifest.v1+json") {
            MediaType::ImageManifest
        } else if str_eq_lit(&s, "application/vnd.oci.image.index.v1+json") {
            MediaType::ImageIndex
        } else if str_eq_lit(&s, "application/vnd.oci.image.layer.v1.tar") {
            MediaType::ImageLayer
        } else if str_eq_lit(&s, "application/vnd.oci.image.layer.v1.tar+gzip") {
            MediaType::ImageLayerGzip
        } else if str_eq_lit(&s, "application/vnd.oci.image.config.v1+json") {
            MediaType::ImageConfig
        } else {
            MediaType::Other(s)
        }
    }
}

impl PartialEq for MediaType {
    /// Two media types are equal exactly when they serialize alike.
    fn eq(&self, other: &Self) -> (r: bool) {
        let a = self.wire();
        let b = other.wire();
        a.eq(&b)
    }
}

impl vstd::std_specs::cmp::PartialEqSpecImpl for MediaType {
    open spec fn obeys_eq_spec() -> bool {
        true
    }

    open spec fn eq_spec(&self, other: &Self) -> bool {
        self@ == other@
    }
}

// ---------------------------------------------------------------------------
// Platform
// ---------------------------------------------------------------------------

/// The platform a manifest is meant for.
#[derive(Clone, Debug)]
pub struct Platform {
    /// The processor architecture.
    pub architecture: Arch,
    /// The operating system.
    pub os: Os,
    /// The operating system version, if constrained.
    pub os_version: Option<String>,
    /// Required operating system features, if any.
    pub os_features: Option<Vec<String>>,
    /// The architecture variant, if any.
    pub variant: Option<String>,
}

/// The mathematical value of a [`Platform`].
#[verifier::ext_equal]
pub struct PlatformV {
    pub architecture: Seq<char>,
    pub os: Seq<char>,
    pub os_version: Option<Seq<char>>,
    pub os_features: Option<Seq<Seq<char>>>,
    pub variant: Option<Seq<char>>,
}

impl View for Platform {
    type V = PlatformV;

    open spec fn view(&self) -> PlatformV {
        PlatformV {
            architecture: self.architecture@,
            os: self.os@,
            os_version: self.os_version.deep_view(),
            os_features: self.os_features.deep_view(),
            variant: self.variant.deep_view(),
        }
    }
}

impl DeepView for Platform {
    type V = PlatformV;

    open spec fn deep_view(&self) -> PlatformV {
        self.view()
    }
}

/// Tokens from the `variant` field on.
pub open spec fn plat_tail5(v: PlatformV) -> Seq<GTok> {
    match v.variant {
        Some(x) => seq![GTok::Comma, GTok::Lit("variant"@), GTok::Colon, GTok::Lit(x), GTok::RBrace],
        None => seq![GTok::RBrace],
    }
}

/// Tokens from the `os.features` field on.
pub open spec fn plat_tail4(v: PlatformV) -> Seq<GTok> {
    match v.os_features {
        Some(fs) => seq![GTok::Comma, GTok::Lit("os.features"@), GTok::Colon] + toks_arr_str(fs)
            + plat_tail5(v),
        None => plat_tail5(v),
    }
}

/// Tokens from the `os.version` field on.
pub open spec fn plat_tail3(v: PlatformV) -> Seq<GTok> {
    match v.os_version {
        Some(x) => seq![GTok::Comma, GTok::Lit("os.version"@), GTok::Colon, GTok::Lit(x)]
            + plat_tail4(v),
        None => plat_tail4(v),
    }
}

/// Tokens from the `os` field on.
pub open spec fn plat_tail2(v: PlatformV) -> Seq<GTok> {
    seq![GTok::Comma, GTok::Lit("os"@), GTok::Colon, GTok::Lit(v.os)] + plat_tail3(v)
}

/// The tokens of an encoded platform.
pub open spec fn toks_platform(v: PlatformV) -> Seq<GTok> {
    seq![GTok::LBrace, GTok::Lit("architecture"@), GTok::Colon, GTok::Lit(v.architecture)]
        + plat_tail2(v)
}

/// An encoded platform is a well-separated stream enclosed in braces.
pub proof fn lemma_platform_stream_ok(v: PlatformV)
    ensures
        stream_ok(toks_platform(v)),
        toks_platform(v).len() >= 2,
        !(toks_platform(v)[0] is Int),
        !(toks_platform(v).last() is Int),
{
    let ts = toks_platform(v);
    assert(no_int(seq![
        GTok::LBrace,
        GTok::Lit("architecture"@),
        GTok::Colon,
        GTok::Lit(v.architecture),
    ]));
    lemma_plat_tail2_no_int(v);
    lemma_no_int_concat(
        seq![GTok::LBrace, GTok::Lit("architecture"@), GTok::Colon, GTok::Lit(v.architecture)],
        plat_tail2(v),
    );
    assert(ts =~= seq![
        GTok::LBrace,
        GTok::Lit("architecture"@),
        GTok::Colon,
        GTok::Lit(v.architecture),
    ] + plat_tail2(v));
    lemma_no_int_stream_ok(ts);
    assert(ts.last() == plat_tail2(v).last());
}

/// The tokens from the `os` field on hold no integer and end with the brace.
proof fn lemma_plat_tail2_no_int(v: PlatformV)
    ensures
        no_int(plat_tail2(v)),
        plat_tail2(v).len() >= 1,
        plat_tail2(v).last() is RBrace,
{
    lemma_plat_tail5_no_int(v);
    match v.os_features {
        Some(fs) => {
            lemma_arr_str_no_int(fs);
            lemma_no_int_concat(
                seq![GTok::Comma, GTok::Lit("os.features"@), GTok::Colon],
                toks_arr_str(fs),
            );
            lemma_no_int_concat(
                seq![GTok::Comma, GTok::Lit("os.features"@), GTok::Colon] + toks_arr_str(fs),
                plat_tail5(v),
            );
            assert(plat_tail4(v).last() == plat_tail5(v).last());
        },
        None => {},
    }
    match v.os_version {
        Some(x) => {
            lemma_no_int_concat(
                seq![GTok::Comma, GTok::Lit("os.version"@), GTok::Colon, GTok::Lit(x)],
                plat_tail4(v),
            );
            assert(plat_tail3(v).last() == plat_tail4(v).last());
        },
        None => {},
    }
    lemma_no_int_concat(
        seq![GTok::Comma, GTok::Lit("os"@), GTok::Colon, GTok::Lit(v.os)],
        plat_tail3(v),
    );
    assert(plat_tail2(v).last() == plat_tail3(v).last());
}

/// The tokens from the `variant` field on hold no integer.
proof fn lemma_plat_tail5_no_int(v: PlatformV)
    ensures
        no_int(plat_tail5(v)),
        plat_tail5(v).len() >= 1,
        plat_tail5(v).last() is RBrace,
{
}

/// Finalizes a parsed platform: architecture and operating system are
/// required.
pub open spec fn sp_plat_fin(
    arch: Option<Seq<char>>,
    os: Option<Seq<char>>,
    osv: Option<Option<Seq<char>>>,
    osf: Option<Option<Seq<Seq<char>>>>,
    var: Option<Option<Seq<char>>>,
    rest: Seq<GTok>,
) -> Option<(PlatformV, Seq<GTok>)> {
    match (arch, os) {
        (Some(a), Some(o)) => Some(
            (
                PlatformV {
                    architecture: a,
                    os: o,
                    os_version: flat(osv),
                    os_features: flat(osf),
                    variant: flat(var),
                },
                rest,
            ),
        ),
        _ => None,
    }
}

/// After a platform field's value.
pub open spec fn sp_plat_after(
    ts: Seq<GTok>,
    arch: Option<Seq<char>>,
    os: Option<Seq<char>>,
    osv: Option<Option<Seq<char>>>,
    osf: Option<Option<Seq<Seq<char>>>>,
    var: Option<Option<Seq<char>>>,
) -> Option<(PlatformV, Seq<GTok>)>
    decreases ts.len(), 0int,
{
    if ts.len() == 0 {
        None
    } else if ts[0] is Comma {
        sp_plat_fields(ts.skip(1), arch, os, osv, osf, var)
    } else if ts[0] is RBrace {
        sp_plat_fin(arch, os, osv, osf, var, ts.skip(1))
    } else {
        None
    }
}

/// At a platform field's key.
pub open spec fn sp_plat_fields(
    ts: Seq<GTok>,
    arch: Option<Seq<char>>,
    os: Option<Seq<char>>,
    osv: Option<Option<Seq<char>>>,
    osf: Option<Option<Seq<Seq<char>>>>,
    var: Option<Option<Seq<char>>>,
) -> Option<(PlatformV, Seq<GTok>)>
    decreases ts.len(), 1int,
{
    if ts.len() < 2 || !(ts[1] is Colon) {
        None
    } else {
        match ts[0] {
            GTok::Lit(k) => {
                let vts = ts.skip(2);
                if k == "architecture"@ {
                    if arch is Some {
                        None
                    } else {
                        match sp_v_str(vts) {
                            Some((s, r)) => if r.len() < ts.len() {
                                sp_plat_after(r, Some(s), os, osv, osf, var)
                            } else {
                                None
                            },
                            None => None,
                        }
                    }
                } else if k == "os"@ {
                    if os is Some {
                        None
                    } else {
                        match sp_v_str(vts) {
                            Some((s, r)) => if r.len() < ts.len() {
                                sp_plat_after(r, arch, Some(s), osv, osf, var)
                            } else {
                                None
                            },
                            None => None,
                        }
                    }
                } else if k == "os.version"@ {
                    if osv is Some {
                        None
                    } else {
                        match sp_v_opt_str(vts) {
                            Some((s, r)) => if r.len() < ts.len() {
                                sp_plat_after(r, arch, os, Some(s), osf, var)
                            } else {
                                None
                            },
                            None => None,
                        }
                    }
                } else if k == "os.features"@ {
                    if osf is Some {
                        None
                    } else if vts.len() >= 1 && vts[0] is Null {
                        if vts.len() - 1 < ts.len() {
                            sp_plat_after(vts.skip(1), arch, os, osv, Some(None), var)
                        } else {
                            None
                        }
                    } else {
                        match sp_v_arr_str(vts) {
                            Some((fs, r)) => if r.len() < ts.len() {
                                sp_plat_after(r, arch, os, osv, Some(Some(fs)), var)
                            } else {
                                None
                            },
                            None => None,
                        }
                    }
                } else if k == "variant"@ {
                    if var is Some {
                        None
                    } else {
                        match sp_v_opt_str(vts) {
                            Some((s, r)) => if r.len() < ts.len() {
                                sp_plat_after(r, arch, os, osv, osf, Some(s))
                            } else {
                                None
                            },
                            None => None,
                        }
                    }
                } else {
                    match sp_skip_val(vts) {
                        Some(r) => if r.len() < ts.len() {
                            sp_plat_after(r, arch, os, osv, osf, var)
                        } else {
                            None
                        },
                        None => None,
                    }
                }
            },
            _ => None,
        }
    }
}

/// Parses one platform object.
pub open spec fn sp_platform(ts: Seq<GTok>) -> Option<(PlatformV, Seq<GTok>)> {
    if ts.len() < 2 || !(ts[0] is LBrace) {
        None
    } else if ts[1] is RBrace {
        None  // architecture and os are required
    } else {
        sp_plat_fields(ts.skip(1), None, None, None, None, None)
    }
}

/// Reveals the platform key literals and their lengths, which are pairwise
/// different.
proof fn lemma_plat_keys()
    ensures
        "architecture"@.len() == 12,
        "os"@.len() == 2,
        "os.version"@.len() == 10,
        "os.features"@.len() == 11,
        "variant"@.len() == 7,
{
    reveal_strlit("architecture");
    reveal_strlit("os");
    reveal_strlit("os.version");
    reveal_strlit("os.features");
    reveal_strlit("variant");
}

proof fn lemma_plat_rt5(
    v: PlatformV,
    rest: Seq<GTok>,
    osv: Option<Option<Seq<char>>>,
    osf: Option<Option<Seq<Seq<char>>>>,
)
    requires
        flat(osv) == v.os_version,
        flat(osf) == v.os_features,
    ensures
        sp_plat_after(plat_tail5(v) + rest, Some(v.architecture), Some(v.os), osv, osf, None)
            == Some((v, rest)),
{
    lemma_plat_keys();
    let ts = plat_tail5(v) + rest;
    match v.variant {
        None => {
            assert(ts[0] is RBrace);
            assert(ts.skip(1) =~= rest);
            assert(PlatformV {
                architecture: v.architecture,
                os: v.os,
                os_version: flat(osv),
                os_features: flat(osf),
                variant: flat(None::<Option<Seq<char>>>),
            } =~= v);
            assert(sp_plat_after(ts, Some(v.architecture), Some(v.os), osv, osf, None) == Some(
                (v, rest),
            ));
        },
        Some(x) => {
            assert(ts[0] is Comma);
            let fs = ts.skip(1);
            assert(fs[0] == GTok::Lit("variant"@) && fs[1] is Colon);
            let vts = fs.skip(2);
            assert(vts =~= seq![GTok::Lit(x), GTok::RBrace] + rest);
            assert(sp_v_opt_str(vts) == Some((Some(x), vts.skip(1))));
            let r = vts.skip(1);
            assert(r =~= seq![GTok::RBrace] + rest);
            assert(r.len() < fs.len());
            assert(r[0] is RBrace);
            assert(r.skip(1) =~= rest);
            assert(PlatformV {
                architecture: v.architecture,
                os: v.os,
                os_version: flat(osv),
                os_features: flat(osf),
                variant: flat(Some(Some(x))),
            } =~= v);
            assert(sp_plat_after(r, Some(v.architecture), Some(v.os), osv, osf, Some(Some(x)))
                == sp_plat_fin(Some(v.architecture), Some(v.os), osv, osf, Some(Some(x)), rest));
            assert(sp_plat_fields(fs, Some(v.architecture), Some(v.os), osv, osf, None)
                == sp_plat_after(r, Some(v.architecture), Some(v.os), osv, osf, Some(Some(x))));
            assert(sp_plat_after(ts, Some(v.architecture), Some(v.os), osv, osf, None)
                == sp_plat_fields(fs, Some(v.architecture), Some(v.os), osv, osf, None));
        },
    }
}

proof fn lemma_plat_rt4(v: PlatformV, rest: Seq<GTok>, osv: Option<Option<Seq<char>>>)
    requires
        flat(osv) == v.os_version,
    ensures
        sp_plat_after(plat_tail4(v) + rest, Some(v.architecture), Some(v.os), osv, None, None)
            == Some((v, rest)),
{
    lemma_plat_keys();
    let ts = plat_tail4(v) + rest;
    match v.os_features {
        None => {
            assert(plat_tail4(v) == plat_tail5(v));
            lemma_plat_rt5(v, rest, osv, None);
        },
        Some(fs0) => {
            assert(ts[0] is Comma);
            let fs = ts.skip(1);
            assert(fs =~= seq![GTok::Lit("os.features"@), GTok::Colon] + (toks_arr_str(fs0) + (
            plat_tail5(v) + rest)));
            let vts = fs.skip(2);
            assert(vts =~= toks_arr_str(fs0) + (plat_tail5(v) + rest));
            assert(vts[0] is LBrack);
            assert(!(vts[0] is Null));
            lemma_arr_str_rt(fs0, plat_tail5(v) + rest);
            let r = plat_tail5(v) + rest;
            assert(r.len() < fs.len());
            lemma_plat_rt5(v, rest, osv, Some(Some(fs0)));
        },
    }
}

proof fn lemma_plat_rt3(v: PlatformV, rest: Seq<GTok>)
    ensures
        sp_plat_after(plat_tail3(v) + rest, Some(v.architecture), Some(v.os), None, None, None)
            == Some((v, rest)),
{
    lemma_plat_keys();
    let ts = plat_tail3(v) + rest;
    match v.os_version {
        None => {
            assert(plat_tail3(v) == plat_tail4(v));
            lemma_plat_rt4(v, rest, None);
        },
        Some(x) => {
            assert(ts[0] is Comma);
            let fs = ts.skip(1);
            assert(fs =~= seq![GTok::Lit("os.version"@), GTok::Colon, GTok::Lit(x)] + (plat_tail4(
                v,
            ) + rest));
            let vts = fs.skip(2);
            assert(vts =~= seq![GTok::Lit(x)] + (plat_tail4(v) + rest));
            assert(sp_v_opt_str(vts) == Some((Some(x), vts.skip(1))));
            let r = vts.skip(1);
            assert(r =~= plat_tail4(v) + rest);
            assert(plat_tail4(v).len() >= 1);
            assert(r.len() < fs.len());
            lemma_plat_rt4(v, rest, Some(Some(x)));
        },
    }
}

proof fn lemma_plat_rt2(v: PlatformV, rest: Seq<GTok>)
    ensures
        sp_plat_after(plat_tail2(v) + rest, Some(v.architecture), None, None, None, None) == Some(
            (v, rest),
        ),
{
    lemma_plat_keys();
    let ts = plat_tail2(v) + rest;
    assert(ts[0] is Comma);
    let fs = ts.skip(1);
    assert(fs =~= seq![GTok::Lit("os"@), GTok::Colon, GTok::Lit(v.os)] + (plat_tail3(v) + rest));
    let vts = fs.skip(2);
    assert(vts =~= seq![GTok::Lit(v.os)] + (plat_tail3(v) + rest));
    assert(sp_v_str(vts) == Some((v.os, vts.skip(1))));
    let r = vts.skip(1);
    assert(r =~= plat_tail3(v) + rest);
    assert(plat_tail3(v).len() >= 1);
    assert(r.len() < fs.len());
    lemma_plat_rt3(v, rest);
}

/// Parsing an encoded platform recovers it exactly.
pub proof fn lemma_platform_rt(v: PlatformV, rest: Seq<GTok>)
    ensures
        sp_platform(toks_platform(v) + rest) == Some((v, rest)),
{
    lemma_plat_keys();
    let ts = toks_platform(v) + rest;
    assert(ts[0] is LBrace && ts[1] == GTok::Lit("architecture"@));
    let fs = ts.skip(1);
    assert(fs =~= seq![GTok::Lit("architecture"@), GTok::Colon, GTok::Lit(v.architecture)] + (
    plat_tail2(v) + rest));
    let vts = fs.skip(2);
    assert(vts =~= seq![GTok::Lit(v.architecture)] + (plat_tail2(v) + rest));
    assert(sp_v_str(vts) == Some((v.architecture, vts.skip(1))));
    let r = vts.skip(1);
    assert(r =~= plat_tail2(v) + rest);
    assert(plat_tail2(v).len() >= 1);
    assert(r.len() < fs.len());
    lemma_plat_rt2(v, rest);
}

// ---------------------------------------------------------------------------
// Descriptor
// ---------------------------------------------------------------------------

/// A reference to content by digest, media type, and size, optionally scoped
/// to a platform.
#[derive(Clone, Debug)]
pub struct Descriptor {
    /// The media type of the referenced content.
    pub media_type: MediaType,
    /// The content-addressable identifier of the referenced content, in the
    /// form `<algorithm>:<hex>`; its format is validated by the caller at
    /// the boundary, not re-derived here.
    pub digest: String,
    /// The byte count of the referenced content.
    pub size: i64,
    /// Mirror locations the content may be downloaded from.
    pub urls: Option<Vec<String>>,
    /// Arbitrary metadata, entries kept in document order.
    pub annotations: Option<Vec<(String, String)>>,
    /// The platform the referenced manifest is meant for.
    pub platform: Option<Platform>,
}

/// The mathematical value of a [`Descriptor`].
#[verifier::ext_equal]
pub struct DescriptorV {
    pub media_type: Seq<char>,
    pub digest: Seq<char>,
    pub size: i64,
    pub urls: Option<Seq<Seq<char>>>,
    pub annotations: Option<Seq<(Seq<char>, Seq<char>)>>,
    pub platform: Option<PlatformV>,
}

impl View for Descriptor {
    type V = DescriptorV;

    open spec fn view(&self) -> DescriptorV {
        DescriptorV {
            media_type: self.media_type@,
            digest: self.digest@,
            size: self.size,
            urls: self.urls.deep_view(),
            annotations: self.annotations.deep_view(),
            platform: self.platform.deep_view(),
        }
    }
}

impl DeepView for Descriptor {
    type V = DescriptorV;

    open spec fn deep_view(&self) -> DescriptorV {
        self.view()
    }
}

/// Tokens from the `platform` field on.
pub open spec fn desc_tail6(v: DescriptorV) -> Seq<GTok> {
    match v.platform {
        Some(p) => seq![GTok::Comma, GTok::Lit("platform"@), GTok::Colon] + toks_platform(p) + seq![
            GTok::RBrace,
        ],
        None => seq![GTok::RBrace],
    }
}

/// Tokens from the `annotations` field on.
pub open spec fn desc_tail5(v: DescriptorV) -> Seq<GTok> {
    match v.annotations {
        Some(ps) => seq![GTok::Comma, GTok::Lit("annotations"@), GTok::Colon] + toks_map(ps)
            + desc_tail6(v),
        None => desc_tail6(v),
    }
}

/// Tokens from the `urls` field on.
pub open spec fn desc_tail4(v: DescriptorV) -> Seq<GTok> {
    match v.urls {
        Some(us) => seq![GTok::Comma, GTok::Lit("urls"@), GTok::Colon] + toks_arr_str(us)
            + desc_tail5(v),
        None => desc_tail5(v),
    }
}

/// Tokens from the `size` field on.
pub open spec fn desc_tail3(v: DescriptorV) -> Seq<GTok> {
    seq![GTok::Comma, GTok::Lit("size"@), GTok::Colon, GTok::Int(v.size as int)] + desc_tail4(v)
}

/// Tokens from the `digest` field on.
pub open spec fn desc_tail2(v: DescriptorV) -> Seq<GTok> {
    seq![GTok::Comma, GTok::Lit("digest"@), GTok::Colon, GTok::Lit(v.digest)] + desc_tail3(v)
}

/// The tokens of an encoded descriptor.
pub open spec fn toks_descriptor(v: DescriptorV) -> Seq<GTok> {
    seq![GTok::LBrace, GTok::Lit("mediaType"@), GTok::Colon, GTok::Lit(v.media_type)]
        + desc_tail2(v)
}

/// Tokens from the `urls` field on hold no integer and end with the brace.
proof fn lemma_desc_tail4_no_int(v: DescriptorV)
    ensures
        no_int(desc_tail4(v)),
        desc_tail4(v).len() >= 1,
        desc_tail4(v)[0] is Comma || desc_tail4(v)[0] is RBrace,
        desc_tail4(v).last() is RBrace,
{
    match v.platform {
        Some(p) => {
            lemma_platform_stream_ok(p);
            assert(no_int(toks_platform(p))) by {
                assert(forall|i: int|
                    0 <= i < toks_platform(p).len() ==> tok_ok(#[trigger] toks_platform(p)[i]));
                assert(forall|i: int|
                    0 <= i < toks_platform(p).len() ==> !(#[trigger] toks_platform(p)[i] is Int))
                    by {
                    lemma_plat_no_int(p);
                }
            }
        },
        None => {},
    }
    match v.annotations {
        Some(ps) => {
            lemma_map_no_int(ps);
            lemma_no_int_concat(
                seq![GTok::Comma, GTok::Lit("annotations"@), GTok::Colon],
                toks_map(ps),
            );
            lemma_no_int_concat(
                seq![GTok::Comma, GTok::Lit("annotations"@), GTok::Colon] + toks_map(ps),
                desc_tail6(v),
            );
            assert(desc_tail5(v).last() == desc_tail6(v).last());
        },
        None => {},
    }
    match v.urls {
        Some(us) => {
            lemma_arr_str_no_int(us);
            lemma_no_int_concat(seq![GTok::Comma, GTok::Lit("urls"@), GTok::Colon], toks_arr_str(us));
            lemma_no_int_concat(
                seq![GTok::Comma, GTok::Lit("urls"@), GTok::Colon] + toks_arr_str(us),
                desc_tail5(v),
            );
            assert(desc_tail4(v).last() == desc_tail5(v).last());
        },
        None => {},
    }
}

/// Tokens from the `platform` field on hold no integer.
proof fn lemma_desc_tail6_no_int(v: DescriptorV)
    ensures
        no_int(desc_tail6(v)),
        desc_tail6(v).len() >= 1,
        desc_tail6(v).last() is RBrace,
{
    match v.platform {
        Some(p) => {
            lemma_plat_no_int(p);
            lemma_no_int_concat(
                seq![GTok::Comma, GTok::Lit("platform"@), GTok::Colon],
                toks_platform(p),
            );
            lemma_no_int_concat(
                seq![GTok::Comma, GTok::Lit("platform"@), GTok::Colon] + toks_platform(p),
                seq![GTok::RBrace],
            );
        },
        None => {},
    }
}

/// An encoded platform holds no integer tokens.
proof fn lemma_plat_no_int(v: PlatformV)
    ensures
        no_int(toks_platform(v)),
{
    lemma_plat_tail2_no_int(v);
    lemma_no_int_concat(
        seq![GTok::LBrace, GTok::Lit("architecture"@), GTok::Colon, GTok::Lit(v.architecture)],
        plat_tail2(v),
    );
    assert(toks_platform(v) =~= seq![
        GTok::LBrace,
        GTok::Lit("architecture"@),
        GTok::Colon,
        GTok::Lit(v.architecture),
    ] + plat_tail2(v));
}

/// An encoded descriptor is a well-separated stream enclosed in braces.
pub proof fn lemma_descriptor_stream_ok(v: DescriptorV)
    ensures
        stream_ok(toks_descriptor(v)),
        toks_descriptor(v).len() >= 2,
        !(toks_descriptor(v)[0] is Int),
        !(toks_descriptor(v).last() is Int),
{
    lemma_desc_tail6_no_int(v);
    lemma_desc_tail4_no_int(v);
    let t4 = desc_tail4(v);
    let ts = toks_descriptor(v);
    assert(ts =~= seq![
        GTok::LBrace,
        GTok::Lit("mediaType"@),
        GTok::Colon,
        GTok::Lit(v.media_type),
        GTok::Comma,
        GTok::Lit("digest"@),
        GTok::Colon,
        GTok::Lit(v.digest),
        GTok::Comma,
        GTok::Lit("size"@),
        GTok::Colon,
        GTok::Int(v.size as int),
    ] + t4);
    assert(forall|i: int| 0 <= i < ts.len() ==> tok_ok(#[trigger] ts[i])) by {
        assert(forall|i: int| 0 <= i < t4.len() ==> #[trigger] ts[i + 12] == t4[i]);
    }
    assert(forall|i: int| 0 <= i < ts.len() - 1 ==> !(#[trigger] ts[i] is Int && ts[i + 1] is Int))
        by {
        assert(forall|i: int| 0 <= i < t4.len() ==> #[trigger] ts[i + 12] == t4[i]);
    }
    assert(ts.last() == t4.last());
}

/// Finalizes a parsed descriptor: media type, digest, and size are required.
pub open spec fn sp_desc_fin(
    mt: Option<Seq<char>>,
    dg: Option<Seq<char>>,
    sz: Option<i64>,
    urls: Option<Option<Seq<Seq<char>>>>,
    ann: Option<Option<Seq<(Seq<char>, Seq<char>)>>>,
    plat: Option<Option<PlatformV>>,
    rest: Seq<GTok>,
) -> Option<(DescriptorV, Seq<GTok>)> {
    match (mt, dg, sz) {
        (Some(m), Some(d), Some(s)) => Some(
            (
                DescriptorV {
                    media_type: m,
                    digest: d,
                    size: s,
                    urls: flat(urls),
                    annotations: flat(ann),
                    platform: flat(plat),
                },
                rest,
            ),
        ),
        _ => None,
    }
}

/// After a descriptor field's value.
pub open spec fn sp_desc_after(
    ts: Seq<GTok>,
    mt: Option<Seq<char>>,
    dg: Option<Seq<char>>,
    sz: Option<i64>,
    urls: Option<Option<Seq<Seq<char>>>>,
    ann: Option<Option<Seq<(Seq<char>, Seq<char>)>>>,
    plat: Option<Option<PlatformV>>,
) -> Option<(DescriptorV, Seq<GTok>)>
    decreases ts.len(), 0int,
{
    if ts.len() == 0 {
        None
    } else if ts[0] is Comma {
        sp_desc_fields(ts.skip(1), mt, dg, sz, urls, ann, plat)
    } else if ts[0] is RBrace {
        sp_desc_fin(mt, dg, sz, urls, ann, plat, ts.skip(1))
    } else {
        None
    }
}

/// At a descriptor field's key.
pub open spec fn sp_desc_fields(
    ts: Seq<GTok>,
    mt: Option<Seq<char>>,
    dg: Option<Seq<char>>,
    sz: Option<i64>,
    urls: Option<Option<Seq<Seq<char>>>>,
    ann: Option<Option<Seq<(Seq<char>, Seq<char>)>>>,
    plat: Option<Option<PlatformV>>,
) -> Option<(DescriptorV, Seq<GTok>)>
    decreases ts.len(), 1int,
{
    if ts.len() < 2 || !(ts[1] is Colon) {
        None
    } else {
        match ts[0] {
            GTok::Lit(k) => {
                let vts = ts.skip(2);
                if k == "mediaType"@ {
                    if mt is Some {
                        None
                    } else {
                        match sp_v_str(vts) {
                            Some((s, r)) => if r.len() < ts.len() {
                                sp_desc_after(r, Some(s), dg, sz, urls, ann, plat)
                            } else {
                                None
                            },
                            None => None,
                        }
                    }
                } else if k == "digest"@ {
                    if dg is Some {
                        None
                    } else {
                        match sp_v_str(vts) {
                            Some((s, r)) => if r.len() < ts.len() {
                                sp_desc_after(r, mt, Some(s), sz, urls, ann, plat)
                            } else {
                                None
                            },
                            None => None,
                        }
                    }
                } else if k == "size"@ {
                    if sz is Some {
                        None
                    } else {
                        match sp_v_i64(vts) {
                            Some((n, r)) => if r.len() < ts.len() {
                                sp_desc_after(r, mt, dg, Some(n), urls, ann, plat)
                            } else {
                                None
                            },
                            None => None,
                        }
                    }
                } else if k == "urls"@ {
                    if urls is Some {
                        None
                    } else if vts.len() >= 1 && vts[0] is Null {
                        if vts.len() - 1 < ts.len() {
                            sp_desc_after(vts.skip(1), mt, dg, sz, Some(None), ann, plat)
                        } else {
                            None
                        }
                    } else {
                        match sp_v_arr_str(vts) {
                            Some((us, r)) => if r.len() < ts.len() {
                                sp_desc_after(r, mt, dg, sz, Some(Some(us)), ann, plat)
                            } else {
                                None
                            },
                            None => None,
                        }
                    }
                } else if k == "annotations"@ {
                    if ann is Some {
                        None
                    } else if vts.len() >= 1 && vts[0] is Null {
                        if vts.len() - 1 < ts.len() {
                            sp_desc_after(vts.skip(1), mt, dg, sz, urls, Some(None), plat)
                        } else {
                            None
                        }
                    } else {
                        match sp_v_map(vts) {
                            Some((ps, r)) => if r.len() < ts.len() {
                                sp_desc_after(r, mt, dg, sz, urls, Some(Some(ps)), plat)
                            } else {
                                None
                            },
                            None => None,
                        }
                    }
                } else if k == "platform"@ {
                    if plat is Some {
                        None
                    } else if vts.len() >= 1 && vts[0] is Null {
                        if vts.len() - 1 < ts.len() {
                            sp_desc_after(vts.skip(1), mt, dg, sz, urls, ann, Some(None))
                        } else {
                            None
                        }
                    } else {
                        match sp_platform(vts) {
                            Some((p, r)) => if r.len() < ts.len() {
                                sp_desc_after(r, mt, dg, sz, urls, ann, Some(Some(p)))
                            } else {
                                None
                            },
                            None => None,
                        }
                    }
                } else {
                    match sp_skip_val(vts) {
                        Some(r) => if r.len() < ts.len() {
                            sp_desc_after(r, mt, dg, sz, urls, ann, plat)
                        } else {
                            None
                        },
                        None => None,
                    }
                }
            },
            _ => None,
        }
    }
}

/// Parses one descriptor object.
pub open spec fn sp_descriptor(ts: Seq<GTok>) -> Option<(DescriptorV, Seq<GTok>)> {
    if ts.len() < 2 || !(ts[0] is LBrace) {
        None
    } else if ts[1] is RBrace {
        None  // media type, digest, and size are required
    } else {
        sp_desc_fields(ts.skip(1), None, None, None, None, None, None)
    }
}

/// Reveals the descriptor key literals; `size` and `urls` share a length and
/// differ at their first character.
proof fn lemma_desc_keys()
    ensures
        "mediaType"@.len() == 9,
        "digest"@.len() == 6,
        "size"@.len() == 4,
        "urls"@.len() == 4,
        "annotations"@.len() == 11,
        "platform"@.len() == 8,
        "size"@ != "urls"@,
{
    reveal_strlit("mediaType");
    reveal_strlit("digest");
    reveal_strlit("size");
    reveal_strlit("urls");
    reveal_strlit("annotations");
    reveal_strlit("platform");
    assert("size"@[0] != "urls"@[0]);
}

proof fn lemma_desc_rt6(
    v: DescriptorV,
    rest: Seq<GTok>,
    urls: Option<Option<Seq<Seq<char>>>>,
    ann: Option<Option<Seq<(Seq<char>, Seq<char>)>>>,
)
    requires
        flat(urls) == v.urls,
        flat(ann) == v.annotations,
    ensures
        sp_desc_after(
            desc_tail6(v) + rest,
            Some(v.media_type),
            Some(v.digest),
            Some(v.size),
            urls,
            ann,
            None,
        ) == Some((v, rest)),
{
    lemma_desc_keys();
    lemma_plat_keys();
    let ts = desc_tail6(v) + rest;
    match v.platform {
        None => {
            assert(ts[0] is RBrace);
            assert(ts.skip(1) =~= rest);
            assert(DescriptorV {
                media_type: v.media_type,
                digest: v.digest,
                size: v.size,
                urls: flat(urls),
                annotations: flat(ann),
                platform: flat(None::<Option<PlatformV>>),
            } =~= v);
        },
        Some(p) => {
            assert(ts[0] is Comma);
            let fs = ts.skip(1);
            assert(fs =~= seq![GTok::Lit("platform"@), GTok::Colon] + (toks_platform(p) + (seq![
                GTok::RBrace,
            ] + rest)));
            let vts = fs.skip(2);
            assert(vts =~= toks_platform(p) + (seq![GTok::RBrace] + rest));
            assert(vts[0] is LBrace);
            assert(!(vts[0] is Null));
            lemma_platform_rt(p, seq![GTok::RBrace] + rest);
            let r = seq![GTok::RBrace] + rest;
            assert(r.len() < fs.len());
            assert(r[0] is RBrace);
            assert(r.skip(1) =~= rest);
            assert(DescriptorV {
                media_type: v.media_type,
                digest: v.digest,
                size: v.size,
                urls: flat(urls),
                annotations: flat(ann),
                platform: flat(Some(Some(p))),
            } =~= v);
            assert(sp_desc_after(
                r,
                Some(v.media_type),
                Some(v.digest),
                Some(v.size),
                urls,
                ann,
                Some(Some(p)),
            ) == Some((v, rest)));
            assert(sp_desc_fields(fs, Some(v.media_type), Some(v.digest), Some(v.size), urls, ann, None)
                == Some((v, rest)));
        },
    }
}

proof fn lemma_desc_rt5(v: DescriptorV, rest: Seq<GTok>, urls: Option<Option<Seq<Seq<char>>>>)
    requires
        flat(urls) == v.urls,
    ensures
        sp_desc_after(
            desc_tail5(v) + rest,
            Some(v.media_type),
            Some(v.digest),
            Some(v.size),
            urls,
            None,
            None,
        ) == Some((v, rest)),
{
    lemma_desc_keys();
    let ts = desc_tail5(v) + rest;
    match v.annotations {
        None => {
            assert(desc_tail5(v) == desc_tail6(v));
            lemma_desc_rt6(v, rest, urls, None);
        },
        Some(ps) => {
            assert(ts[0] is Comma);
            let fs = ts.skip(1);
            assert(fs =~= seq![GTok::Lit("annotations"@), GTok::Colon] + (toks_map(ps) + (
            desc_tail6(v) + rest)));
            let vts = fs.skip(2);
            assert(vts =~= toks_map(ps) + (desc_tail6(v) + rest));
            assert(vts[0] is LBrace);
            assert(!(vts[0] is Null));
            lemma_map_rt(ps, desc_tail6(v) + rest);
            let r = desc_tail6(v) + rest;
            lemma_desc_tail6_no_int(v);
            assert(r.len() < fs.len());
            lemma_desc_rt6(v, rest, urls, Some(Some(ps)));
            assert(sp_desc_fields(
                fs,
                Some(v.media_type),
                Some(v.digest),
                Some(v.size),
                urls,
                None,
                None,
            ) == Some((v, rest)));
        },
    }
}

proof fn lemma_desc_rt4(v: DescriptorV, rest: Seq<GTok>)
    ensures
        sp_desc_after(
            desc_tail4(v) + rest,
            Some(v.media_type),
            Some(v.digest),
            Some(v.size),
            None,
            None,
            None,
        ) == Some((v, rest)),
{
    lemma_desc_keys();
    let ts = desc_tail4(v) + rest;
    match v.urls {
        None => {
            assert(desc_tail4(v) == desc_tail5(v));
            lemma_desc_rt5(v, rest, None);
        },
        Some(us) => {
            assert(ts[0] is Comma);
            let fs = ts.skip(1);
            assert(fs =~= seq![GTok::Lit("urls"@), GTok::Colon] + (toks_arr_str(us) + (desc_tail5(
                v,
            ) + rest)));
            let vts = fs.skip(2);
            assert(vts =~= toks_arr_str(us) + (desc_tail5(v) + rest));
            assert(vts[0] is LBrack);
            assert(!(vts[0] is Null));
            lemma_arr_str_rt(us, desc_tail5(v) + rest);
            let r = desc_tail5(v) + rest;
            lemma_desc_tail6_no_int(v);
            assert(desc_tail5(v).len() >= 1);
            assert(r.len() < fs.len());
            lemma_desc_rt5(v, rest, Some(Some(us)));
            assert(sp_desc_fields(
                fs,
                Some(v.media_type),
                Some(v.digest),
                Some(v.size),
                None,
                None,
                None,
            ) == Some((v, rest)));
        },
    }
}

/// Parsing an encoded descriptor recovers it exactly.
#[verifier::rlimit(100)]
pub proof fn lemma_descriptor_rt(v: DescriptorV, rest: Seq<GTok>)
    ensures
        sp_descriptor(toks_descriptor(v) + rest) == Some((v, rest)),
{
    lemma_desc_keys();
    let ts = toks_descriptor(v) + rest;
    assert(ts[0] is LBrace && ts[1] == GTok::Lit("mediaType"@));
    let fs = ts.skip(1);
    assert(fs =~= seq![GTok::Lit("mediaType"@), GTok::Colon, GTok::Lit(v.media_type)] + (
    desc_tail2(v) + rest));
    let vts = fs.skip(2);
    assert(vts =~= seq![GTok::Lit(v.media_type)] + (desc_tail2(v) + rest));
    assert(sp_v_str(vts) == Some((v.media_type, vts.skip(1))));
    let r1 = vts.skip(1);
    assert(r1 =~= desc_tail2(v) + rest);
    assert(desc_tail2(v).len() >= 1);
    assert(r1.len() < fs.len());
    // the digest field
    assert(r1[0] is Comma);
    let fs2 = r1.skip(1);
    assert(fs2 =~= seq![GTok::Lit("digest"@), GTok::Colon, GTok::Lit(v.digest)] + (desc_tail3(v)
        + rest));
    let vts2 = fs2.skip(2);
    assert(vts2 =~= seq![GTok::Lit(v.digest)] + (desc_tail3(v) + rest));
    assert(sp_v_str(vts2) == Some((v.digest, vts2.skip(1))));
    let r2 = vts2.skip(1);
    assert(r2 =~= desc_tail3(v) + rest);
    assert(desc_tail3(v).len() >= 1);
    assert(r2.len() < fs2.len());
    // the size field
    assert(r2[0] is Comma);
    let fs3 = r2.skip(1);
    assert(fs3 =~= seq![GTok::Lit("size"@), GTok::Colon, GTok::Int(v.size as int)] + (desc_tail4(v)
        + rest));
    let vts3 = fs3.skip(2);
    assert(vts3 =~= seq![GTok::Int(v.size as int)] + (desc_tail4(v) + rest));
    assert(sp_v_i64(vts3) == Some((v.size, vts3.skip(1))));
    let r3 = vts3.skip(1);
    assert(r3 =~= desc_tail4(v) + rest);
    lemma_desc_tail4_no_int(v);
    assert(r3.len() < fs3.len());
    lemma_desc_rt4(v, rest);
    assert(sp_desc_fields(fs3, Some(v.media_type), Some(v.digest), None, None, None, None) == Some(
        (v, rest),
    ));
    assert(sp_desc_fields(fs2, Some(v.media_type), None, None, None, None, None) == Some(
        (v, rest),
    ));
    assert(sp_desc_fields(fs, None, None, None, None, None, None) == Some((v, rest)));
}

// ---------------------------------------------------------------------------
// Image index
// ---------------------------------------------------------------------------

/// The image index: a higher-level manifest pointing at manifests for
/// specific platforms.
#[derive(Clone, Debug)]
pub struct ImageIndex {
    /// The image manifest schema version, fixed at two for this
    /// specification version.
    pub schema_version: u32,
    /// The media type of this document, when used.
    pub media_type: Option<MediaType>,
    /// The manifests for specific platforms; the list may be empty but must
    /// be present.
    pub manifests: Vec<Descriptor>,
    /// Arbitrary metadata for the index, entries kept in document order.
    pub annotations: Option<Vec<(String, String)>>,
}

/// The mathematical value of an [`ImageIndex`].
#[verifier::ext_equal]
pub struct ImageIndexV {
    pub schema_version: u32,
    pub media_type: Option<Seq<char>>,
    pub manifests: Seq<DescriptorV>,
    pub annotations: Option<Seq<(Seq<char>, Seq<char>)>>,
}

impl View for ImageIndex {
    type V = ImageIndexV;

    open spec fn view(&self) -> ImageIndexV {
        ImageIndexV {
            schema_version: self.schema_version,
            media_type: match self.media_type {
                Some(m) => Some(m@),
                None => None,
            },
            manifests: self.manifests.deep_view(),
            annotations: self.annotations.deep_view(),
        }
    }
}

impl DeepView for ImageIndex {
    type V = ImageIndexV;

    open spec fn deep_view(&self) -> ImageIndexV {
        self.view()
    }
}

impl Default for ImageIndex {
    /// An index with the fixed schema version, no media type, no manifests,
    /// and no annotations.
    fn default() -> (r: Self)
        ensures
            r.schema_version == SCHEMA_VERSION,
            r.media_type is None,
            r.manifests@.len() == 0,
            r.annotations is None,
    {
        ImageIndex {
            schema_version: SCHEMA_VERSION,
            media_type: None,
            manifests: Vec::new(),
            annotations: None,
        }
    }
}

/// The trailing elements of an encoded descriptor array.
pub open spec fn arr_desc_tail(vs: Seq<DescriptorV>) -> Seq<GTok>
    decreases vs.len(),
{
    if vs.len() == 0 {
        seq![GTok::RBrack]
    } else {
        seq![GTok::Comma] + toks_descriptor(vs[0]) + arr_desc_tail(vs.skip(1))
    }
}

/// The tokens of an encoded descriptor array.
pub open spec fn toks_arr_desc(vs: Seq<DescriptorV>) -> Seq<GTok> {
    if vs.len() == 0 {
        seq![GTok::LBrack, GTok::RBrack]
    } else {
        seq![GTok::LBrack] + toks_descriptor(vs[0]) + arr_desc_tail(vs.skip(1))
    }
}

/// Tokens from the `annotations` field on.
pub open spec fn idx_tail4(v: ImageIndexV) -> Seq<GTok> {
    match v.annotations {
        Some(ps) => seq![GTok::Comma, GTok::Lit("annotations"@), GTok::Colon] + toks_map(ps) + seq![
            GTok::RBrace,
        ],
        None => seq![GTok::RBrace],
    }
}

/// Tokens from the `manifests` field on.
pub open spec fn idx_tail3(v: ImageIndexV) -> Seq<GTok> {
    seq![GTok::Comma, GTok::Lit("manifests"@), GTok::Colon] + toks_arr_desc(v.manifests)
        + idx_tail4(v)
}

/// Tokens from the `mediaType` field on.
pub open spec fn idx_tail2(v: ImageIndexV) -> Seq<GTok> {
    match v.media_type {
        Some(m) => seq![GTok::Comma, GTok::Lit("mediaType"@), GTok::Colon, GTok::Lit(m)]
            + idx_tail3(v),
        None => idx_tail3(v),
    }
}

/// The tokens of an encoded image index.
pub open spec fn toks_image_index(v: ImageIndexV) -> Seq<GTok> {
    seq![
        GTok::LBrace,
        GTok::Lit("schemaVersion"@),
        GTok::Colon,
        GTok::Int(v.schema_version as int),
    ] + idx_tail2(v)
}

/// An encoded descriptor array is well separated, bracket-enclosed.
proof fn lemma_arr_desc_stream_ok(vs: Seq<DescriptorV>)
    ensures
        stream_ok(toks_arr_desc(vs)),
        toks_arr_desc(vs).len() >= 2,
        !(toks_arr_desc(vs)[0] is Int),
        !(toks_arr_desc(vs).last() is Int),
    decreases vs.len(),
{
    if vs.len() == 0 {
    } else {
        lemma_arr_desc_tail_stream_ok(vs.skip(1));
        lemma_descriptor_stream_ok(vs[0]);
        let e = toks_descriptor(vs[0]);
        let t = arr_desc_tail(vs.skip(1));
        let a = toks_arr_desc(vs);
        assert(a =~= seq![GTok::LBrack] + e + t);
        assert(forall|i: int| 0 <= i < e.len() ==> #[trigger] a[i + 1] == e[i]);
        assert(forall|i: int| 0 <= i < t.len() ==> #[trigger] a[i + 1 + e.len()] == t[i]);
        assert(a.last() == t.last());
        assert(forall|i: int| 0 <= i < a.len() ==> !(#[trigger] a[i] is Int && a[i + 1] is Int));
    }
}

/// The tail of an encoded descriptor array is well separated.
proof fn lemma_arr_desc_tail_stream_ok(vs: Seq<DescriptorV>)
    ensures
        stream_ok(arr_desc_tail(vs)),
        arr_desc_tail(vs).len() >= 1,
        !(arr_desc_tail(vs)[0] is Int),
        !(arr_desc_tail(vs).last() is Int),
    decreases vs.len(),
{
    if vs.len() == 0 {
    } else {
        lemma_arr_desc_tail_stream_ok(vs.skip(1));
        lemma_descriptor_stream_ok(vs[0]);
        let e = toks_descriptor(vs[0]);
        let t = arr_desc_tail(vs.skip(1));
        let a = arr_desc_tail(vs);
        assert(a =~= seq![GTok::Comma] + e + t);
        assert(forall|i: int| 0 <= i < e.len() ==> #[trigger] a[i + 1] == e[i]);
        assert(forall|i: int| 0 <= i < t.len() ==> #[trigger] a[i + 1 + e.len()] == t[i]);
        assert(a.last() == t.last());
        assert(forall|i: int| 0 <= i < a.len() ==> !(#[trigger] a[i] is Int && a[i + 1] is Int));
    }
}

/// An encoded image index is a well-separated stream.
pub proof fn lemma_index_stream_ok(v: ImageIndexV)
    ensures
        stream_ok(toks_image_index(v)),
{
    lemma_arr_desc_stream_ok(v.manifests);
    let a = toks_arr_desc(v.manifests);
    let t4 = idx_tail4(v);
    assert(no_int(t4)) by {
        match v.annotations {
            Some(ps) => {
                lemma_map_no_int(ps);
                lemma_no_int_concat(
                    seq![GTok::Comma, GTok::Lit("annotations"@), GTok::Colon],
                    toks_map(ps),
                );
                lemma_no_int_concat(
                    seq![GTok::Comma, GTok::Lit("annotations"@), GTok::Colon] + toks_map(ps),
                    seq![GTok::RBrace],
                );
            },
            None => {},
        }
    }
    let t3 = idx_tail3(v);
    assert(stream_ok(t3) && t3[0] is Comma && !(t3.last() is Int)) by {
        assert(t3 =~= seq![GTok::Comma, GTok::Lit("manifests"@), GTok::Colon] + a + t4);
        assert(forall|i: int| 0 <= i < a.len() ==> #[trigger] t3[i + 3] == a[i]);
        assert(forall|i: int| 0 <= i < t4.len() ==> #[trigger] t3[i + 3 + a.len()] == t4[i]);
        assert(t4.len() >= 1);
        assert(t3.last() == t4.last());
        assert(forall|i: int|
            0 <= i < t3.len() ==> !(#[trigger] t3[i] is Int && t3[i + 1] is Int));
        assert(forall|i: int| 0 <= i < t3.len() ==> tok_ok(#[trigger] t3[i]));
    }
    let t2 = idx_tail2(v);
    assert(stream_ok(t2) && t2[0] is Comma && !(t2.last() is Int)) by {
        match v.media_type {
            Some(m) => {
                assert(t2 =~= seq![GTok::Comma, GTok::Lit("mediaType"@), GTok::Colon, GTok::Lit(m)]
                    + t3);
                assert(forall|i: int| 0 <= i < t3.len() ==> #[trigger] t2[i + 4] == t3[i]);
                assert(t2.last() == t3.last());
                assert(forall|i: int|
                    0 <= i < t2.len() ==> !(#[trigger] t2[i] is Int && t2[i + 1] is Int));
                assert(forall|i: int| 0 <= i < t2.len() ==> tok_ok(#[trigger] t2[i]));
            },
            None => {},
        }
    }
    let ts = toks_image_index(v);
    assert(ts =~= seq![
        GTok::LBrace,
        GTok::Lit("schemaVersion"@),
        GTok::Colon,
        GTok::Int(v.schema_version as int),
    ] + t2);
    assert(forall|i: int| 0 <= i < t2.len() ==> #[trigger] ts[i + 4] == t2[i]);
    assert(forall|i: int| 0 <= i < ts.len() ==> tok_ok(#[trigger] ts[i]));
    assert(forall|i: int| 0 <= i < ts.len() - 1 ==> !(#[trigger] ts[i] is Int && ts[i + 1] is Int));
}

/// Finalizes a parsed index: schema version and manifests are required.
pub open spec fn sp_idx_fin(
    sv: Option<u32>,
    mt: Option<Option<Seq<char>>>,
    man: Option<Seq<DescriptorV>>,
    ann: Option<Option<Seq<(Seq<char>, Seq<char>)>>>,
    rest: Seq<GTok>,
) -> Option<(ImageIndexV, Seq<GTok>)> {
    match (sv, man) {
        (Some(s), Some(ms)) => Some(
            (
                ImageIndexV {
                    schema_version: s,
                    media_type: flat(mt),
                    manifests: ms,
                    annotations: flat(ann),
                },
                rest,
            ),
        ),
        _ => None,
    }
}

/// Parses the elements of a descriptor array from its first element.
pub open spec fn sp_arr_desc_elems(ts: Seq<GTok>) -> Option<(Seq<DescriptorV>, Seq<GTok>)>
    decreases ts.len(),
{
    match sp_descriptor(ts) {
        Some((v, r)) => if r.len() < ts.len() && r.len() >= 1 {
            if r[0] is Comma {
                match sp_arr_desc_elems(r.skip(1)) {
                    Some((vs, r2)) => Some((seq![v] + vs, r2)),
                    None => None,
                }
            } else if r[0] is RBrack {
                Some((seq![v], r.skip(1)))
            } else {
                None
            }
        } else {
            None
        },
        None => None,
    }
}

/// Parses an array of descriptors.
pub open spec fn sp_v_arr_desc(ts: Seq<GTok>) -> Option<(Seq<DescriptorV>, Seq<GTok>)> {
    if ts.len() < 2 || !(ts[0] is LBrack) {
        None
    } else if ts[1] is RBrack {
        Some((Seq::empty(), ts.skip(2)))
    } else {
        sp_arr_desc_elems(ts.skip(1))
    }
}

/// After an index field's value.
pub open spec fn sp_idx_after(
    ts: Seq<GTok>,
    sv: Option<u32>,
    mt: Option<Option<Seq<char>>>,
    man: Option<Seq<DescriptorV>>,
    ann: Option<Option<Seq<(Seq<char>, Seq<char>)>>>,
) -> Option<(ImageIndexV, Seq<GTok>)>
    decreases ts.len(), 0int,
{
    if ts.len() == 0 {
        None
    } else if ts[0] is Comma {
        sp_idx_fields(ts.skip(1), sv, mt, man, ann)
    } else if ts[0] is RBrace {
        sp_idx_fin(sv, mt, man, ann, ts.skip(1))
    } else {
        None
    }
}

/// At an index field's key.
pub open spec fn sp_idx_fields(
    ts: Seq<GTok>,
    sv: Option<u32>,
    mt: Option<Option<Seq<char>>>,
    man: Option<Seq<DescriptorV>>,
    ann: Option<Option<Seq<(Seq<char>, Seq<char>)>>>,
) -> Option<(ImageIndexV, Seq<GTok>)>
    decreases ts.len(), 1int,
{
    if ts.len() < 2 || !(ts[1] is Colon) {
        None
    } else {
        match ts[0] {
            GTok::Lit(k) => {
                let vts = ts.skip(2);
                if k == "schemaVersion"@ {
                    if sv is Some {
                        None
                    } else {
                        match sp_v_u32(vts) {
                            Some((n, r)) => if r.len() < ts.len() {
                                sp_idx_after(r, Some(n), mt, man, ann)
                            } else {
                                None
                            },
                            None => None,
                        }
                    }
                } else if k == "mediaType"@ {
                    if mt is Some {
                        None
                    } else {
                        match sp_v_opt_str(vts) {
                            Some((m, r)) => if r.len() < ts.len() {
                                sp_idx_after(r, sv, Some(m), man, ann)
                            } else {
                                None
                            },
                            None => None,
                        }
                    }
                } else if k == "manifests"@ {
                    if man is Some {
                        None
                    } else {
                        match sp_v_arr_desc(vts) {
                            Some((ms, r)) => if r.len() < ts.len() {
                                sp_idx_after(r, sv, mt, Some(ms), ann)
                            } else {
                                None
                            },
                            None => None,
                        }
                    }
                } else if k == "annotations"@ {
                    if ann is Some {
                        None
                    } else if vts.len() >= 1 && vts[0] is Null {
                        if vts.len() - 1 < ts.len() {
                            sp_idx_after(vts.skip(1), sv, mt, man, Some(None))
                        } else {
                            None
                        }
                    } else {
                        match sp_v_map(vts) {
                            Some((ps, r)) => if r.len() < ts.len() {
                                sp_idx_after(r, sv, mt, man, Some(Some(ps)))
                            } else {
                                None
                            },
                            None => None,
                        }
                    }
                } else {
                    match sp_skip_val(vts) {
                        Some(r) => if r.len() < ts.len() {
                            sp_idx_after(r, sv, mt, man, ann)
                        } else {
                            None
                        },
                        None => None,
                    }
                }
            },
            _ => None,
        }
    }
}

/// Parses one image index object.
pub open spec fn sp_image_index(ts: Seq<GTok>) -> Option<(ImageIndexV, Seq<GTok>)> {
    if ts.len() < 2 || !(ts[0] is LBrace) {
        None
    } else if ts[1] is RBrace {
        None  // schema version and manifests are required
    } else {
        sp_idx_fields(ts.skip(1), None, None, None, None)
    }
}

/// Reveals the index key literals; `mediaType` and `manifests` share a
/// length and differ at their second character.
proof fn lemma_idx_keys()
    ensures
        "schemaVersion"@.len() == 13,
        "mediaType"@.len() == 9,
        "manifests"@.len() == 9,
        "annotations"@.len() == 11,
        "mediaType"@ != "manifests"@,
{
    reveal_strlit("schemaVersion");
    reveal_strlit("mediaType");
    reveal_strlit("manifests");
    reveal_strlit("annotations");
    assert("mediaType"@[1] != "manifests"@[1]);
}

/// Parsing an encoded descriptor array from its first element recovers it.
proof fn lemma_arr_desc_tail_rt(v0: DescriptorV, vs: Seq<DescriptorV>, rest: Seq<GTok>)
    ensures
        sp_arr_desc_elems(toks_descriptor(v0) + (arr_desc_tail(vs) + rest)) == Some(
            (seq![v0] + vs, rest),
        ),
    decreases vs.len(),
{
    let ts = toks_descriptor(v0) + (arr_desc_tail(vs) + rest);
    lemma_descriptor_rt(v0, arr_desc_tail(vs) + rest);
    let r = arr_desc_tail(vs) + rest;
    assert(r.len() < ts.len());
    if vs.len() == 0 {
        assert(r[0] is RBrack);
        assert(r.skip(1) =~= rest);
        assert(seq![v0] + vs =~= seq![v0]);
    } else {
        assert(r[0] is Comma);
        assert(r.skip(1) =~= toks_descriptor(vs[0]) + (arr_desc_tail(vs.skip(1)) + rest));
        lemma_arr_desc_tail_rt(vs[0], vs.skip(1), rest);
        assert(seq![vs[0]] + vs.skip(1) =~= vs);
        assert(seq![v0] + (seq![vs[0]] + vs.skip(1)) =~= seq![v0] + vs);
    }
}

/// Parsing an encoded descriptor array recovers it.
pub proof fn lemma_arr_desc_rt(vs: Seq<DescriptorV>, rest: Seq<GTok>)
    ensures
        sp_v_arr_desc(toks_arr_desc(vs) + rest) == Some((vs, rest)),
{
    let ts = toks_arr_desc(vs) + rest;
    if vs.len() == 0 {
        assert(ts.skip(2) =~= rest);
        assert(sp_v_arr_desc(ts) == Some((Seq::<DescriptorV>::empty(), rest)));
    } else {
        lemma_descriptor_stream_ok(vs[0]);
        assert(ts[0] is LBrack);
        assert(ts[1] == toks_descriptor(vs[0])[0]);
        assert(!(ts[1] is RBrack));
        assert(ts.skip(1) =~= toks_descriptor(vs[0]) + (arr_desc_tail(vs.skip(1)) + rest));
        lemma_arr_desc_tail_rt(vs[0], vs.skip(1), rest);
        assert(seq![vs[0]] + vs.skip(1) =~= vs);
    }
}

proof fn lemma_idx_rt4(v: ImageIndexV, rest: Seq<GTok>, mt: Option<Option<Seq<char>>>)
    requires
        flat(mt) == v.media_type,
    ensures
        sp_idx_after(
            idx_tail4(v) + rest,
            Some(v.schema_version),
            mt,
            Some(v.manifests),
            None,
        ) == Some((v, rest)),
{
    lemma_idx_keys();
    let ts = idx_tail4(v) + rest;
    match v.annotations {
        None => {
            assert(ts[0] is RBrace);
            assert(ts.skip(1) =~= rest);
            assert(ImageIndexV {
                schema_version: v.schema_version,
                media_type: flat(mt),
                manifests: v.manifests,
                annotations: flat(None::<Option<Seq<(Seq<char>, Seq<char>)>>>),
            } =~= v);
        },
        Some(ps) => {
            assert(ts[0] is Comma);
            let fs = ts.skip(1);
            assert(fs =~= seq![GTok::Lit("annotations"@), GTok::Colon] + (toks_map(ps) + (seq![
                GTok::RBrace,
            ] + rest)));
            let vts = fs.skip(2);
            assert(vts =~= toks_map(ps) + (seq![GTok::RBrace] + rest));
            assert(vts[0] is LBrace);
            assert(!(vts[0] is Null));
            lemma_map_rt(ps, seq![GTok::RBrace] + rest);
            let r = seq![GTok::RBrace] + rest;
            assert(r.len() < fs.len());
            assert(r[0] is RBrace);
            assert(r.skip(1) =~= rest);
            assert(ImageIndexV {
                schema_version: v.schema_version,
                media_type: flat(mt),
                manifests: v.manifests,
                annotations: flat(Some(Some(ps))),
            } =~= v);
            assert(sp_idx_after(r, Some(v.schema_version), mt, Some(v.manifests), Some(Some(ps)))
                == Some((v, rest)));
            assert(sp_idx_fields(fs, Some(v.schema_version), mt, Some(v.manifests), None) == Some(
                (v, rest),
            ));
        },
    }
}

#[verifier::rlimit(100)]
proof fn lemma_idx_rt3(v: ImageIndexV, rest: Seq<GTok>, mt: Option<Option<Seq<char>>>)
    requires
        flat(mt) == v.media_type,
    ensures
        sp_idx_after(idx_tail3(v) + rest, Some(v.schema_version), mt, None, None) == Some(
            (v, rest),
        ),
{
    lemma_idx_keys();
    let ts = idx_tail3(v) + rest;
    assert(ts[0] is Comma);
    let fs = ts.skip(1);
    assert(fs =~= seq![GTok::Lit("manifests"@), GTok::Colon] + (toks_arr_desc(v.manifests) + (
    idx_tail4(v) + rest)));
    let vts = fs.skip(2);
    assert(vts =~= toks_arr_desc(v.manifests) + (idx_tail4(v) + rest));
    lemma_arr_desc_rt(v.manifests, idx_tail4(v) + rest);
    let r = idx_tail4(v) + rest;
    assert(idx_tail4(v).len() >= 1);
    assert(r.len() < fs.len());
    lemma_idx_rt4(v, rest, mt);
    assert(sp_idx_fields(fs, Some(v.schema_version), mt, None, None) == Some((v, rest)));
}

proof fn lemma_idx_rt2(v: ImageIndexV, rest: Seq<GTok>)
    ensures
        sp_idx_after(idx_tail2(v) + rest, Some(v.schema_version), None, None, None) == Some(
            (v, rest),
        ),
{
    lemma_idx_keys();
    let ts = idx_tail2(v) + rest;
    match v.media_type {
        None => {
            assert(idx_tail2(v) == idx_tail3(v));
            lemma_idx_rt3(v, rest, None);
        },
        Some(m) => {
            assert(ts[0] is Comma);
            let fs = ts.skip(1);
            assert(fs =~= seq![GTok::Lit("mediaType"@), GTok::Colon, GTok::Lit(m)] + (idx_tail3(v)
                + rest));
            let vts = fs.skip(2);
            assert(vts =~= seq![GTok::Lit(m)] + (idx_tail3(v) + rest));
            assert(sp_v_opt_str(vts) == Some((Some(m), vts.skip(1))));
            let r = vts.skip(1);
            assert(r =~= idx_tail3(v) + rest);
            assert(idx_tail3(v).len() >= 1);
            assert(r.len() < fs.len());
            lemma_idx_rt3(v, rest, Some(Some(m)));
            assert(sp_idx_fields(fs, Some(v.schema_version), None, None, None) == Some((v, rest)));
        },
    }
}

/// Parsing an encoded image index recovers it exactly.
pub proof fn lemma_image_index_rt(v: ImageIndexV, rest: Seq<GTok>)
    ensures
        sp_image_index(toks_image_index(v) + rest) == Some((v, rest)),
{
    lemma_idx_keys();
    let ts = toks_image_index(v) + rest;
    assert(ts[0] is LBrace && ts[1] == GTok::Lit("schemaVersion"@));
    let fs = ts.skip(1);
    assert(fs =~= seq![
        GTok::Lit("schemaVersion"@),
        GTok::Colon,
        GTok::Int(v.schema_version as int),
    ] + (idx_tail2(v) + rest));
    let vts = fs.skip(2);
    assert(vts =~= seq![GTok::Int(v.schema_version as int)] + (idx_tail2(v) + rest));
    assert(sp_v_u32(vts) == Some((v.schema_version, vts.skip(1))));
    let r = vts.skip(1);
    assert(r =~= idx_tail2(v) + rest);
    assert(idx_tail2(v).len() >= 1) by {
        match v.media_type {
            Some(m) => {},
            None => {},
        }
    }
    assert(r.len() < fs.len());
    lemma_idx_rt2(v, rest);
    assert(sp_idx_fields(fs, None, None, None, None) == Some((v, rest)));
}

// ---------------------------------------------------------------------------
// Executable codecs
// ---------------------------------------------------------------------------

impl Platform {
    /// Appends this value's tokens.
    pub fn push_toks(&self, out: &mut Vec<Token>)
        ensures
            final(out).deep_view() == old(out).deep_view() + toks_platform(self@),
    {
        push_tok(out, Token::LBrace);
        push_tok(out, Token::Lit("architecture".to_owned()));
        push_tok(out, Token::Colon);
        push_tok(out, Token::Lit(self.architecture.wire()));
        push_tok(out, Token::Comma);
        push_tok(out, Token::Lit("os".to_owned()));
        push_tok(out, Token::Colon);
        push_tok(out, Token::Lit(self.os.wire()));
        if let Some(x) = &self.os_version {
            push_tok(out, Token::Comma);
            push_tok(out, Token::Lit("os.version".to_owned()));
            push_tok(out, Token::Colon);
            push_tok(out, Token::Lit(x.clone()));
        }
        if let Some(fs) = &self.os_features {
            push_tok(out, Token::Comma);
            push_tok(out, Token::Lit("os.features".to_owned()));
            push_tok(out, Token::Colon);
            push_arr_str(out, fs);
        }
        if let Some(x) = &self.variant {
            push_tok(out, Token::Comma);
            push_tok(out, Token::Lit("variant".to_owned()));
            push_tok(out, Token::Colon);
            push_tok(out, Token::Lit(x.clone()));
        }
        push_tok(out, Token::RBrace);
        assert(out.deep_view() =~= old(out).deep_view() + toks_platform(self@));
    }
}

/// Parses one platform object, mirroring [`sp_platform`].
pub fn p_platform(ts: &Vec<Token>, i: usize) -> (r: Option<(Platform, usize)>)
    requires
        i <= ts.len(),
    ensures
        match r {
            Some((v, j)) => i < j <= ts.len() && sp_platform(ts.deep_view().skip(i as int))
                == Some((v@, ts.deep_view().skip(j as int))),
            None => sp_platform(ts.deep_view().skip(i as int)) is None,
        },
{
    let ghost dv = ts.deep_view();
    let ghost pre = dv.skip(i as int);
    if ts.len() - i < 2 {
        return None;
    }
    assert(pre[0] == dv[i as int] && pre[1] == dv[i as int + 1]);
    if !matches!(&ts[i], Token::LBrace) {
        return None;
    }
    if matches!(&ts[i + 1], Token::RBrace) {
        return None;
    }
    assert(pre.skip(1) =~= dv.skip(i as int + 1));
    let mut arch: Option<String> = None;
    let mut os: Option<String> = None;
    let mut osv: Option<Option<String>> = None;
    let mut osf: Option<Option<Vec<String>>> = None;
    let mut var: Option<Option<String>> = None;
    let mut k: usize = i + 1;
    loop
        invariant
            i + 1 <= k <= ts.len(),
            dv == ts.deep_view(),
            dv.len() == ts.len(),
            sp_platform(dv.skip(i as int)) == sp_plat_fields(
                dv.skip(k as int),
                arch.deep_view(),
                os.deep_view(),
                osv.deep_view(),
                osf.deep_view(),
                var.deep_view(),
            ),
        decreases ts.len() - k,
    {
        let ghost cur = dv.skip(k as int);
        if ts.len() - k < 2 {
            assert(cur.len() < 2);
            return None;
        }
        assert(cur[0] == dv[k as int] && cur[1] == dv[k as int + 1]);
        if !matches!(&ts[k + 1], Token::Colon) {
            return None;
        }
        let key: String;
        match &ts[k] {
            Token::Lit(k0) => {
                key = k0.clone();
            },
            _ => {
                return None;
            },
        }
        assert(cur.skip(2) =~= dv.skip(k as int + 2));
        let j: usize;
        if str_eq_lit(&key, "architecture") {
            if arch.is_some() {
                return None;
            }
            if k + 2 >= ts.len() {
                return None;
            }
            assert(cur.skip(2)[0] == dv[k as int + 2]);
            match &ts[k + 2] {
                Token::Lit(s) => {
                    arch = Some(s.clone());
                },
                _ => {
                    return None;
                },
            }
            assert(cur.skip(2).skip(1) =~= dv.skip(k as int + 3));
            j = k + 3;
        } else if str_eq_lit(&key, "os") {
            if os.is_some() {
                return None;
            }
            if k + 2 >= ts.len() {
                return None;
            }
            assert(cur.skip(2)[0] == dv[k as int + 2]);
            match &ts[k + 2] {
                Token::Lit(s) => {
                    os = Some(s.clone());
                },
                _ => {
                    return None;
                },
            }
            assert(cur.skip(2).skip(1) =~= dv.skip(k as int + 3));
            j = k + 3;
        } else if str_eq_lit(&key, "os.version") {
            if osv.is_some() {
                return None;
            }
            if k + 2 >= ts.len() {
                return None;
            }
            assert(cur.skip(2)[0] == dv[k as int + 2]);
            match &ts[k + 2] {
                Token::Lit(s) => {
                    osv = Some(Some(s.clone()));
                },
                Token::Null => {
                    osv = Some(None);
                },
                _ => {
                    return None;
                },
            }
            assert(cur.skip(2).skip(1) =~= dv.skip(k as int + 3));
            j = k + 3;
        } else if str_eq_lit(&key, "os.features") {
            if osf.is_some() {
                return None;
            }
            if k + 2 >= ts.len() {
                return None;
            }
            assert(cur.skip(2)[0] == dv[k as int + 2]);
            if matches!(&ts[k + 2], Token::Null) {
                osf = Some(None);
                assert(cur.skip(2).skip(1) =~= dv.skip(k as int + 3));
                j = k + 3;
            } else {
                match p_arr_str(ts, k + 2) {
                    Some((fs, j2)) => {
                        osf = Some(Some(fs));
                        j = j2;
                    },
                    None => {
                        return None;
                    },
                }
            }
        } else if str_eq_lit(&key, "variant") {
            if var.is_some() {
                return None;
            }
            if k + 2 >= ts.len() {
                return None;
            }
            assert(cur.skip(2)[0] == dv[k as int + 2]);
            match &ts[k + 2] {
                Token::Lit(s) => {
                    var = Some(Some(s.clone()));
                },
                Token::Null => {
                    var = Some(None);
                },
                _ => {
                    return None;
                },
            }
            assert(cur.skip(2).skip(1) =~= dv.skip(k as int + 3));
            j = k + 3;
        } else {
            match skip_val_exec(ts, k + 2) {
                Some(j2) => {
                    j = j2;
                },
                None => {
                    return None;
                },
            }
        }
        assert(dv.skip(j as int).len() < cur.len());
        if j == ts.len() {
            return None;
        }
        assert(dv.skip(j as int)[0] == dv[j as int]);
        assert(dv.skip(j as int).skip(1) =~= dv.skip(j as int + 1));
        match &ts[j] {
            Token::Comma => {
                k = j + 1;
            },
            Token::RBrace => {
                match (arch, os) {
                    (Some(a), Some(o)) => {
                        let v = Platform {
                            architecture: Arch::from_wire(a),
                            os: Os::from_wire(o),
                            os_version: match osv {
                                Some(x) => x,
                                None => None,
                            },
                            os_features: match osf {
                                Some(x) => x,
                                None => None,
                            },
                            variant: match var {
                                Some(x) => x,
                                None => None,
                            },
                        };
                        assert(v@ =~= PlatformV {
                            architecture: a@,
                            os: o@,
                            os_version: flat(osv.deep_view()),
                            os_features: flat(osf.deep_view()),
                            variant: flat(var.deep_view()),
                        });
                        return Some((v, j + 1));
                    },
                    _ => {
                        return None;
                    },
                }
            },
            _ => {
                return None;
            },
        }
    }
}

impl Descriptor {
    /// Appends this value's tokens.
    #[verifier::rlimit(100)]
    pub fn push_toks(&self, out: &mut Vec<Token>)
        ensures
            final(out).deep_view() == old(out).deep_view() + toks_descriptor(self@),
    {
        push_tok(out, Token::LBrace);
        push_tok(out, Token::Lit("mediaType".to_owned()));
        push_tok(out, Token::Colon);
        push_tok(out, Token::Lit(self.media_type.wire()));
        push_tok(out, Token::Comma);
        push_tok(out, Token::Lit("digest".to_owned()));
        push_tok(out, Token::Colon);
        push_tok(out, Token::Lit(self.digest.clone()));
        push_tok(out, Token::Comma);
        push_tok(out, Token::Lit("size".to_owned()));
        push_tok(out, Token::Colon);
        push_tok(out, Token::Int(self.size));
        if let Some(us) = &self.urls {
            push_tok(out, Token::Comma);
            push_tok(out, Token::Lit("urls".to_owned()));
            push_tok(out, Token::Colon);
            push_arr_str(out, us);
        }
        if let Some(ps) = &self.annotations {
            push_tok(out, Token::Comma);
            push_tok(out, Token::Lit("annotations".to_owned()));
            push_tok(out, Token::Colon);
            push_map(out, ps);
        }
        if let Some(p) = &self.platform {
            push_tok(out, Token::Comma);
            push_tok(out, Token::Lit("platform".to_owned()));
            push_tok(out, Token::Colon);
            p.push_toks(out);
        }
        push_tok(out, Token::RBrace);
        assert(out.deep_view() =~= old(out).deep_view() + toks_descriptor(self@));
    }
}

/// Parses one descriptor object, mirroring [`sp_descriptor`].
#[verifier::rlimit(100)]
pub fn p_descriptor(ts: &Vec<Token>, i: usize) -> (r: Option<(Descriptor, usize)>)
    requires
        i <= ts.len(),
    ensures
        match r {
            Some((v, j)) => i < j <= ts.len() && sp_descriptor(ts.deep_view().skip(i as int))
                == Some((v@, ts.deep_view().skip(j as int))),
            None => sp_descriptor(ts.deep_view().skip(i as int)) is None,
        },
{
    let ghost dv = ts.deep_view();
    let ghost pre = dv.skip(i as int);
    if ts.len() - i < 2 {
        return None;
    }
    assert(pre[0] == dv[i as int] && pre[1] == dv[i as int + 1]);
    if !matches!(&ts[i], Token::LBrace) {
        return None;
    }
    if matches!(&ts[i + 1], Token::RBrace) {
        return None;
    }
    assert(pre.skip(1) =~= dv.skip(i as int + 1));
    let mut mt: Option<String> = None;
    let mut dg: Option<String> = None;
    let mut sz: Option<i64> = None;
    let mut urls: Option<Option<Vec<String>>> = None;
    let mut ann: Option<Option<Vec<(String, String)>>> = None;
    let mut plat: Option<Option<Platform>> = None;
    let mut k: usize = i + 1;
    loop
        invariant
            i + 1 <= k <= ts.len(),
            dv == ts.deep_view(),
            dv.len() == ts.len(),
            sp_descriptor(dv.skip(i as int)) == sp_desc_fields(
                dv.skip(k as int),
                mt.deep_view(),
                dg.deep_view(),
                sz,
                urls.deep_view(),
                ann.deep_view(),
                plat.deep_view(),
            ),
        decreases ts.len() - k,
    {
        let ghost cur = dv.skip(k as int);
        if ts.len() - k < 2 {
            assert(cur.len() < 2);
            return None;
        }
        assert(cur[0] == dv[k as int] && cur[1] == dv[k as int + 1]);
        if !matches!(&ts[k + 1], Token::Colon) {
            return None;
        }
        let key: String;
        match &ts[k] {
            Token::Lit(k0) => {
                key = k0.clone();
            },
            _ => {
                return None;
            },
        }
        assert(cur.skip(2) =~= dv.skip(k as int + 2));
        let j: usize;
        if str_eq_lit(&key, "mediaType") {
            if mt.is_some() {
                return None;
            }
            if k + 2 >= ts.len() {
                return None;
            }
            assert(cur.skip(2)[0] == dv[k as int + 2]);
            match &ts[k + 2] {
                Token::Lit(s) => {
                    mt = Some(s.clone());
                },
                _ => {
                    return None;
                },
            }
            assert(cur.skip(2).skip(1) =~= dv.skip(k as int + 3));
            j = k + 3;
        } else if str_eq_lit(&key, "digest") {
            if dg.is_some() {
                return None;
            }
            if k + 2 >= ts.len() {
                return None;
            }
            assert(cur.skip(2)[0] == dv[k as int + 2]);
            match &ts[k + 2] {
                Token::Lit(s) => {
                    dg = Some(s.clone());
                },
                _ => {
                    return None;
                },
            }
            assert(cur.skip(2).skip(1) =~= dv.skip(k as int + 3));
            j = k + 3;
        } else if str_eq_lit(&key, "size") {
            if sz.is_some() {
                return None;
            }
            if k + 2 >= ts.len() {
                return None;
            }
            assert(cur.skip(2)[0] == dv[k as int + 2]);
            match &ts[k + 2] {
                Token::Int(n) => {
                    sz = Some(*n);
                },
                _ => {
                    return None;
                },
            }
            assert(cur.skip(2).skip(1) =~= dv.skip(k as int + 3));
            j = k + 3;
        } else if str_eq_lit(&key, "urls") {
            if urls.is_some() {
                return None;
            }
            if k + 2 >= ts.len() {
                return None;
            }
            assert(cur.skip(2)[0] == dv[k as int + 2]);
            if matches!(&ts[k + 2], Token::Null) {
                urls = Some(None);
                assert(cur.skip(2).skip(1) =~= dv.skip(k as int + 3));
                j = k + 3;
            } else {
                match p_arr_str(ts, k + 2) {
                    Some((us, j2)) => {
                        urls = Some(Some(us));
                        j = j2;
                    },
                    None => {
                        return None;
                    },
                }
            }
        } else if str_eq_lit(&key, "annotations") {
            if ann.is_some() {
                return None;
            }
            if k + 2 >= ts.len() {
                return None;
            }
            assert(cur.skip(2)[0] == dv[k as int + 2]);
            if matches!(&ts[k + 2], Token::Null) {
                ann = Some(None);
                assert(cur.skip(2).skip(1) =~= dv.skip(k as int + 3));
                j = k + 3;
            } else {
                match p_map(ts, k + 2) {
                    Some((ps, j2)) => {
                        ann = Some(Some(ps));
                        j = j2;
                    },
                    None => {
                        return None;
                    },
                }
            }
        } else if str_eq_lit(&key, "platform") {
            if plat.is_some() {
                return None;
            }
            if k + 2 >= ts.len() {
                return None;
            }
            assert(cur.skip(2)[0] == dv[k as int + 2]);
            if matches!(&ts[k + 2], Token::Null) {
                plat = Some(None);
                assert(cur.skip(2).skip(1) =~= dv.skip(k as int + 3));
                j = k + 3;
            } else {
                match p_platform(ts, k + 2) {
                    Some((p, j2)) => {
                        plat = Some(Some(p));
                        j = j2;
                    },
                    None => {
                        return None;
                    },
                }
            }
        } else {
            match skip_val_exec(ts, k + 2) {
                Some(j2) => {
                    j = j2;
                },
                None => {
                    return None;
                },
            }
        }
        assert(dv.skip(j as int).len() < cur.len());
        if j == ts.len() {
            return None;
        }
        assert(dv.skip(j as int)[0] == dv[j as int]);
        assert(dv.skip(j as int).skip(1) =~= dv.skip(j as int + 1));
        match &ts[j] {
            Token::Comma => {
                k = j + 1;
            },
            Token::RBrace => {
                match (mt, dg, sz) {
                    (Some(m), Some(d), Some(s)) => {
                        let v = Descriptor {
                            media_type: MediaType::from_wire(m),
                            digest: d,
                            size: s,
                            urls: match urls {
                                Some(x) => x,
                                None => None,
                            },
                            annotations: match ann {
                                Some(x) => x,
                                None => None,
                            },
                            platform: match plat {
                                Some(x) => x,
                                None => None,
                            },
                        };
                        assert(v@ =~= DescriptorV {
                            media_type: m@,
                            digest: d@,
                            size: s,
                            urls: flat(urls.deep_view()),
                            annotations: flat(ann.deep_view()),
                            platform: flat(plat.deep_view()),
                        });
                        return Some((v, j + 1));
                    },
                    _ => {
                        return None;
                    },
                }
            },
            _ => {
                return None;
            },
        }
    }
}

impl ImageIndex {
    /// Appends this value's tokens.
    #[verifier::rlimit(100)]
    pub fn push_toks(&self, out: &mut Vec<Token>)
        ensures
            final(out).deep_view() == old(out).deep_view() + toks_image_index(self@),
    {
        push_tok(out, Token::LBrace);
        push_tok(out, Token::Lit("schemaVersion".to_owned()));
        push_tok(out, Token::Colon);
        push_tok(out, Token::Int(self.schema_version as i64));
        if let Some(m) = &self.media_type {
            push_tok(out, Token::Comma);
            push_tok(out, Token::Lit("mediaType".to_owned()));
            push_tok(out, Token::Colon);
            push_tok(out, Token::Lit(m.wire()));
        }
        push_tok(out, Token::Comma);
        push_tok(out, Token::Lit("manifests".to_owned()));
        push_tok(out, Token::Colon);
        push_arr_desc(out, &self.manifests);
        if let Some(ps) = &self.annotations {
            push_tok(out, Token::Comma);
            push_tok(out, Token::Lit("annotations".to_owned()));
            push_tok(out, Token::Colon);
            push_map(out, ps);
        }
        push_tok(out, Token::RBrace);
        assert(out.deep_view() =~= old(out).deep_view() + toks_image_index(self@));
    }
}

/// Appends the trailing elements of a descriptor array.
fn push_arr_desc_tail(out: &mut Vec<Token>, v: &Vec<Descriptor>, i: usize)
    requires
        i <= v.len(),
    ensures
        final(out).deep_view() == old(out).deep_view() + arr_desc_tail(
            v.deep_view().skip(i as int),
        ),
    decreases v.len() - i,
{
    let ghost dv = v.deep_view();
    if i == v.len() {
        push_tok(out, Token::RBrack);
        assert(out.deep_view() =~= old(out).deep_view() + arr_desc_tail(dv.skip(i as int)));
    } else {
        push_tok(out, Token::Comma);
        v[i].push_toks(out);
        assert(dv.skip(i as int)[0] == dv[i as int]);
        push_arr_desc_tail(out, v, i + 1);
        assert(dv.skip(i as int).skip(1) =~= dv.skip(i as int + 1));
        assert(out.deep_view() =~= old(out).deep_view() + arr_desc_tail(dv.skip(i as int)));
    }
}

/// Appends the tokens of an encoded descriptor array.
fn push_arr_desc(out: &mut Vec<Token>, v: &Vec<Descriptor>)
    ensures
        final(out).deep_view() == old(out).deep_view() + toks_arr_desc(v.deep_view()),
{
    let ghost dv = v.deep_view();
    push_tok(out, Token::LBrack);
    if v.len() == 0 {
        push_tok(out, Token::RBrack);
        assert(out.deep_view() =~= old(out).deep_view() + toks_arr_desc(dv));
    } else {
        v[0].push_toks(out);
        push_arr_desc_tail(out, v, 1);
        assert(out.deep_view() =~= old(out).deep_view() + toks_arr_desc(dv));
    }
}

/// Parses an array of descriptors, mirroring [`sp_v_arr_desc`].
fn p_arr_desc(ts: &Vec<Token>, i: usize) -> (r: Option<(Vec<Descriptor>, usize)>)
    requires
        i <= ts.len(),
    ensures
        match r {
            Some((v, j)) => i < j <= ts.len() && sp_v_arr_desc(ts.deep_view().skip(i as int))
                == Some((v.deep_view(), ts.deep_view().skip(j as int))),
            None => sp_v_arr_desc(ts.deep_view().skip(i as int)) is None,
        },
{
    let ghost dv = ts.deep_view();
    let ghost pre = dv.skip(i as int);
    if ts.len() - i < 2 {
        return None;
    }
    assert(pre[0] == dv[i as int] && pre[1] == dv[i as int + 1]);
    if !matches!(&ts[i], Token::LBrack) {
        return None;
    }
    if matches!(&ts[i + 1], Token::RBrack) {
        let out: Vec<Descriptor> = Vec::new();
        assert(pre.skip(2) =~= dv.skip(i as int + 2));
        assert(out.deep_view() =~= Seq::<DescriptorV>::empty());
        return Some((out, i + 2));
    }
    assert(pre.skip(1) =~= dv.skip(i as int + 1));
    assert(sp_v_arr_desc(pre) == sp_arr_desc_elems(dv.skip(i as int + 1)));
    let mut out: Vec<Descriptor> = Vec::new();
    let mut k: usize = i + 1;
    loop
        invariant
            i + 1 <= k <= ts.len(),
            dv == ts.deep_view(),
            dv.len() == ts.len(),
            sp_v_arr_desc(dv.skip(i as int)) == sp_arr_desc_elems(dv.skip(i as int + 1)),
            match sp_arr_desc_elems(dv.skip(k as int)) {
                Some((vs2, r2)) => sp_arr_desc_elems(dv.skip(i as int + 1)) == Some(
                    (out.deep_view() + vs2, r2),
                ),
                None => sp_arr_desc_elems(dv.skip(i as int + 1)) is None,
            },
        decreases ts.len() - k,
    {
        let ghost cur = dv.skip(k as int);
        let elem: Descriptor;
        let j2: usize;
        match p_descriptor(ts, k) {
            Some((e, j)) => {
                elem = e;
                j2 = j;
            },
            None => {
                return None;
            },
        }
        let ghost r = dv.skip(j2 as int);
        assert(r.len() < cur.len());
        if j2 == ts.len() {
            assert(r.len() == 0);
            return None;
        }
        assert(r[0] == dv[j2 as int]);
        assert(r.skip(1) =~= dv.skip(j2 as int + 1));
        let ghost old_dv = out.deep_view();
        let ghost ev = elem@;
        match &ts[j2] {
            Token::Comma => {
                out.push(elem);
                proof {
                    assert(out.deep_view() =~= old_dv + seq![ev]);
                    match sp_arr_desc_elems(dv.skip(j2 as int + 1)) {
                        Some((vs3, r3)) => {
                            assert(sp_arr_desc_elems(cur) == Some((seq![ev] + vs3, r3)));
                            assert(old_dv + (seq![ev] + vs3) =~= (old_dv + seq![ev]) + vs3);
                        },
                        None => {},
                    }
                }
                k = j2 + 1;
            },
            Token::RBrack => {
                out.push(elem);
                proof {
                    assert(out.deep_view() =~= old_dv + seq![ev]);
                    assert(sp_arr_desc_elems(cur) == Some((seq![ev], dv.skip(j2 as int + 1))));
                }
                return Some((out, j2 + 1));
            },
            _ => {
                return None;
            },
        }
    }
}

/// Parses one image index object, mirroring [`sp_image_index`].
#[verifier::rlimit(100)]
pub fn p_image_index(ts: &Vec<Token>, i: usize) -> (r: Option<(ImageIndex, usize)>)
    requires
        i <= ts.len(),
    ensures
        match r {
            Some((v, j)) => i < j <= ts.len() && sp_image_index(ts.deep_view().skip(i as int))
                == Some((v@, ts.deep_view().skip(j as int))),
            None => sp_image_index(ts.deep_view().skip(i as int)) is None,
        },
{
    let ghost dv = ts.deep_view();
    let ghost pre = dv.skip(i as int);
    if ts.len() - i < 2 {
        return None;
    }
    assert(pre[0] == dv[i as int] && pre[1] == dv[i as int + 1]);
    if !matches!(&ts[i], Token::LBrace) {
        return None;
    }
    if matches!(&ts[i + 1], Token::RBrace) {
        return None;
    }
    assert(pre.skip(1) =~= dv.skip(i as int + 1));
    let mut sv: Option<u32> = None;
    let mut mt: Option<Option<MediaType>> = None;
    let mut man: Option<Vec<Descriptor>> = None;
    let mut ann: Option<Option<Vec<(String, String)>>> = None;
    let mut k: usize = i + 1;
    loop
        invariant
            i + 1 <= k <= ts.len(),
            dv == ts.deep_view(),
            dv.len() == ts.len(),
            sp_image_index(dv.skip(i as int)) == sp_idx_fields(
                dv.skip(k as int),
                sv,
                match mt {
                    Some(Some(m)) => Some(Some(m@)),
                    Some(None) => Some(None),
                    None => None,
                },
                match man {
                    Some(ms) => Some(ms.deep_view()),
                    None => None,
                },
                ann.deep_view(),
            ),
        decreases ts.len() - k,
    {
        let ghost cur = dv.skip(k as int);
        if ts.len() - k < 2 {
            assert(cur.len() < 2);
            return None;
        }
        assert(cur[0] == dv[k as int] && cur[1] == dv[k as int + 1]);
        if !matches!(&ts[k + 1], Token::Colon) {
            return None;
        }
        let key: String;
        match &ts[k] {
            Token::Lit(k0) => {
                key = k0.clone();
            },
            _ => {
                return None;
            },
        }
        assert(cur.skip(2) =~= dv.skip(k as int + 2));
        let j: usize;
        if str_eq_lit(&key, "schemaVersion") {
            if sv.is_some() {
                return None;
            }
            if k + 2 >= ts.len() {
                return None;
            }
            assert(cur.skip(2)[0] == dv[k as int + 2]);
            match &ts[k + 2] {
                Token::Int(n) => {
                    if *n < 0 || *n > 4294967295i64 {
                        return None;
                    }
                    sv = Some(*n as u32);
                },
                _ => {
                    return None;
                },
            }
            assert(cur.skip(2).skip(1) =~= dv.skip(k as int + 3));
            j = k + 3;
        } else if str_eq_lit(&key, "mediaType") {
            if mt.is_some() {
                return None;
            }
            if k + 2 >= ts.len() {
                return None;
            }
            assert(cur.skip(2)[0] == dv[k as int + 2]);
            match &ts[k + 2] {
                Token::Lit(s) => {
                    mt = Some(Some(MediaType::from_wire(s.clone())));
                },
                Token::Null => {
                    mt = Some(None);
                },
                _ => {
                    return None;
                },
            }
            assert(cur.skip(2).skip(1) =~= dv.skip(k as int + 3));
            j = k + 3;
        } else if str_eq_lit(&key, "manifests") {
            if man.is_some() {
                return None;
            }
            match p_arr_desc(ts, k + 2) {
                Some((ms, j2)) => {
                    man = Some(ms);
                    j = j2;
                },
                None => {
                    return None;
                },
            }
        } else if str_eq_lit(&key, "annotations") {
            if ann.is_some() {
                return None;
            }
            if k + 2 >= ts.len() {
                return None;
            }
            assert(cur.skip(2)[0] == dv[k as int + 2]);
            if matches!(&ts[k + 2], Token::Null) {
                ann = Some(None);
                assert(cur.skip(2).skip(1) =~= dv.skip(k as int + 3));
                j = k + 3;
            } else {
                match p_map(ts, k + 2) {
                    Some((ps, j2)) => {
                        ann = Some(Some(ps));
                        j = j2;
                    },
                    None => {
                        return None;
                    },
                }
            }
        } else {
            match skip_val_exec(ts, k + 2) {
                Some(j2) => {
                    j = j2;
                },
                None => {
                    return None;
                },
            }
        }
        assert(dv.skip(j as int).len() < cur.len());
        if j == ts.len() {
            return None;
        }
        assert(dv.skip(j as int)[0] == dv[j as int]);
        assert(dv.skip(j as int).skip(1) =~= dv.skip(j as int + 1));
        match &ts[j] {
            Token::Comma => {
                k = j + 1;
            },
            Token::RBrace => {
                match (sv, man) {
                    (Some(s), Some(ms)) => {
                        let v = ImageIndex {
                            schema_version: s,
                            media_type: match mt {
                                Some(x) => x,
                                None => None,
                            },
                            manifests: ms,
                            annotations: match ann {
                                Some(x) => x,
                                None => None,
                            },
                        };
                        assert(v@.schema_version == s && v@.manifests == v.manifests.deep_view()
                            && v@.annotations == flat(ann.deep_view()));
                        return Some((v, j + 1));
                    },
                    _ => {
                        return None;
                    },
                }
            },
            _ => {
                return None;
            },
        }
    }
}

// ---------------------------------------------------------------------------
// Public codec surface and laws
// ---------------------------------------------------------------------------

/// The decoded platform of a document text, if it is one.
pub open spec fn sp_decode_platform(text: Seq<char>) -> Option<PlatformV> {
    match sp_tokenize(text) {
        Some(ts) => match sp_platform(ts) {
            Some((v, rest)) => if rest.len() == 0 {
                Some(v)
            } else {
                None
            },
            None => None,
        },
        None => None,
    }
}

/// The decoded descriptor of a document text, if it is one.
pub open spec fn sp_decode_descriptor(text: Seq<char>) -> Option<DescriptorV> {
    match sp_tokenize(text) {
        Some(ts) => match sp_descriptor(ts) {
            Some((v, rest)) => if rest.len() == 0 {
                Some(v)
            } else {
                None
            },
            None => None,
        },
        None => None,
    }
}

/// The decoded image index of a document text, if it is one.
pub open spec fn sp_decode_image_index(text: Seq<char>) -> Option<ImageIndexV> {
    match sp_tokenize(text) {
        Some(ts) => match sp_image_index(ts) {
            Some((v, rest)) => if rest.len() == 0 {
                Some(v)
            } else {
                None
            },
            None => None,
        },
        None => None,
    }
}

impl Platform {
    /// Serializes this value as JSON text, compact or pretty.
    pub fn encode(&self, pretty: bool) -> (r: String)
        ensures
            r@ == render(toks_platform(self@), pretty),
    {
        let mut ts: Vec<Token> = Vec::new();
        self.push_toks(&mut ts);
        proof {
            assert(Seq::<GTok>::empty() + toks_platform(self@) =~= toks_platform(self@));
        }
        render_tokens(&ts, pretty)
    }

    /// Deserializes a platform from JSON text.
    pub fn decode(s: &str) -> (r: Result<Platform, OciSpecError>)
        ensures
            match r {
                Ok(v) => sp_decode_platform(s@) == Some(v@),
                Err(e) => sp_decode_platform(s@) is None && e is SerDe,
            },
    {
        let cs = str_chars(s);
        match tokenize_chars(&cs) {
            None => Err(OciSpecError::SerDe("the input is not well-formed JSON".to_owned())),
            Some(ts) => match p_platform(&ts, 0) {
                Some((v, j)) => {
                    proof {
                        assert(ts.deep_view().skip(0) =~= ts.deep_view());
                    }
                    if j == ts.len() {
                        Ok(v)
                    } else {
                        Err(
                            OciSpecError::SerDe(
                                "unexpected trailing content after the document".to_owned(),
                            ),
                        )
                    }
                },
                None => {
                    proof {
                        assert(ts.deep_view().skip(0) =~= ts.deep_view());
                    }
                    Err(OciSpecError::SerDe("the input is not a platform".to_owned()))
                },
            },
        }
    }
}

impl Descriptor {
    /// Serializes this value as JSON text, compact or pretty.
    pub fn encode(&self, pretty: bool) -> (r: String)
        ensures
            r@ == render(toks_descriptor(self@), pretty),
    {
        let mut ts: Vec<Token> = Vec::new();
        self.push_toks(&mut ts);
        proof {
            assert(Seq::<GTok>::empty() + toks_descriptor(self@) =~= toks_descriptor(self@));
        }
        render_tokens(&ts, pretty)
    }

    /// Deserializes a descriptor from JSON text.
    pub fn decode(s: &str) -> (r: Result<Descriptor, OciSpecError>)
        ensures
            match r {
                Ok(v) => sp_decode_descriptor(s@) == Some(v@),
                Err(e) => sp_decode_descriptor(s@) is None && e is SerDe,
            },
    {
        let cs = str_chars(s);
        match tokenize_chars(&cs) {
            None => Err(OciSpecError::SerDe("the input is not well-formed JSON".to_owned())),
            Some(ts) => match p_descriptor(&ts, 0) {
                Some((v, j)) => {
                    proof {
                        assert(ts.deep_view().skip(0) =~= ts.deep_view());
                    }
                    if j == ts.len() {
                        Ok(v)
                    } else {
                        Err(
                            OciSpecError::SerDe(
                                "unexpected trailing content after the document".to_owned(),
                            ),
                        )
                    }
                },
                None => {
                    proof {
                        assert(ts.deep_view().skip(0) =~= ts.deep_view());
                    }
                    Err(OciSpecError::SerDe("the input is not a descriptor".to_owned()))
                },
            },
        }
    }
}

impl ImageIndex {
    /// Serializes this index as JSON text, compact or pretty.
    pub fn encode(&self, pretty: bool) -> (r: String)
        ensures
            r@ == render(toks_image_index(self@), pretty),
    {
        let mut ts: Vec<Token> = Vec::new();
        self.push_toks(&mut ts);
        proof {
            assert(Seq::<GTok>::empty() + toks_image_index(self@) =~= toks_image_index(self@));
        }
        render_tokens(&ts, pretty)
    }

    /// Reads an image index from already-buffered JSON text. Reading the
    /// bytes from a file or a stream is a collaborator's concern; this is
    /// the computing half.
    pub fn from_reader(s: &str) -> (r: Result<ImageIndex, OciSpecError>)
        ensures
            match r {
                Ok(v) => sp_decode_image_index(s@) == Some(v@),
                Err(e) => sp_decode_image_index(s@) is None && e is SerDe,
            },
    {
        let cs = str_chars(s);
        match tokenize_chars(&cs) {
            None => Err(OciSpecError::SerDe("the input is not well-formed JSON".to_owned())),
            Some(ts) => match p_image_index(&ts, 0) {
                Some((v, j)) => {
                    proof {
                        assert(ts.deep_view().skip(0) =~= ts.deep_view());
                    }
                    if j == ts.len() {
                        Ok(v)
                    } else {
                        Err(
                            OciSpecError::SerDe(
                                "unexpected trailing content after the document".to_owned(),
                            ),
                        )
                    }
                },
                None => {
                    proof {
                        assert(ts.deep_view().skip(0) =~= ts.deep_view());
                    }
                    Err(OciSpecError::SerDe("the input is not an image index".to_owned()))
                },
            },
        }
    }

    /// Writes this index to a text buffer as compact JSON.
    pub fn to_writer(&self, w: &mut String) -> (r: Result<(), OciSpecError>)
        ensures
            r is Ok,
            final(w)@ == old(w)@ + render(toks_image_index(self@), false),
    {
        let t = self.encode(false);
        w.append(t.as_str());
        Ok(())
    }

    /// Writes this index to a text buffer as pretty JSON.
    pub fn to_writer_pretty(&self, w: &mut String) -> (r: Result<(), OciSpecError>)
        ensures
            r is Ok,
            final(w)@ == old(w)@ + render(toks_image_index(self@), true),
    {
        let t = self.encode(true);
        w.append(t.as_str());
        Ok(())
    }
}

/// Decoding an encoded platform yields it back, in either output mode.
pub proof fn lemma_platform_round_trip(v: PlatformV, pretty: bool)
    ensures
        sp_decode_platform(render(toks_platform(v), pretty)) == Some(v),
{
    lemma_platform_stream_ok(v);
    lemma_tokenize_render(toks_platform(v), pretty);
    lemma_platform_rt(v, Seq::empty());
    assert(toks_platform(v) + Seq::<GTok>::empty() =~= toks_platform(v));
}

/// Decoding an encoded descriptor yields it back, in either output mode.
pub proof fn lemma_descriptor_round_trip(v: DescriptorV, pretty: bool)
    ensures
        sp_decode_descriptor(render(toks_descriptor(v), pretty)) == Some(v),
{
    lemma_descriptor_stream_ok(v);
    lemma_tokenize_render(toks_descriptor(v), pretty);
    lemma_descriptor_rt(v, Seq::empty());
    assert(toks_descriptor(v) + Seq::<GTok>::empty() =~= toks_descriptor(v));
}

/// Decoding an encoded image index yields it back, in either output mode:
/// the round-trip law for the index document.
pub proof fn lemma_image_index_round_trip(v: ImageIndexV, pretty: bool)
    ensures
        sp_decode_image_index(render(toks_image_index(v), pretty)) == Some(v),
{
    lemma_index_stream_ok(v);
    lemma_tokenize_render(toks_image_index(v), pretty);
    lemma_image_index_rt(v, Seq::empty());
    assert(toks_image_index(v) + Seq::<GTok>::empty() =~= toks_image_index(v));
}

/// Re-encoding what was decoded from encoder output reproduces those bytes
/// exactly: canonical idempotence for platforms, either mode.
pub proof fn lemma_platform_canonical(v: PlatformV, pretty: bool)
    ensures
        ({
            let b = render(toks_platform(v), pretty);
            &&& sp_decode_platform(b) matches Some(w)
            &&& render(toks_platform(sp_decode_platform(b)->Some_0), pretty) == b
        }),
{
    lemma_platform_round_trip(v, pretty);
}

/// See [`lemma_platform_canonical`]; the same law for descriptors.
pub proof fn lemma_descriptor_canonical(v: DescriptorV, pretty: bool)
    ensures
        ({
            let b = render(toks_descriptor(v), pretty);
            &&& sp_decode_descriptor(b) matches Some(w)
            &&& render(toks_descriptor(sp_decode_descriptor(b)->Some_0), pretty) == b
        }),
{
    lemma_descriptor_round_trip(v, pretty);
}

/// Re-encoding what was decoded from encoder output reproduces those bytes
/// exactly: canonical idempotence for the index document, either mode.
pub proof fn lemma_image_index_canonical(v: ImageIndexV, pretty: bool)
    ensures
        ({
            let b = render(toks_image_index(v), pretty);
            &&& sp_decode_image_index(b) matches Some(w)
            &&& render(toks_image_index(sp_decode_image_index(b)->Some_0), pretty) == b
        }),
{
    lemma_image_index_round_trip(v, pretty);
}

/// The omission invariant for the index, stated structurally: when an
/// optional field is unset its key chunk is absent from the encoding
/// entirely, and when it is set the chunk appears with the mapped key. (The
/// key-existence form used for flat entities would be ambiguous here, since
/// nested descriptors carry keys of the same spelling.)
pub proof fn lemma_image_index_omission(v: ImageIndexV)
    ensures
        v.media_type is None ==> toks_image_index(v) == seq![
            GTok::LBrace,
            GTok::Lit("schemaVersion"@),
            GTok::Colon,
            GTok::Int(v.schema_version as int),
        ] + idx_tail3(v),
        v.media_type matches Some(m) ==> toks_image_index(v) == seq![
            GTok::LBrace,
            GTok::Lit("schemaVersion"@),
            GTok::Colon,
            GTok::Int(v.schema_version as int),
            GTok::Comma,
            GTok::Lit("mediaType"@),
            GTok::Colon,
            GTok::Lit(m),
        ] + idx_tail3(v),
        v.annotations is None ==> idx_tail4(v) == seq![GTok::RBrace],
        v.annotations matches Some(ps) ==> idx_tail4(v) == seq![
            GTok::Comma,
            GTok::Lit("annotations"@),
            GTok::Colon,
        ] + toks_map(ps) + seq![GTok::RBrace],
{
    match v.media_type {
        Some(m) => {
            assert(toks_image_index(v) =~= seq![
                GTok::LBrace,
                GTok::Lit("schemaVersion"@),
                GTok::Colon,
                GTok::Int(v.schema_version as int),
                GTok::Comma,
                GTok::Lit("mediaType"@),
                GTok::Colon,
                GTok::Lit(m),
            ] + idx_tail3(v));
        },
        None => {},
    }
    match v.annotations {
        Some(ps) => {
            assert(idx_tail4(v) =~= seq![GTok::Comma, GTok::Lit("annotations"@), GTok::Colon]
                + toks_map(ps) + seq![GTok::RBrace]);
        },
        None => {},
    }
}

// ---------------------------------------------------------------------------
// Structural equality through the codec
// ---------------------------------------------------------------------------

impl PartialEq for Platform {
    /// Two platforms are equal exactly when their mathematical values agree;
    /// the check compares canonical encodings, which the round-trip law
    /// makes injective.
    fn eq(&self, other: &Self) -> (r: bool) {
        let a = self.encode(false);
        let b = other.encode(false);
        let r = a.eq(&b);
        proof {
            lemma_platform_round_trip(self@, false);
            lemma_platform_round_trip(other@, false);
        }
        r
    }
}

impl vstd::std_specs::cmp::PartialEqSpecImpl for Platform {
    open spec fn obeys_eq_spec() -> bool {
        true
    }

    open spec fn eq_spec(&self, other: &Self) -> bool {
        self@ == other@
    }
}

impl PartialEq for Descriptor {
    /// See [`Platform::eq`].
    fn eq(&self, other: &Self) -> (r: bool) {
        let a = self.encode(false);
        let b = other.encode(false);
        let r = a.eq(&b);
        proof {
            lemma_descriptor_round_trip(self@, false);
            lemma_descriptor_round_trip(other@, false);
        }
        r
    }
}

impl vstd::std_specs::cmp::PartialEqSpecImpl for Descriptor {
    open spec fn obeys_eq_spec() -> bool {
        true
    }

    open spec fn eq_spec(&self, other: &Self) -> bool {
        self@ == other@
    }
}

impl PartialEq for ImageIndex {
    /// See [`Platform::eq`].
    fn eq(&self, other: &Self) -> (r: bool) {
        let a = self.encode(false);
        let b = other.encode(false);
        let r = a.eq(&b);
        proof {
            lemma_image_index_round_trip(self@, false);
            lemma_image_index_round_trip(other@, false);
        }
        r
    }
}

impl vstd::std_specs::cmp::PartialEqSpecImpl for ImageIndex {
    open spec fn obeys_eq_spec() -> bool {
        true
    }

    open spec fn eq_spec(&self, other: &Self) -> bool {
        self@ == other@
    }
}

// ---------------------------------------------------------------------------
// Builders
// ---------------------------------------------------------------------------

/// Accumulates the fields of a [`Platform`]; architecture and operating
/// system are required.
pub struct PlatformBuilder {
    /// The accumulated architecture, if set.
    pub architecture: Option<Arch>,
    /// The accumulated operating system, if set.
    pub os: Option<Os>,
    /// The accumulated version, if set.
    pub os_version: Option<String>,
    /// The accumulated feature list, if set.
    pub os_features: Option<Vec<String>>,
    /// The accumulated variant, if set.
    pub variant: Option<String>,
}

impl Default for PlatformBuilder {
    /// A builder with nothing set.
    fn default() -> (r: Self)
        ensures
            r.architecture is None && r.os is None && r.os_version is None && r.os_features is None
                && r.variant is None,
    {
        PlatformBuilder {
            architecture: None,
            os: None,
            os_version: None,
            os_features: None,
            variant: None,
        }
    }
}

impl PlatformBuilder {
    /// Sets the architecture.
    pub fn architecture(self, architecture: Arch) -> (r: Self)
        ensures
            r.architecture == Some(architecture) && r.os == self.os && r.os_version
                == self.os_version && r.os_features == self.os_features && r.variant
                == self.variant,
    {
        PlatformBuilder { architecture: Some(architecture), ..self }
    }

    /// Sets the operating system.
    pub fn os(self, os: Os) -> (r: Self)
        ensures
            r.os == Some(os) && r.architecture == self.architecture && r.os_version
                == self.os_version && r.os_features == self.os_features && r.variant
                == self.variant,
    {
        PlatformBuilder { os: Some(os), ..self }
    }

    /// Sets the version.
    pub fn os_version(self, os_version: &str) -> (r: Self)
        ensures
            r.os_version matches Some(x) && x@ == os_version@,
            r.architecture == self.architecture && r.os == self.os && r.os_features
                == self.os_features && r.variant == self.variant,
    {
        PlatformBuilder { os_version: Some(os_version.to_owned()), ..self }
    }

    /// Sets the feature list.
    pub fn os_features(self, os_features: Vec<String>) -> (r: Self)
        ensures
            r.os_features == Some(os_features),
            r.architecture == self.architecture && r.os == self.os && r.os_version
                == self.os_version && r.variant == self.variant,
    {
        PlatformBuilder { os_features: Some(os_features), ..self }
    }

    /// Sets the variant.
    pub fn variant(self, variant: &str) -> (r: Self)
        ensures
            r.variant matches Some(x) && x@ == variant@,
            r.architecture == self.architecture && r.os == self.os && r.os_version
                == self.os_version && r.os_features == self.os_features,
    {
        PlatformBuilder { variant: Some(variant.to_owned()), ..self }
    }

    /// Finishes construction: fails naming a missing field exactly when a
    /// required field was never set.
    pub fn build(self) -> (r: Result<Platform, OciSpecError>)
        ensures
            match r {
                Ok(v) => ({
                    &&& self.architecture matches Some(a) && v.architecture == a
                    &&& self.os matches Some(o) && v.os == o
                    &&& v.os_version == self.os_version
                    &&& v.os_features == self.os_features
                    &&& v.variant == self.variant
                }),
                Err(e) => (self.architecture is None || self.os is None) && e is Builder,
            },
    {
        match (self.architecture, self.os) {
            (Some(a), Some(o)) => Ok(
                Platform {
                    architecture: a,
                    os: o,
                    os_version: self.os_version,
                    os_features: self.os_features,
                    variant: self.variant,
                },
            ),
            (None, _) => Err(
                OciSpecError::Builder("required field architecture is unset".to_owned()),
            ),
            _ => Err(OciSpecError::Builder("required field os is unset".to_owned())),
        }
    }
}

/// Accumulates the fields of a [`Descriptor`]; media type, digest, and size
/// are required.
pub struct DescriptorBuilder {
    /// The accumulated media type, if set.
    pub media_type: Option<MediaType>,
    /// The accumulated digest, if set.
    pub digest: Option<String>,
    /// The accumulated size, if set.
    pub size: Option<i64>,
    /// The accumulated mirror list, if set.
    pub urls: Option<Vec<String>>,
    /// The accumulated annotations, if set.
    pub annotations: Option<Vec<(String, String)>>,
    /// The accumulated platform, if set.
    pub platform: Option<Platform>,
}

impl Default for DescriptorBuilder {
    /// A builder with nothing set.
    fn default() -> (r: Self)
        ensures
            r.media_type is None && r.digest is None && r.size is None && r.urls is None
                && r.annotations is None && r.platform is None,
    {
        DescriptorBuilder {
            media_type: None,
            digest: None,
            size: None,
            urls: None,
            annotations: None,
            platform: None,
        }
    }
}

impl DescriptorBuilder {
    /// Sets the media type.
    pub fn media_type(self, media_type: MediaType) -> (r: Self)
        ensures
            r.media_type == Some(media_type) && r.digest == self.digest && r.size == self.size
                && r.urls == self.urls && r.annotations == self.annotations && r.platform
                == self.platform,
    {
        DescriptorBuilder { media_type: Some(media_type), ..self }
    }

    /// Sets the digest.
    pub fn digest(self, digest: &str) -> (r: Self)
        ensures
            r.digest matches Some(d) && d@ == digest@,
            r.media_type == self.media_type && r.size == self.size && r.urls == self.urls
                && r.annotations == self.annotations && r.platform == self.platform,
    {
        DescriptorBuilder { digest: Some(digest.to_owned()), ..self }
    }

    /// Sets the size.
    pub fn size(self, size: i64) -> (r: Self)
        ensures
            r.size == Some(size) && r.media_type == self.media_type && r.digest == self.digest
                && r.urls == self.urls && r.annotations == self.annotations && r.platform
                == self.platform,
    {
        DescriptorBuilder { size: Some(size), ..self }
    }

    /// Sets the mirror list.
    pub fn urls(self, urls: Vec<String>) -> (r: Self)
        ensures
            r.urls == Some(urls) && r.media_type == self.media_type && r.digest == self.digest
                && r.size == self.size && r.annotations == self.annotations && r.platform
                == self.platform,
    {
        DescriptorBuilder { urls: Some(urls), ..self }
    }

    /// Sets the annotations.
    pub fn annotations(self, annotations: Vec<(String, String)>) -> (r: Self)
        ensures
            r.annotations == Some(annotations) && r.media_type == self.media_type && r.digest
                == self.digest && r.size == self.size && r.urls == self.urls && r.platform
                == self.platform,
    {
        DescriptorBuilder { annotations: Some(annotations), ..self }
    }

    /// Sets the platform.
    pub fn platform(self, platform: Platform) -> (r: Self)
        ensures
            r.platform == Some(platform) && r.media_type == self.media_type && r.digest
                == self.digest && r.size == self.size && r.urls == self.urls && r.annotations
                == self.annotations,
    {
        DescriptorBuilder { platform: Some(platform), ..self }
    }

    /// Finishes construction: fails naming a missing field exactly when a
    /// required field was never set.
    pub fn build(self) -> (r: Result<Descriptor, OciSpecError>)
        ensures
            match r {
                Ok(v) => ({
                    &&& self.media_type matches Some(m) && v.media_type == m
                    &&& self.digest matches Some(d) && v.digest == d
                    &&& self.size == Some(v.size)
                    &&& v.urls == self.urls
                    &&& v.annotations == self.annotations
                    &&& v.platform == self.platform
                }),
                Err(e) => (self.media_type is None || self.digest is None || self.size is None)
                    && e is Builder,
            },
    {
        match (self.media_type, self.digest, self.size) {
            (Some(m), Some(d), Some(s)) => Ok(
                Descriptor {
                    media_type: m,
                    digest: d,
                    size: s,
                    urls: self.urls,
                    annotations: self.annotations,
                    platform: self.platform,
                },
            ),
            (None, _, _) => Err(
                OciSpecError::Builder("required field mediaType is unset".to_owned()),
            ),
            (_, None, _) => Err(OciSpecError::Builder("required field digest is unset".to_owned())),
            _ => Err(OciSpecError::Builder("required field size is unset".to_owned())),
        }
    }
}

/// Accumulates the fields of an [`ImageIndex`]; schema version and manifest
/// list are required.
pub struct ImageIndexBuilder {
    /// The accumulated schema version, if set.
    pub schema_version: Option<u32>,
    /// The accumulated media type, if set.
    pub media_type: Option<MediaType>,
    /// The accumulated manifest list, if set.
    pub manifests: Option<Vec<Descriptor>>,
    /// The accumulated annotations, if set.
    pub annotations: Option<Vec<(String, String)>>,
}

impl Default for ImageIndexBuilder {
    /// A builder with nothing set.
    fn default() -> (r: Self)
        ensures
            r.schema_version is None && r.media_type is None && r.manifests is None
                && r.annotations is None,
    {
        ImageIndexBuilder {
            schema_version: None,
            media_type: None,
            manifests: None,
            annotations: None,
        }
    }
}

impl ImageIndexBuilder {
    /// Sets the schema version.
    pub fn schema_version(self, schema_version: u32) -> (r: Self)
        ensures
            r.schema_version == Some(schema_version) && r.media_type == self.media_type
                && r.manifests == self.manifests && r.annotations == self.annotations,
    {
        ImageIndexBuilder { schema_version: Some(schema_version), ..self }
    }

    /// Sets the media type.
    pub fn media_type(self, media_type: MediaType) -> (r: Self)
        ensures
            r.media_type == Some(media_type) && r.schema_version == self.schema_version
                && r.manifests == self.manifests && r.annotations == self.annotations,
    {
        ImageIndexBuilder { media_type: Some(media_type), ..self }
    }

    /// Sets the manifest list.
    pub fn manifests(self, manifests: Vec<Descriptor>) -> (r: Self)
        ensures
            r.manifests == Some(manifests) && r.schema_version == self.schema_version
                && r.media_type == self.media_type && r.annotations == self.annotations,
    {
        ImageIndexBuilder { manifests: Some(manifests), ..self }
    }

    /// Sets the annotations.
    pub fn annotations(self, annotations: Vec<(String, String)>) -> (r: Self)
        ensures
            r.annotations == Some(annotations) && r.schema_version == self.schema_version
                && r.media_type == self.media_type && r.manifests == self.manifests,
    {
        ImageIndexBuilder { annotations: Some(annotations), ..self }
    }

    /// Finishes construction: fails naming a missing field exactly when a
    /// required field was never set.
    pub fn build(self) -> (r: Result<ImageIndex, OciSpecError>)
        ensures
            match r {
                Ok(v) => ({
                    &&& self.schema_version == Some(v.schema_version)
                    &&& v.media_type == self.media_type
                    &&& self.manifests matches Some(ms) && v.manifests == ms
                    &&& v.annotations == self.annotations
                }),
                Err(e) => (self.schema_version is None || self.manifests is None) && e is Builder,
            },
    {
        match (self.schema_version, self.manifests) {
            (Some(s), Some(ms)) => Ok(
                ImageIndex {
                    schema_version: s,
                    media_type: self.media_type,
                    manifests: ms,
                    annotations: self.annotations,
                },
            ),
            (None, _) => Err(
                OciSpecError::Builder("required field schemaVersion is unset".to_owned()),
            ),
            _ => Err(OciSpecError::Builder("required field manifests is unset".to_owned())),
        }
    }
}

} // verus!
