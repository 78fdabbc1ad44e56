//! The serialization codec's core: a verified JSON lexical layer.
//!
//! Entities of this crate serialize through a token stream. Rendering turns
//! tokens into text in one of two modes, compact (no insignificant
//! whitespace) and pretty (two-space indentation, one newline at the end of
//! the document). Tokenizing turns text back into tokens. The central
//! theorem, [`lemma_tokenize_render`], shows that tokenizing the rendering
//! of a well-separated token stream yields that stream again, in either
//! mode; the per-entity round-trip laws build on it.

use vstd::prelude::*;

verus! {

// ---------------------------------------------------------------------------
// Tokens
// ---------------------------------------------------------------------------

/// A lexical token of a JSON document, in mathematical form.
pub enum GTok {
    LBrace,
    RBrace,
    LBrack,
    RBrack,
    Colon,
    Comma,
    Lit(Seq<char>),
    Int(int),
    True,
    False,
    Null,
}

/// A lexical token of a JSON document, in executable form.
pub enum Token {
    LBrace,
    RBrace,
    LBrack,
    RBrack,
    Colon,
    Comma,
    Lit(String),
    Int(i64),
    True,
    False,
    Null,
}

impl View for Token {
    type V = GTok;

    open spec fn view(&self) -> GTok {
        match self {
            Token::LBrace => GTok::LBrace,
            Token::RBrace => GTok::RBrace,
            Token::LBrack => GTok::LBrack,
            Token::RBrack => GTok::RBrack,
            Token::Colon => GTok::Colon,
            Token::Comma => GTok::Comma,
            Token::Lit(s) => GTok::Lit(s@),
            Token::Int(n) => GTok::Int(*n as int),
            Token::True => GTok::True,
            Token::False => GTok::False,
            Token::Null => GTok::Null,
        }
    }
}

impl DeepView for Token {
    type V = GTok;

    open spec fn deep_view(&self) -> GTok {
        self.view()
    }
}

// ---------------------------------------------------------------------------
// Characters of a token
// ---------------------------------------------------------------------------

/// The hexadecimal digit for a value below sixteen, lower case.
pub open spec fn hex_digit(n: int) -> char {
    if n < 10 {
        (48 + n) as char
    } else {
        (87 + n) as char
    }
}

/// The decimal digit character for a value below ten.
pub open spec fn dec_digit(n: int) -> char {
    (48 + n) as char
}

/// The escaped form of one character inside a JSON string literal: quote and
/// backslash take a two-character escape, the five control characters with
/// short escapes take theirs, any other control character takes the
/// six-character `\u00XX` form, and everything else stands for itself.
pub open spec fn esc_char(c: char) -> Seq<char> {
    if c == '"' {
        seq!['\\', '"']
    } else if c == '\\' {
        seq!['\\', '\\']
    } else if c == '\u{8}' {
        seq!['\\', 'b']
    } else if c == '\u{c}' {
        seq!['\\', 'f']
    } else if c == '\n' {
        seq!['\\', 'n']
    } else if c == '\r' {
        seq!['\\', 'r']
    } else if c == '\t' {
        seq!['\\', 't']
    } else if (c as int) < 32 {
        seq!['\\', 'u', '0', '0', hex_digit(c as int / 16), hex_digit(c as int % 16)]
    } else {
        seq![c]
    }
}

/// The escaped form of a whole string body (without the enclosing quotes).
pub open spec fn esc_str(s: Seq<char>) -> Seq<char>
    decreases s.len(),
{
    if s.len() == 0 {
        Seq::empty()
    } else {
        esc_char(s[0]) + esc_str(s.skip(1))
    }
}

/// The decimal digits of a non-negative integer, most significant first.
pub open spec fn chars_of_nat(n: int) -> Seq<char>
    decreases n,
{
    if n < 10 {
        seq![dec_digit(n)]
    } else {
        chars_of_nat(n / 10) + seq![dec_digit(n % 10)]
    }
}

/// The decimal form of an integer, with a leading minus sign when negative.
pub open spec fn chars_of_int(n: int) -> Seq<char> {
    if n < 0 {
        seq!['-'] + chars_of_nat(-n)
    } else {
        chars_of_nat(n)
    }
}

/// The characters a token contributes to the document.
pub open spec fn tok_chars(t: GTok) -> Seq<char> {
    match t {
        GTok::LBrace => seq!['{'],
        GTok::RBrace => seq!['}'],
        GTok::LBrack => seq!['['],
        GTok::RBrack => seq![']'],
        GTok::Colon => seq![':'],
        GTok::Comma => seq![','],
        GTok::Lit(s) => seq!['"'] + esc_str(s) + seq!['"'],
        GTok::Int(n) => chars_of_int(n),
        GTok::True => seq!['t', 'r', 'u', 'e'],
        GTok::False => seq!['f', 'a', 'l', 's', 'e'],
        GTok::Null => seq!['n', 'u', 'l', 'l'],
    }
}

// ---------------------------------------------------------------------------
// Rendering
// ---------------------------------------------------------------------------

/// What the previously rendered token was, as far as spacing cares.
pub enum Prev {
    /// Nothing rendered yet.
    Start,
    /// An opening brace or bracket.
    Open,
    /// A colon.
    Colon,
    /// A comma.
    Comma,
    /// A completed value or a literal.
    Val,
}

/// Two spaces of indentation per open container.
pub open spec fn indent(d: nat) -> Seq<char>
    decreases d,
{
    if d == 0 {
        Seq::empty()
    } else {
        indent((d - 1) as nat) + seq![' ', ' ']
    }
}

/// The whitespace rendered before a token in pretty mode; compact mode
/// renders none anywhere.
pub open spec fn sep(prev: Prev, t: GTok, depth: nat, pretty: bool) -> Seq<char> {
    if !pretty {
        Seq::empty()
    } else if t is RBrace || t is RBrack {
        if prev is Open {
            Seq::empty()
        } else {
            seq!['\n'] + indent(if depth > 0 { (depth - 1) as nat } else { 0 })
        }
    } else {
        match prev {
            Prev::Open => seq!['\n'] + indent(depth),
            Prev::Comma => seq!['\n'] + indent(depth),
            Prev::Colon => seq![' '],
            _ => Seq::empty(),
        }
    }
}

/// The nesting depth after a token.
pub open spec fn next_depth(t: GTok, depth: nat) -> nat {
    match t {
        GTok::LBrace | GTok::LBrack => depth + 1,
        GTok::RBrace | GTok::RBrack => if depth > 0 { (depth - 1) as nat } else { 0 },
        _ => depth,
    }
}

/// The spacing state after a token.
pub open spec fn next_prev(t: GTok) -> Prev {
    match t {
        GTok::LBrace | GTok::LBrack => Prev::Open,
        GTok::RBrace | GTok::RBrack => Prev::Val,
        GTok::Colon => Prev::Colon,
        GTok::Comma => Prev::Comma,
        _ => Prev::Val,
    }
}

/// The text of a token stream rendered from the given spacing state.
pub open spec fn render_from(ts: Seq<GTok>, depth: nat, prev: Prev, pretty: bool) -> Seq<char>
    decreases ts.len(),
{
    if ts.len() == 0 {
        Seq::empty()
    } else {
        sep(prev, ts[0], depth, pretty) + tok_chars(ts[0]) + render_from(
            ts.skip(1),
            next_depth(ts[0], depth),
            next_prev(ts[0]),
            pretty,
        )
    }
}

/// The full document text of a token stream: compact mode is the bare
/// rendering, pretty mode ends with one newline.
pub open spec fn render(ts: Seq<GTok>, pretty: bool) -> Seq<char> {
    if pretty {
        render_from(ts, 0, Prev::Start, true) + seq!['\n']
    } else {
        render_from(ts, 0, Prev::Start, false)
    }
}

// ---------------------------------------------------------------------------
// Tokenizing
// ---------------------------------------------------------------------------

/// JSON insignificant whitespace.
pub open spec fn is_ws(c: char) -> bool {
    c == ' ' || c == '\n' || c == '\t' || c == '\r'
}

/// A decimal digit character.
pub open spec fn is_digit(c: char) -> bool {
    48 <= c as int && c as int <= 57
}

/// The value of a hexadecimal digit character, or a negative number when the
/// character is no such digit.
pub open spec fn hex_val(c: char) -> int {
    if is_digit(c) {
        c as int - 48
    } else if 97 <= c as int && c as int <= 102 {
        c as int - 87
    } else if 65 <= c as int && c as int <= 70 {
        c as int - 55
    } else {
        -1
    }
}

/// The input with its leading whitespace removed.
pub open spec fn skip_ws(s: Seq<char>) -> Seq<char>
    decreases s.len(),
{
    if s.len() > 0 && is_ws(s[0]) {
        skip_ws(s.skip(1))
    } else {
        s
    }
}

/// The replacement character of a single-character escape, if the escape is
/// a valid one.
pub open spec fn unescape_short(e: char) -> Option<char> {
    if e == '"' {
        Some('"')
    } else if e == '\\' {
        Some('\\')
    } else if e == '/' {
        Some('/')
    } else if e == 'b' {
        Some('\u{8}')
    } else if e == 'f' {
        Some('\u{c}')
    } else if e == 'n' {
        Some('\n')
    } else if e == 'r' {
        Some('\r')
    } else if e == 't' {
        Some('\t')
    } else {
        None
    }
}

/// Scans a string literal body after its opening quote: the decoded
/// characters and the input after the closing quote. Raw control characters
/// are refused, as are invalid escapes, unfinished input, and `\u` escapes
/// that name a surrogate code point.
pub open spec fn scan_lit(s: Seq<char>) -> Option<(Seq<char>, Seq<char>)>
    decreases s.len(),
{
    if s.len() == 0 {
        None
    } else if s[0] == '"' {
        Some((Seq::empty(), s.skip(1)))
    } else if s[0] == '\\' {
        if s.len() < 2 {
            None
        } else if s[1] == 'u' {
            if s.len() < 6 {
                None
            } else if hex_val(s[2]) < 0 || hex_val(s[3]) < 0 || hex_val(s[4]) < 0 || hex_val(s[5])
                < 0 {
                None
            } else {
                let h = hex_val(s[2]) * 4096 + hex_val(s[3]) * 256 + hex_val(s[4]) * 16 + hex_val(
                    s[5],
                );
                if 0xD800 <= h && h < 0xE000 {
                    None
                } else {
                    match scan_lit(s.skip(6)) {
                        Some((v, r)) => Some((seq![h as char] + v, r)),
                        None => None,
                    }
                }
            }
        } else {
            match unescape_short(s[1]) {
                Some(c) => match scan_lit(s.skip(2)) {
                    Some((v, r)) => Some((seq![c] + v, r)),
                    None => None,
                },
                None => None,
            }
        }
    } else if (s[0] as int) < 32 {
        None
    } else {
        match scan_lit(s.skip(1)) {
            Some((v, r)) => Some((seq![s[0]] + v, r)),
            None => None,
        }
    }
}

/// Scans a run of decimal digits, accumulating their value onto `acc`, and
/// returns the accumulated value with the rest of the input.
pub open spec fn scan_digits(s: Seq<char>, acc: int) -> (int, Seq<char>)
    decreases s.len(),
{
    if s.len() > 0 && is_digit(s[0]) {
        scan_digits(s.skip(1), acc * 10 + (s[0] as int - 48))
    } else {
        (acc, s)
    }
}

/// The largest value a JSON integer of this codec may take.
pub open spec fn int_max() -> int {
    0x7fff_ffff_ffff_ffff
}

/// The smallest value a JSON integer of this codec may take.
pub open spec fn int_min() -> int {
    -0x8000_0000_0000_0000
}

/// Scans one token at the head of the input, which must not start with
/// whitespace. Numbers are signed decimal integers; anything non-integral,
/// out of the signed 64-bit range, or otherwise unrecognized is refused.
pub open spec fn sp_tok(s: Seq<char>) -> Option<(GTok, Seq<char>)> {
    if s.len() == 0 {
        None
    } else if s[0] == '{' {
        Some((GTok::LBrace, s.skip(1)))
    } else if s[0] == '}' {
        Some((GTok::RBrace, s.skip(1)))
    } else if s[0] == '[' {
        Some((GTok::LBrack, s.skip(1)))
    } else if s[0] == ']' {
        Some((GTok::RBrack, s.skip(1)))
    } else if s[0] == ':' {
        Some((GTok::Colon, s.skip(1)))
    } else if s[0] == ',' {
        Some((GTok::Comma, s.skip(1)))
    } else if s[0] == '"' {
        match scan_lit(s.skip(1)) {
            Some((v, r)) => Some((GTok::Lit(v), r)),
            None => None,
        }
    } else if s[0] == '-' {
        if s.len() >= 2 && is_digit(s[1]) {
            let (n, r) = scan_digits(s.skip(1), 0);
            if -n >= int_min() {
                Some((GTok::Int(-n), r))
            } else {
                None
            }
        } else {
            None
        }
    } else if is_digit(s[0]) {
        let (n, r) = scan_digits(s, 0);
        if n <= int_max() {
            Some((GTok::Int(n), r))
        } else {
            None
        }
    } else if s.len() >= 4 && s[0] == 't' && s[1] == 'r' && s[2] == 'u' && s[3] == 'e' {
        Some((GTok::True, s.skip(4)))
    } else if s.len() >= 5 && s[0] == 'f' && s[1] == 'a' && s[2] == 'l' && s[3] == 's' && s[4]
        == 'e' {
        Some((GTok::False, s.skip(5)))
    } else if s.len() >= 4 && s[0] == 'n' && s[1] == 'u' && s[2] == 'l' && s[3] == 'l' {
        Some((GTok::Null, s.skip(4)))
    } else {
        None
    }
}

/// Leading whitespace never lengthens the input.
pub proof fn lemma_skip_ws_len(s: Seq<char>)
    ensures
        skip_ws(s).len() <= s.len(),
    decreases s.len(),
{
    if s.len() > 0 && is_ws(s[0]) {
        lemma_skip_ws_len(s.skip(1));
    }
}

/// A scanned string literal consumes at least its closing quote.
pub proof fn lemma_scan_lit_len(s: Seq<char>)
    ensures
        scan_lit(s) matches Some((v, r)) ==> r.len() < s.len(),
    decreases s.len(),
{
    if s.len() == 0 {
    } else if s[0] == '"' {
    } else if s[0] == '\\' {
        if s.len() >= 6 && s[1] == 'u' {
            lemma_scan_lit_len(s.skip(6));
        }
        if s.len() >= 2 {
            lemma_scan_lit_len(s.skip(2));
        }
    } else {
        lemma_scan_lit_len(s.skip(1));
    }
}

/// Scanning digits never lengthens the input.
pub proof fn lemma_scan_digits_len(s: Seq<char>, acc: int)
    ensures
        scan_digits(s, acc).1.len() <= s.len(),
    decreases s.len(),
{
    if s.len() > 0 && is_digit(s[0]) {
        lemma_scan_digits_len(s.skip(1), acc * 10 + (s[0] as int - 48));
    }
}

/// A scanned token consumes at least one character.
pub proof fn lemma_sp_tok_len(s: Seq<char>)
    ensures
        sp_tok(s) matches Some((t, r)) ==> r.len() < s.len(),
{
    if s.len() > 0 {
        if s[0] == '"' {
            lemma_scan_lit_len(s.skip(1));
        } else if s[0] == '-' {
            if s.len() >= 2 && is_digit(s[1]) {
                lemma_scan_digits_len(s.skip(1), 0);
            }
        } else if is_digit(s[0]) {
            assert(scan_digits(s, 0) == scan_digits(s.skip(1), s[0] as int - 48));
            lemma_scan_digits_len(s.skip(1), s[0] as int - 48);
        }
    }
}

/// The token stream of a document: leading whitespace, then tokens each
/// followed by optional whitespace, to the end of the input.
pub open spec fn sp_tokenize(s: Seq<char>) -> Option<Seq<GTok>>
    decreases s.len(),
    via sp_tokenize_dec
{
    let s1 = skip_ws(s);
    if s1.len() == 0 {
        Some(Seq::empty())
    } else {
        match sp_tok(s1) {
            None => None,
            Some((t, r)) => match sp_tokenize(r) {
                None => None,
                Some(ts) => Some(seq![t] + ts),
            },
        }
    }
}

#[via_fn]
proof fn sp_tokenize_dec(s: Seq<char>) {
    lemma_skip_ws_len(s);
    lemma_sp_tok_len(skip_ws(s));
}

// ---------------------------------------------------------------------------
// Round trip: tokenizing a rendering
// ---------------------------------------------------------------------------

/// A token the renderer can faithfully emit: integers stay in the signed
/// 64-bit range.
pub open spec fn tok_ok(t: GTok) -> bool {
    t matches GTok::Int(n) ==> int_min() <= n <= int_max()
}

/// A token stream the renderer can faithfully emit: every token is in range
/// and no integer directly follows another, so that maximal-munch number
/// scanning cannot merge neighbours. Every stream in JSON's grammar has a
/// comma or a closing token after each integer, so this loses nothing.
pub open spec fn stream_ok(ts: Seq<GTok>) -> bool {
    (forall|i: int| 0 <= i < ts.len() ==> tok_ok(#[trigger] ts[i])) && (forall|i: int|
        0 <= i < ts.len() - 1 ==> !(#[trigger] ts[i] is Int && ts[i + 1] is Int))
}

/// Indentation is nothing but spaces.
proof fn lemma_indent_ws(d: nat)
    ensures
        forall|i: int| 0 <= i < indent(d).len() ==> is_ws(#[trigger] indent(d)[i]),
    decreases d,
{
    if d > 0 {
        lemma_indent_ws((d - 1) as nat);
        assert(forall|i: int| 0 <= i < indent(d).len() ==> is_ws(#[trigger] indent(d)[i])) by {
            assert(indent(d) == indent((d - 1) as nat) + seq![' ', ' ']);
            assert(forall|i: int|
                0 <= i < indent((d - 1) as nat).len() ==> #[trigger] indent(d)[i] == indent(
                    (d - 1) as nat,
                )[i]);
        }
    }
}

/// The separator before a token is nothing but whitespace.
proof fn lemma_sep_ws(prev: Prev, t: GTok, depth: nat, pretty: bool)
    ensures
        forall|i: int| 0 <= i < sep(prev, t, depth, pretty).len() ==> is_ws(
            #[trigger] sep(prev, t, depth, pretty)[i],
        ),
{
    lemma_indent_ws(depth);
    lemma_indent_ws(if depth > 0 {
        (depth - 1) as nat
    } else {
        0
    });
}

/// Skipping whitespace passes over any all-whitespace prefix.
proof fn lemma_skip_ws_all_ws(w: Seq<char>, x: Seq<char>)
    requires
        forall|i: int| 0 <= i < w.len() ==> is_ws(#[trigger] w[i]),
    ensures
        skip_ws(w + x) == skip_ws(x),
    decreases w.len(),
{
    if w.len() == 0 {
        assert(w + x =~= x);
    } else {
        assert((w + x).skip(1) =~= w.skip(1) + x);
        lemma_skip_ws_all_ws(w.skip(1), x);
    }
}

/// An all-whitespace input tokenizes to the empty stream.
proof fn lemma_skip_ws_only(w: Seq<char>)
    requires
        forall|i: int| 0 <= i < w.len() ==> is_ws(#[trigger] w[i]),
    ensures
        skip_ws(w).len() == 0,
{
    lemma_skip_ws_all_ws(w, Seq::empty());
    assert(w + Seq::<char>::empty() =~= w);
}

/// The digits of a non-negative integer start with a digit.
proof fn lemma_chars_of_nat_first(m: int)
    requires
        m >= 0,
    ensures
        chars_of_nat(m).len() >= 1,
        is_digit(chars_of_nat(m)[0]),
    decreases m,
{
    if m >= 10 {
        lemma_chars_of_nat_first(m / 10);
        assert(chars_of_nat(m)[0] == chars_of_nat(m / 10)[0]);
    } else {
        assert(dec_digit(m) as int == 48 + m);
    }
}

/// A hexadecimal digit character reads back as its value.
proof fn lemma_hex_digit_val(x: int)
    requires
        0 <= x < 16,
    ensures
        hex_val(hex_digit(x)) == x,
{
    if x < 10 {
        assert(hex_digit(x) as int == 48 + x);
    } else {
        assert(hex_digit(x) as int == 87 + x);
    }
}

/// Scanning one escaped character at the head of the input peels it off and
/// goes on with whatever the remaining scan yields.
#[verifier::rlimit(60)]
proof fn lemma_scan_esc_char(c: char, s2: Seq<char>, v2: Seq<char>, rest: Seq<char>)
    requires
        scan_lit(s2) == Some((v2, rest)),
    ensures
        scan_lit(esc_char(c) + s2) == Some((seq![c] + v2, rest)),
{
    let s = esc_char(c) + s2;
    if c == '"' || c == '\\' || c == '\u{8}' || c == '\u{c}' || c == '\n' || c == '\r' || c
        == '\t' {
        assert(s.skip(2) =~= s2);
        assert(scan_lit(s) == Some((seq![c] + v2, rest)));
    } else if (c as int) < 32 {
        let hi = c as int / 16;
        let lo = c as int % 16;
        assert(c as u32 >= 0);
        assert(c as int == c as u32 as int);
        assert(0 <= hi < 2 && 0 <= lo < 16);
        lemma_hex_digit_val(hi);
        lemma_hex_digit_val(lo);
        assert(s[2] == '0' && s[3] == '0' && s[4] == hex_digit(hi) && s[5] == hex_digit(lo));
        assert(hex_val('0') == 0);
        let h = hex_val(s[2]) * 4096 + hex_val(s[3]) * 256 + hex_val(s[4]) * 16 + hex_val(s[5]);
        assert(h == hi * 16 + lo);
        assert(16 * (c as int / 16) + c as int % 16 == c as int);
        assert(h == c as int);
        assert(h as char == c);
        assert(s.skip(6) =~= s2);
        assert(scan_lit(s) == Some((seq![c] + v2, rest)));
    } else {
        assert(s[0] == c);
        assert(s.skip(1) =~= s2);
        assert(scan_lit(s) == Some((seq![c] + v2, rest)));
    }
}

/// Scanning the escaped body of a string, followed by the closing quote and
/// anything after it, recovers the original characters and the rest.
proof fn lemma_scan_lit_esc(v: Seq<char>, rest: Seq<char>)
    ensures
        scan_lit(esc_str(v) + seq!['"'] + rest) == Some((v, rest)),
    decreases v.len(),
{
    if v.len() == 0 {
        assert(esc_str(v) + seq!['"'] + rest =~= seq!['"'] + rest);
        assert((seq!['"'] + rest).skip(1) =~= rest);
    } else {
        let c = v[0];
        let s = esc_str(v) + seq!['"'] + rest;
        let s2 = esc_str(v.skip(1)) + seq!['"'] + rest;
        assert(s =~= esc_char(c) + s2);
        lemma_scan_lit_esc(v.skip(1), rest);
        lemma_scan_esc_char(c, s2, v.skip(1), rest);
        assert(seq![c] + v.skip(1) =~= v);
    }
}

/// Ten to the power of `k`.
pub open spec fn pow10(k: nat) -> int
    decreases k,
{
    if k == 0 {
        1
    } else {
        10 * pow10((k - 1) as nat)
    }
}

/// The number of decimal digits of a non-negative integer.
pub open spec fn num_digits(m: int) -> nat
    decreases m,
{
    if m < 10 {
        1
    } else {
        1 + num_digits(m / 10)
    }
}

/// Scanning the decimal digits of `m` accumulates `m` onto the shifted
/// accumulator and continues with the rest of the input.
proof fn lemma_scan_chars_of_nat(m: int, rest: Seq<char>, acc: int)
    requires
        m >= 0,
    ensures
        scan_digits(chars_of_nat(m) + rest, acc) == scan_digits(
            rest,
            acc * pow10(num_digits(m)) + m,
        ),
    decreases m,
{
    let s = chars_of_nat(m) + rest;
    if m < 10 {
        assert(s[0] == dec_digit(m));
        assert(dec_digit(m) as int == 48 + m);
        assert(s.skip(1) =~= rest);
        assert(scan_digits(s, acc) == scan_digits(rest, acc * 10 + m));
        assert(pow10(0) == 1);
        assert(pow10(1) == 10);
    } else {
        let d = dec_digit(m % 10);
        assert(s =~= chars_of_nat(m / 10) + (seq![d] + rest));
        lemma_scan_chars_of_nat(m / 10, seq![d] + rest, acc);
        let acc2 = acc * pow10(num_digits(m / 10)) + m / 10;
        assert(d as int == 48 + m % 10);
        assert((seq![d] + rest).skip(1) =~= rest);
        assert(scan_digits(seq![d] + rest, acc2) == scan_digits(rest, acc2 * 10 + m % 10));
        assert(num_digits(m) == 1 + num_digits(m / 10));
        assert(pow10(num_digits(m)) == 10 * pow10(num_digits(m / 10)));
        assert(m == 10 * (m / 10) + m % 10);
        assert(acc2 * 10 + m % 10 == acc * pow10(num_digits(m)) + m) by (nonlinear_arith)
            requires
                acc2 == acc * pow10(num_digits(m / 10)) + m / 10,
                pow10(num_digits(m)) == 10 * pow10(num_digits(m / 10)),
                m == 10 * (m / 10) + m % 10,
        ;
    }
}

/// Scanning stops exactly at a boundary that is not a digit.
proof fn lemma_scan_digits_stop(rest: Seq<char>, acc: int)
    requires
        rest.len() == 0 || !is_digit(rest[0]),
    ensures
        scan_digits(rest, acc) == (acc, rest),
{
}

/// Scanning one rendered token recovers it, provided the following text does
/// not begin with a digit when the token is an integer.
proof fn lemma_sp_tok_chars(t: GTok, rest: Seq<char>)
    requires
        tok_ok(t),
        t is Int ==> rest.len() == 0 || !is_digit(rest[0]),
    ensures
        sp_tok(tok_chars(t) + rest) == Some((t, rest)),
{
    let s = tok_chars(t) + rest;
    match t {
        GTok::LBrace | GTok::RBrace | GTok::LBrack | GTok::RBrack | GTok::Colon | GTok::Comma => {
            assert(s.skip(1) =~= rest);
        },
        GTok::Lit(v) => {
            assert(s[0] == '"');
            assert(s.skip(1) =~= esc_str(v) + seq!['"'] + rest);
            lemma_scan_lit_esc(v, rest);
        },
        GTok::Int(n) => {
            if n >= 0 {
                lemma_chars_of_nat_first(n);
                assert(s[0] == chars_of_nat(n)[0]);
                assert(s =~= chars_of_nat(n) + rest);
                lemma_scan_chars_of_nat(n, rest, 0);
                lemma_scan_digits_stop(rest, n);
                assert(0 * pow10(num_digits(n)) + n == n);
            } else {
                let m = -n;
                assert(s[0] == '-');
                lemma_chars_of_nat_first(m);
                assert(s.skip(1) =~= chars_of_nat(m) + rest);
                assert(s[1] == chars_of_nat(m)[0]);
                lemma_scan_chars_of_nat(m, rest, 0);
                lemma_scan_digits_stop(rest, m);
                assert(0 * pow10(num_digits(m)) + m == m);
            }
        },
        GTok::True => {
            assert(s[0] == 't' && s[1] == 'r' && s[2] == 'u' && s[3] == 'e');
            assert(s.skip(4) =~= rest);
        },
        GTok::False => {
            assert(s[0] == 'f' && s[1] == 'a' && s[2] == 'l' && s[3] == 's' && s[4] == 'e');
            assert(s.skip(5) =~= rest);
        },
        GTok::Null => {
            assert(s[0] == 'n' && s[1] == 'u' && s[2] == 'l' && s[3] == 'l');
            assert(s.skip(4) =~= rest);
        },
    }
}

/// Every token contributes at least one character, and its first character
/// is never whitespace and is a digit only for a non-negative integer.
proof fn lemma_tok_chars_first(t: GTok)
    ensures
        tok_chars(t).len() >= 1,
        !is_ws(tok_chars(t)[0]),
        !(t is Int) ==> !is_digit(tok_chars(t)[0]),
{
    match t {
        GTok::Lit(v) => {
            assert(tok_chars(t)[0] == '"');
        },
        GTok::Int(n) => {
            if n >= 0 {
                lemma_chars_of_nat_first(n);
            } else {
                lemma_chars_of_nat_first(-n);
                assert(tok_chars(t)[0] == '-');
            }
        },
        _ => {},
    }
}

/// A rendered stream starts with whitespace or with its first token's first
/// character; in particular it never starts with a digit unless its first
/// token is an integer.
proof fn lemma_render_first_not_digit(ts: Seq<GTok>, depth: nat, prev: Prev, pretty: bool)
    requires
        ts.len() > 0 ==> !(ts[0] is Int),
    ensures
        render_from(ts, depth, prev, pretty).len() == 0 || !is_digit(
            render_from(ts, depth, prev, pretty)[0],
        ),
{
    if ts.len() > 0 {
        let w = sep(prev, ts[0], depth, pretty);
        lemma_sep_ws(prev, ts[0], depth, pretty);
        lemma_tok_chars_first(ts[0]);
        let r = render_from(ts, depth, prev, pretty);
        if w.len() > 0 {
            assert(r[0] == w[0]);
            assert(is_ws(r[0]));
            assert(!is_digit(r[0]));
        } else {
            assert(r[0] == tok_chars(ts[0])[0]);
        }
    }
}

/// Tokenizing the rendering of a well-separated stream, followed by any
/// trailing whitespace, yields exactly that stream, in either output mode.
#[verifier::rlimit(80)]
pub proof fn lemma_tokenize_render_from(
    ts: Seq<GTok>,
    depth: nat,
    prev: Prev,
    pretty: bool,
    tail: Seq<char>,
)
    requires
        stream_ok(ts),
        forall|i: int| 0 <= i < tail.len() ==> is_ws(#[trigger] tail[i]),
    ensures
        sp_tokenize(render_from(ts, depth, prev, pretty) + tail) == Some(ts),
    decreases ts.len(),
{
    if ts.len() == 0 {
        assert(render_from(ts, depth, prev, pretty) + tail =~= tail);
        lemma_skip_ws_only(tail);
    } else {
        let t = ts[0];
        let w = sep(prev, t, depth, pretty);
        let rest_r = render_from(ts.skip(1), next_depth(t, depth), next_prev(t), pretty);
        let body = tok_chars(t) + (rest_r + tail);
        assert(render_from(ts, depth, prev, pretty) + tail =~= w + body);
        lemma_sep_ws(prev, t, depth, pretty);
        lemma_skip_ws_all_ws(w, body);
        lemma_tok_chars_first(t);
        assert(body[0] == tok_chars(t)[0]);
        assert(skip_ws(body) == body);
        // The text after this token never begins with a digit when the token
        // is an integer: the next token is not an integer, or only the
        // trailing whitespace is left.
        if t is Int {
            if ts.len() > 1 {
                assert(!(ts[1] is Int));
                assert(ts.skip(1)[0] == ts[1]);
                lemma_render_first_not_digit(ts.skip(1), next_depth(t, depth), next_prev(t), pretty);
                lemma_tok_chars_first(ts.skip(1)[0]);
                if rest_r.len() > 0 {
                    assert((rest_r + tail)[0] == rest_r[0]);
                } else {
                    assert(rest_r + tail =~= tail);
                }
            } else {
                assert(ts.skip(1).len() == 0);
                assert(rest_r + tail =~= tail);
            }
            assert((rest_r + tail).len() == 0 || !is_digit((rest_r + tail)[0]));
        }
        assert(tok_ok(t));
        lemma_sp_tok_chars(t, rest_r + tail);
        assert(sp_tok(body) == Some((t, rest_r + tail)));
        assert(stream_ok(ts.skip(1))) by {
            assert(forall|i: int|
                0 <= i < ts.skip(1).len() ==> #[trigger] ts.skip(1)[i] == ts[i + 1]);
        }
        lemma_tokenize_render_from(ts.skip(1), next_depth(t, depth), next_prev(t), pretty, tail);
        assert(sp_tokenize(w + body) == sp_tokenize(body));
        assert(seq![t] + ts.skip(1) =~= ts);
    }
}

/// The central law of the lexical layer: tokenizing a rendered document
/// yields the token stream it was rendered from, in both output modes.
pub proof fn lemma_tokenize_render(ts: Seq<GTok>, pretty: bool)
    requires
        stream_ok(ts),
    ensures
        sp_tokenize(render(ts, pretty)) == Some(ts),
{
    if pretty {
        lemma_tokenize_render_from(ts, 0, Prev::Start, true, seq!['\n']);
    } else {
        lemma_tokenize_render_from(ts, 0, Prev::Start, false, Seq::empty());
        assert(render_from(ts, 0, Prev::Start, false) + Seq::<char>::empty() =~= render(ts, false));
    }
}

// ---------------------------------------------------------------------------
// Executable rendering
// ---------------------------------------------------------------------------

/// Relies on String::push: appends exactly one character.
#[verifier::external_body]
fn push_char(s: &mut String, c: char)
    ensures
        final(s)@ == old(s)@.push(c),
{
    s.push(c);
}

/// The decimal digit character of a value below ten.
fn dec_char(d: u64) -> (c: char)
    requires
        d < 10,
    ensures
        c == dec_digit(d as int),
{
    match d {
        0 => '0',
        1 => '1',
        2 => '2',
        3 => '3',
        4 => '4',
        5 => '5',
        6 => '6',
        7 => '7',
        8 => '8',
        _ => '9',
    }
}

/// The lower-case hexadecimal digit character of a value below sixteen.
fn hex_char(d: u32) -> (c: char)
    requires
        d < 16,
    ensures
        c == hex_digit(d as int),
{
    match d {
        0 => '0',
        1 => '1',
        2 => '2',
        3 => '3',
        4 => '4',
        5 => '5',
        6 => '6',
        7 => '7',
        8 => '8',
        9 => '9',
        10 => 'a',
        11 => 'b',
        12 => 'c',
        13 => 'd',
        14 => 'e',
        _ => 'f',
    }
}

/// Writes the decimal digits of a non-negative number.
fn write_nat(out: &mut String, m: u64)
    ensures
        final(out)@ == old(out)@ + chars_of_nat(m as int),
    decreases m,
{
    if m < 10 {
        push_char(out, dec_char(m));
        assert(out@ =~= old(out)@ + chars_of_nat(m as int));
    } else {
        write_nat(out, m / 10);
        push_char(out, dec_char(m % 10));
        assert(out@ =~= old(out)@ + chars_of_nat(m as int));
    }
}

/// Writes the decimal form of a signed number.
fn write_int(out: &mut String, n: i64)
    ensures
        final(out)@ == old(out)@ + chars_of_int(n as int),
{
    if n >= 0 {
        write_nat(out, n as u64);
    } else {
        push_char(out, '-');
        let m: u64 = if n == i64::MIN {
            9223372036854775808u64
        } else {
            (-n) as u64
        };
        assert(m as int == -(n as int));
        write_nat(out, m);
        assert(out@ =~= old(out)@ + chars_of_int(n as int));
    }
}

/// Writes one character of a string literal body in its escaped form.
fn write_esc_char(out: &mut String, c: char)
    ensures
        final(out)@ == old(out)@ + esc_char(c),
{
    if c == '"' {
        push_char(out, '\\');
        push_char(out, '"');
    } else if c == '\\' {
        push_char(out, '\\');
        push_char(out, '\\');
    } else if c == '\u{8}' {
        push_char(out, '\\');
        push_char(out, 'b');
    } else if c == '\u{c}' {
        push_char(out, '\\');
        push_char(out, 'f');
    } else if c == '\n' {
        push_char(out, '\\');
        push_char(out, 'n');
    } else if c == '\r' {
        push_char(out, '\\');
        push_char(out, 'r');
    } else if c == '\t' {
        push_char(out, '\\');
        push_char(out, 't');
    } else if (c as u32) < 32 {
        push_char(out, '\\');
        push_char(out, 'u');
        push_char(out, '0');
        push_char(out, '0');
        push_char(out, hex_char((c as u32) / 16));
        push_char(out, hex_char((c as u32) % 16));
        assert(c as int == c as u32 as int);
    } else {
        push_char(out, c);
    }
    assert(out@ =~= old(out)@ + esc_char(c));
}

/// Writes the escaped body of a string literal.
fn write_esc(out: &mut String, s: &String)
    ensures
        final(out)@ == old(out)@ + esc_str(s@),
{
    let n = s.as_str().unicode_len();
    let mut i: usize = 0;
    assert(s@.skip(0) =~= s@);
    while i < n
        invariant
            i <= n,
            n == s@.len(),
            old(out)@ + esc_str(s@) == out@ + esc_str(s@.skip(i as int)),
        decreases n - i,
    {
        let c = s.as_str().get_char(i);
        assert(s@.skip(i as int)[0] == c);
        assert(s@.skip(i as int).skip(1) =~= s@.skip(i as int + 1));
        write_esc_char(out, c);
        i = i + 1;
    }
    assert(esc_str(s@.skip(n as int)) =~= Seq::<char>::empty());
    assert(old(out)@ + esc_str(s@) =~= out@);
}

/// Writes two spaces per indentation level.
fn write_indent(out: &mut String, d: usize)
    ensures
        final(out)@ == old(out)@ + indent(d as nat),
{
    let mut k: usize = 0;
    while k < d
        invariant
            k <= d,
            out@ == old(out)@ + indent(k as nat),
        decreases d - k,
    {
        push_char(out, ' ');
        push_char(out, ' ');
        assert(indent((k + 1) as nat) == indent(k as nat) + seq![' ', ' ']);
        assert(out@ =~= old(out)@ + indent((k + 1) as nat));
        k = k + 1;
    }
}

/// Writes the whitespace owed before a token.
fn write_sep(out: &mut String, prev: Prev, t: &Token, depth: usize, pretty: bool)
    ensures
        final(out)@ == old(out)@ + sep(prev, t@, depth as nat, pretty),
{
    if !pretty {
        assert(out@ =~= old(out)@ + sep(prev, t@, depth as nat, pretty));
    } else if matches!(t, Token::RBrace | Token::RBrack) {
        if matches!(prev, Prev::Open) {
            assert(out@ =~= old(out)@ + sep(prev, t@, depth as nat, pretty));
        } else {
            push_char(out, '\n');
            write_indent(out, if depth > 0 { depth - 1 } else { 0 });
            assert(out@ =~= old(out)@ + sep(prev, t@, depth as nat, pretty));
        }
    } else {
        match prev {
            Prev::Open | Prev::Comma => {
                push_char(out, '\n');
                write_indent(out, depth);
                assert(out@ =~= old(out)@ + sep(prev, t@, depth as nat, pretty));
            },
            Prev::Colon => {
                push_char(out, ' ');
                assert(out@ =~= old(out)@ + sep(prev, t@, depth as nat, pretty));
            },
            _ => {
                assert(out@ =~= old(out)@ + sep(prev, t@, depth as nat, pretty));
            },
        }
    }
}

/// Writes the characters of one token.
fn write_tok(out: &mut String, t: &Token)
    ensures
        final(out)@ == old(out)@ + tok_chars(t@),
{
    match t {
        Token::LBrace => push_char(out, '{'),
        Token::RBrace => push_char(out, '}'),
        Token::LBrack => push_char(out, '['),
        Token::RBrack => push_char(out, ']'),
        Token::Colon => push_char(out, ':'),
        Token::Comma => push_char(out, ','),
        Token::Lit(s) => {
            push_char(out, '"');
            write_esc(out, s);
            push_char(out, '"');
        },
        Token::Int(n) => write_int(out, *n),
        Token::True => {
            push_char(out, 't');
            push_char(out, 'r');
            push_char(out, 'u');
            push_char(out, 'e');
        },
        Token::False => {
            push_char(out, 'f');
            push_char(out, 'a');
            push_char(out, 'l');
            push_char(out, 's');
            push_char(out, 'e');
        },
        Token::Null => {
            push_char(out, 'n');
            push_char(out, 'u');
            push_char(out, 'l');
            push_char(out, 'l');
        },
    }
    assert(out@ =~= old(out)@ + tok_chars(t@));
}

/// Renders a token stream as document text, in the chosen output mode.
pub fn render_tokens(ts: &Vec<Token>, pretty: bool) -> (out: String)
    ensures
        out@ == render(ts.deep_view(), pretty),
{
    let ghost tsv = ts.deep_view();
    let mut out = String::new();
    let mut i: usize = 0;
    let mut depth: usize = 0;
    let mut prev = Prev::Start;
    assert(tsv.skip(0) =~= tsv);
    assert(out@ + render_from(tsv, 0, Prev::Start, pretty) =~= render_from(
        tsv,
        0,
        Prev::Start,
        pretty,
    ));
    while i < ts.len()
        invariant
            i <= ts.len(),
            depth <= i,
            tsv == ts.deep_view(),
            tsv.len() == ts.len(),
            render_from(tsv, 0, Prev::Start, pretty) == out@ + render_from(
                tsv.skip(i as int),
                depth as nat,
                prev,
                pretty,
            ),
        decreases ts.len() - i,
    {
        let t = &ts[i];
        assert(tsv.skip(i as int)[0] == t@);
        assert(tsv.skip(i as int).skip(1) =~= tsv.skip(i as int + 1));
        write_sep(&mut out, prev, t, depth, pretty);
        write_tok(&mut out, t);
        proof {
            assert(render_from(tsv.skip(i as int), depth as nat, prev, pretty) == sep(
                prev,
                t@,
                depth as nat,
                pretty,
            ) + tok_chars(t@) + render_from(
                tsv.skip(i as int + 1),
                next_depth(t@, depth as nat),
                next_prev(t@),
                pretty,
            ));
        }
        let new_depth: usize = match t {
            Token::LBrace | Token::LBrack => depth + 1,
            Token::RBrace | Token::RBrack => if depth > 0 {
                depth - 1
            } else {
                0
            },
            _ => depth,
        };
        let new_prev: Prev = match t {
            Token::LBrace | Token::LBrack => Prev::Open,
            Token::RBrace | Token::RBrack => Prev::Val,
            Token::Colon => Prev::Colon,
            Token::Comma => Prev::Comma,
            _ => Prev::Val,
        };
        assert(new_depth as nat == next_depth(t@, depth as nat));
        assert(new_prev == next_prev(t@));
        assert(render_from(tsv, 0, Prev::Start, pretty) =~= out@ + render_from(
            tsv.skip(i as int + 1),
            new_depth as nat,
            new_prev,
            pretty,
        ));
        depth = new_depth;
        prev = new_prev;
        i = i + 1;
    }
    assert(tsv.skip(i as int) =~= Seq::<GTok>::empty());
    if pretty {
        push_char(&mut out, '\n');
        assert(out@ =~= render(tsv, true));
    } else {
        assert(out@ =~= render(tsv, false));
    }
    out
}

// ---------------------------------------------------------------------------
// Executable tokenizing
// ---------------------------------------------------------------------------

/// Relies on char::from_u32: Some exactly on Unicode scalar values, and the
/// returned character has the given value.
#[verifier::external_body]
fn char_from_u32(v: u32) -> (r: Option<char>)
    ensures
        r is Some <==> (v < 0xD800 || (0xE000 <= v && v <= 0x10FFFF)),
        r matches Some(c) ==> c as u32 == v,
{
    char::from_u32(v)
}

/// The characters of a text slice, one by one.
pub fn str_chars(s: &str) -> (v: Vec<char>)
    ensures
        v@ == s@,
{
    let n = s.unicode_len();
    let mut v: Vec<char> = Vec::new();
    let mut i: usize = 0;
    while i < n
        invariant
            i <= n,
            n == s@.len(),
            v@ == s@.take(i as int),
        decreases n - i,
    {
        let c = s.get_char(i);
        v.push(c);
        assert(v@ =~= s@.take(i as int + 1));
        i = i + 1;
    }
    assert(v@ =~= s@);
    v
}

/// Whether a character is JSON whitespace.
fn is_ws_exec(c: char) -> (r: bool)
    ensures
        r == is_ws(c),
{
    c == ' ' || c == '\n' || c == '\t' || c == '\r'
}

/// A character's value read as `u32` and as `int` agree, and casting the
/// value back gives the character again.
proof fn lemma_char_u32(c: char)
    ensures
        c as int == c as u32 as int,
        (c as int) as char == c,
{
}

/// Whether a character is a decimal digit.
fn is_digit_exec(c: char) -> (r: bool)
    ensures
        r == is_digit(c),
{
    let u = c as u32;
    proof {
        assert(c as int == c as u32 as int);
    }
    48 <= u && u <= 57
}

/// The value of a hexadecimal digit character, negative when it is none.
fn hex_val_exec(c: char) -> (r: i32)
    ensures
        r as int == hex_val(c),
{
    let u = c as u32;
    if 48 <= u && u <= 57 {
        (u - 48) as i32
    } else if 97 <= u && u <= 102 {
        (u - 87) as i32
    } else if 65 <= u && u <= 70 {
        (u - 55) as i32
    } else {
        -1
    }
}

/// The replacement of a short escape, if it is a valid one.
fn unescape_short_exec(e: char) -> (r: Option<char>)
    ensures
        r == unescape_short(e),
{
    if e == '"' {
        Some('"')
    } else if e == '\\' {
        Some('\\')
    } else if e == '/' {
        Some('/')
    } else if e == 'b' {
        Some('\u{8}')
    } else if e == 'f' {
        Some('\u{c}')
    } else if e == 'n' {
        Some('\n')
    } else if e == 'r' {
        Some('\r')
    } else if e == 't' {
        Some('\t')
    } else {
        None
    }
}

/// Scans a string literal body beginning at `start` (just after the opening
/// quote), mirroring [`scan_lit`].
#[verifier::rlimit(60)]
fn scan_lit_exec(s: &Vec<char>, start: usize) -> (r: Option<(String, usize)>)
    requires
        start <= s.len(),
    ensures
        match r {
            Some((v, j)) => start <= j <= s.len() && scan_lit(s@.skip(start as int)) == Some(
                (v@, s@.skip(j as int)),
            ),
            None => scan_lit(s@.skip(start as int)) is None,
        },
{
    let mut i: usize = start;
    let mut acc = String::new();
    loop
        invariant
            start <= i <= s.len(),
            match scan_lit(s@.skip(i as int)) {
                Some((v2, rest)) => scan_lit(s@.skip(start as int)) == Some((acc@ + v2, rest)),
                None => scan_lit(s@.skip(start as int)) is None,
            },
        decreases s.len() - i,
    {
        let ghost pre = s@.skip(i as int);
        if i == s.len() {
            assert(pre.len() == 0);
            return None;
        }
        let c = s[i];
        assert(pre[0] == c);
        assert(pre.skip(1) =~= s@.skip(i as int + 1));
        if c == '"' {
            assert(scan_lit(pre) == Some((Seq::<char>::empty(), s@.skip(i as int + 1))));
            assert(acc@ + Seq::<char>::empty() =~= acc@);
            return Some((acc, i + 1));
        } else if c == '\\' {
            if i + 1 == s.len() {
                assert(pre.len() < 2);
                return None;
            }
            let e = s[i + 1];
            assert(pre[1] == e);
            if e == 'u' {
                if s.len() - i < 6 {
                    assert(pre.len() < 6);
                    return None;
                }
                assert(pre.len() >= 6);
                let h2 = hex_val_exec(s[i + 2]);
                let h3 = hex_val_exec(s[i + 3]);
                let h4 = hex_val_exec(s[i + 4]);
                let h5 = hex_val_exec(s[i + 5]);
                assert(pre[2] == s@[i as int + 2]);
                assert(pre[3] == s@[i as int + 3]);
                assert(pre[4] == s@[i as int + 4]);
                assert(pre[5] == s@[i as int + 5]);
                if h2 < 0 || h3 < 0 || h4 < 0 || h5 < 0 {
                    return None;
                }
                assert(h2 <= 15 && h3 <= 15 && h4 <= 15 && h5 <= 15);
                let h: u32 = (h2 as u32) * 4096 + (h3 as u32) * 256 + (h4 as u32) * 16 + (
                h5 as u32);
                assert(h as int == hex_val(pre[2]) * 4096 + hex_val(pre[3]) * 256 + hex_val(pre[4])
                    * 16 + hex_val(pre[5]));
                if 0xD800 <= h && h < 0xE000 {
                    return None;
                }
                assert(h <= 0xFFFF);
                match char_from_u32(h) {
                    Some(ch) => {
                        proof {
                            lemma_char_u32(ch);
                        }
                        assert(ch == (h as int) as char);
                        push_char(&mut acc, ch);
                        assert(pre.skip(6) =~= s@.skip(i as int + 6));
                        proof {
                            match scan_lit(s@.skip(i as int + 6)) {
                                Some((v2, rest)) => {
                                    assert(scan_lit(pre) == Some((seq![ch] + v2, rest)));
                                    assert(acc@.drop_last() + (seq![ch] + v2) =~= acc@ + v2);
                                },
                                None => {},
                            }
                        }
                        i = i + 6;
                    },
                    None => {
                        proof {
                            assert(false);
                        }
                        return None;
                    },
                }
            } else {
                match unescape_short_exec(e) {
                    Some(c2) => {
                        push_char(&mut acc, c2);
                        assert(pre.skip(2) =~= s@.skip(i as int + 2));
                        proof {
                            match scan_lit(s@.skip(i as int + 2)) {
                                Some((v2, rest)) => {
                                    assert(scan_lit(pre) == Some((seq![c2] + v2, rest)));
                                    assert(acc@.drop_last() + (seq![c2] + v2) =~= acc@ + v2);
                                },
                                None => {},
                            }
                        }
                        i = i + 2;
                    },
                    None => {
                        return None;
                    },
                }
            }
        } else if (c as u32) < 32 {
            proof {
                lemma_char_u32(c);
            }
            assert((c as int) < 32);
            return None;
        } else {
            proof {
                lemma_char_u32(c);
            }
            assert((c as int) >= 32);
            push_char(&mut acc, c);
            proof {
                match scan_lit(s@.skip(i as int + 1)) {
                    Some((v2, rest)) => {
                        assert(scan_lit(pre) == Some((seq![c] + v2, rest)));
                        assert(acc@.drop_last() + (seq![c] + v2) =~= acc@ + v2);
                    },
                    None => {},
                }
            }
            i = i + 1;
        }
    }
}

/// Scans a run of decimal digits beginning at `start`, mirroring
/// [`scan_digits`]: the accumulated value (exact unless the overflow flag is
/// set, in which case it exceeds the signed 64-bit magnitude) and the
/// position after the run.
fn scan_digits_exec(s: &Vec<char>, start: usize) -> (r: (u64, bool, usize))
    requires
        start <= s.len(),
    ensures
        ({
            let (n, rest) = scan_digits(s@.skip(start as int), 0);
            &&& start <= r.2 <= s.len()
            &&& rest == s@.skip(r.2 as int)
            &&& if r.1 {
                n > 0x8000_0000_0000_0000
            } else {
                n == r.0 as int
            }
        }),
{
    let mut i: usize = start;
    let mut acc: u64 = 0;
    let mut big = false;
    let ghost g0 = s@.skip(start as int);
    let ghost mut gacc: int = 0;
    while i < s.len() && is_digit_exec(s[i])
        invariant
            start <= i <= s.len(),
            gacc >= 0,
            scan_digits(g0, 0) == scan_digits(s@.skip(i as int), gacc),
            !big ==> gacc == acc as int,
            big ==> gacc > 0x8000_0000_0000_0000,
        decreases s.len() - i,
    {
        let ghost pre = s@.skip(i as int);
        assert(pre[0] == s@[i as int]);
        proof {
            lemma_char_u32(s@[i as int]);
        }
        let d: u64 = (s[i] as u32 - 48) as u64;
        assert(d as int == pre[0] as int - 48);
        assert(pre.skip(1) =~= s@.skip(i as int + 1));
        assert(scan_digits(pre, gacc) == scan_digits(s@.skip(i as int + 1), gacc * 10 + d));
        if big {
            assert(gacc * 10 + d > 0x8000_0000_0000_0000);
            proof {
                gacc = gacc * 10 + d;
            }
        } else if acc > (u64::MAX - 9) / 10 {
            big = true;
            assert(acc as int * 10 + d > 0x8000_0000_0000_0000);
            proof {
                gacc = gacc * 10 + d;
            }
        } else {
            assert(acc as int * 10 + d <= u64::MAX);
            acc = acc * 10 + d;
            proof {
                gacc = gacc * 10 + d;
            }
        }
        i = i + 1;
    }
    proof {
        let pre = s@.skip(i as int);
        if pre.len() > 0 {
            assert(pre[0] == s@[i as int]);
        }
        assert(scan_digits(pre, gacc) == (gacc, pre));
    }
    (acc, big, i)
}

/// The token stream of a document given as characters, mirroring
/// [`sp_tokenize`].
#[verifier::rlimit(100)]
pub fn tokenize_chars(s: &Vec<char>) -> (r: Option<Vec<Token>>)
    ensures
        match r {
            Some(ts) => sp_tokenize(s@) == Some(ts.deep_view()),
            None => sp_tokenize(s@) is None,
        },
{
    let mut out: Vec<Token> = Vec::new();
    let mut i: usize = 0;
    proof {
        assert(s@.skip(0) =~= s@);
        match sp_tokenize(s@) {
            Some(ts2) => {
                assert(out.deep_view() + ts2 =~= ts2);
            },
            None => {},
        }
    }
    loop
        invariant
            i <= s.len(),
            match sp_tokenize(s@.skip(i as int)) {
                Some(ts2) => sp_tokenize(s@) == Some(out.deep_view() + ts2),
                None => sp_tokenize(s@) is None,
            },
        decreases s.len() - i,
    {
        // Pass over whitespace; it never changes the token stream.
        if i < s.len() && is_ws_exec(s[i]) {
            proof {
                let pre = s@.skip(i as int);
                assert(pre[0] == s@[i as int]);
                assert(pre.skip(1) =~= s@.skip(i as int + 1));
                assert(skip_ws(pre) == skip_ws(s@.skip(i as int + 1)));
            }
            i = i + 1;
            continue;
        }
        let ghost pre = s@.skip(i as int);
        if i == s.len() {
            assert(pre.len() == 0);
            assert(sp_tokenize(pre) == Some(Seq::<GTok>::empty()));
            proof {
                assert(out.deep_view() + Seq::<GTok>::empty() =~= out.deep_view());
            }
            return Some(out);
        }
        let c = s[i];
        assert(pre[0] == c && !is_ws(c));
        assert(skip_ws(pre) == pre);
        assert(pre.skip(1) =~= s@.skip(i as int + 1));
        let tok: Token;
        let j: usize;
        if c == '{' {
            tok = Token::LBrace;
            j = i + 1;
        } else if c == '}' {
            tok = Token::RBrace;
            j = i + 1;
        } else if c == '[' {
            tok = Token::LBrack;
            j = i + 1;
        } else if c == ']' {
            tok = Token::RBrack;
            j = i + 1;
        } else if c == ':' {
            tok = Token::Colon;
            j = i + 1;
        } else if c == ',' {
            tok = Token::Comma;
            j = i + 1;
        } else if c == '"' {
            match scan_lit_exec(s, i + 1) {
                Some((lit, j2)) => {
                    assert(sp_tok(pre) == Some((GTok::Lit(lit@), s@.skip(j2 as int))));
                    tok = Token::Lit(lit);
                    j = j2;
                },
                None => {
                    assert(sp_tok(pre) is None);
                    return None;
                },
            }
        } else if c == '-' {
            if i + 1 == s.len() {
                assert(pre.len() < 2);
                return None;
            }
            assert(pre[1] == s@[i as int + 1]);
            if !is_digit_exec(s[i + 1]) {
                return None;
            }
            assert(is_digit(pre[1]));
            let (acc, big, j2) = scan_digits_exec(s, i + 1);
            if big || acc > 9223372036854775808u64 {
                assert(sp_tok(pre) is None);
                return None;
            }
            let v: i64 = if acc == 9223372036854775808u64 {
                i64::MIN
            } else {
                -(acc as i64)
            };
            assert(v as int == -(acc as int));
            tok = Token::Int(v);
            j = j2;
            assert(sp_tok(pre) == Some((GTok::Int(v as int), s@.skip(j as int))));
        } else if is_digit_exec(c) {
            let (acc, big, j2) = scan_digits_exec(s, i);
            if big || acc > 9223372036854775807u64 {
                assert(sp_tok(pre) is None);
                return None;
            }
            tok = Token::Int(acc as i64);
            j = j2;
            assert(sp_tok(pre) == Some((GTok::Int(acc as int), s@.skip(j as int))));
        } else if c == 't' {
            if s.len() - i > 3 && s[i + 1] == 'r' && s[i + 2] == 'u' && s[i + 3] == 'e' {
                assert(pre.len() >= 4 && pre[1] == 'r' && pre[2] == 'u' && pre[3] == 'e');
                assert(pre.skip(4) =~= s@.skip(i as int + 4));
                tok = Token::True;
                j = i + 4;
            } else {
                assert(sp_tok(pre) is None);
                return None;
            }
        } else if c == 'f' {
            if s.len() - i > 4 && s[i + 1] == 'a' && s[i + 2] == 'l' && s[i + 3] == 's' && s[i + 4]
                == 'e' {
                assert(pre.len() >= 5 && pre[1] == 'a' && pre[2] == 'l' && pre[3] == 's' && pre[4]
                    == 'e');
                assert(pre.skip(5) =~= s@.skip(i as int + 5));
                tok = Token::False;
                j = i + 5;
            } else {
                assert(sp_tok(pre) is None);
                return None;
            }
        } else if c == 'n' {
            if s.len() - i > 3 && s[i + 1] == 'u' && s[i + 2] == 'l' && s[i + 3] == 'l' {
                assert(pre.len() >= 4 && pre[1] == 'u' && pre[2] == 'l' && pre[3] == 'l');
                assert(pre.skip(4) =~= s@.skip(i as int + 4));
                tok = Token::Null;
                j = i + 4;
            } else {
                assert(sp_tok(pre) is None);
                return None;
            }
        } else {
            assert(sp_tok(pre) is None);
            return None;
        }
        assert(sp_tok(pre) == Some((tok@, s@.skip(j as int))));
        proof {
            lemma_sp_tok_len(pre);
            assert(s@.skip(j as int).len() < pre.len());
            assert(j > i);
        }
        let ghost old_dv = out.deep_view();
        out.push(tok);
        proof {
            assert(out.deep_view() =~= old_dv.push(tok@));
            match sp_tokenize(s@.skip(j as int)) {
                Some(ts3) => {
                    assert(sp_tokenize(pre) == Some(seq![tok@] + ts3));
                    assert(old_dv + (seq![tok@] + ts3) =~= old_dv.push(tok@) + ts3);
                },
                None => {
                    assert(sp_tokenize(pre) is None);
                },
            }
        }
        i = j;
    }
}

// ---------------------------------------------------------------------------
// Token-level values
// ---------------------------------------------------------------------------

/// Parses a string value: one literal token.
pub open spec fn sp_v_str(ts: Seq<GTok>) -> Option<(Seq<char>, Seq<GTok>)> {
    if ts.len() == 0 {
        None
    } else {
        match ts[0] {
            GTok::Lit(s) => Some((s, ts.skip(1))),
            _ => None,
        }
    }
}

/// Parses an optional string value: a literal, or an explicit null standing
/// for no value.
pub open spec fn sp_v_opt_str(ts: Seq<GTok>) -> Option<(Option<Seq<char>>, Seq<GTok>)> {
    if ts.len() == 0 {
        None
    } else {
        match ts[0] {
            GTok::Lit(s) => Some((Some(s), ts.skip(1))),
            GTok::Null => Some((None, ts.skip(1))),
            _ => None,
        }
    }
}

/// Parses an optional boolean value.
pub open spec fn sp_v_opt_bool(ts: Seq<GTok>) -> Option<(Option<bool>, Seq<GTok>)> {
    if ts.len() == 0 {
        None
    } else {
        match ts[0] {
            GTok::True => Some((Some(true), ts.skip(1))),
            GTok::False => Some((Some(false), ts.skip(1))),
            GTok::Null => Some((None, ts.skip(1))),
            _ => None,
        }
    }
}

/// Parses a signed 64-bit integer value.
pub open spec fn sp_v_i64(ts: Seq<GTok>) -> Option<(i64, Seq<GTok>)> {
    if ts.len() == 0 {
        None
    } else {
        match ts[0] {
            GTok::Int(n) => if int_min() <= n <= int_max() {
                Some((n as i64, ts.skip(1)))
            } else {
                None
            },
            _ => None,
        }
    }
}

/// Parses an optional signed 64-bit integer value.
pub open spec fn sp_v_opt_i64(ts: Seq<GTok>) -> Option<(Option<i64>, Seq<GTok>)> {
    if ts.len() == 0 {
        None
    } else {
        match ts[0] {
            GTok::Int(n) => if int_min() <= n <= int_max() {
                Some((Some(n as i64), ts.skip(1)))
            } else {
                None
            },
            GTok::Null => Some((None, ts.skip(1))),
            _ => None,
        }
    }
}

/// Parses an unsigned 32-bit integer value.
pub open spec fn sp_v_u32(ts: Seq<GTok>) -> Option<(u32, Seq<GTok>)> {
    if ts.len() == 0 {
        None
    } else {
        match ts[0] {
            GTok::Int(n) => if 0 <= n <= 0xffff_ffff {
                Some((n as u32, ts.skip(1)))
            } else {
                None
            },
            _ => None,
        }
    }
}

/// The elements of a string array after its first element's position, up to
/// and including the closing bracket.
pub open spec fn sp_arr_str_elems(ts: Seq<GTok>) -> Option<(Seq<Seq<char>>, Seq<GTok>)>
    decreases ts.len(),
{
    if ts.len() < 2 {
        None
    } else {
        match ts[0] {
            GTok::Lit(s) => match ts[1] {
                GTok::Comma => match sp_arr_str_elems(ts.skip(2)) {
                    Some((ss, r)) => Some((seq![s] + ss, r)),
                    None => None,
                },
                GTok::RBrack => Some((seq![s], ts.skip(2))),
                _ => None,
            },
            _ => None,
        }
    }
}

/// Parses an array of strings.
pub open spec fn sp_v_arr_str(ts: Seq<GTok>) -> Option<(Seq<Seq<char>>, Seq<GTok>)> {
    if ts.len() < 2 || !(ts[0] is LBrack) {
        None
    } else if ts[1] is RBrack {
        Some((Seq::empty(), ts.skip(2)))
    } else {
        sp_arr_str_elems(ts.skip(1))
    }
}

/// The members of a string-to-string object after its first key's position,
/// up to and including the closing brace.
pub open spec fn sp_map_members(ts: Seq<GTok>) -> Option<
    (Seq<(Seq<char>, Seq<char>)>, Seq<GTok>),
>
    decreases ts.len(),
{
    if ts.len() < 4 {
        None
    } else {
        match (ts[0], ts[1], ts[2], ts[3]) {
            (GTok::Lit(k), GTok::Colon, GTok::Lit(v), GTok::Comma) => match sp_map_members(
                ts.skip(4),
            ) {
                Some((ps, r)) => Some((seq![(k, v)] + ps, r)),
                None => None,
            },
            (GTok::Lit(k), GTok::Colon, GTok::Lit(v), GTok::RBrace) => Some(
                (seq![(k, v)], ts.skip(4)),
            ),
            _ => None,
        }
    }
}

/// Parses an object whose values are all strings, keeping its entries in
/// document order.
pub open spec fn sp_v_map(ts: Seq<GTok>) -> Option<(Seq<(Seq<char>, Seq<char>)>, Seq<GTok>)> {
    if ts.len() < 2 || !(ts[0] is LBrace) {
        None
    } else if ts[1] is RBrace {
        Some((Seq::empty(), ts.skip(2)))
    } else {
        sp_map_members(ts.skip(1))
    }
}

/// Passes over one JSON value of any shape, as unrecognized fields require.
pub open spec fn sp_skip_val(ts: Seq<GTok>) -> Option<Seq<GTok>>
    decreases ts.len(), 0int,
{
    if ts.len() == 0 {
        None
    } else {
        match ts[0] {
            GTok::Lit(_) | GTok::Int(_) | GTok::True | GTok::False | GTok::Null => Some(
                ts.skip(1),
            ),
            GTok::LBrace => if ts.len() >= 2 && ts[1] is RBrace {
                Some(ts.skip(2))
            } else {
                sp_skip_members(ts.skip(1))
            },
            GTok::LBrack => if ts.len() >= 2 && ts[1] is RBrack {
                Some(ts.skip(2))
            } else {
                sp_skip_elems(ts.skip(1))
            },
            _ => None,
        }
    }
}

/// Passes over the members of an object from its first key, including the
/// closing brace.
pub open spec fn sp_skip_members(ts: Seq<GTok>) -> Option<Seq<GTok>>
    decreases ts.len(), 1int,
{
    if ts.len() < 2 {
        None
    } else {
        match (ts[0], ts[1]) {
            (GTok::Lit(_), GTok::Colon) => match sp_skip_val(ts.skip(2)) {
                Some(r) => if r.len() < ts.len() && r.len() >= 1 {
                    if r[0] is Comma {
                        sp_skip_members(r.skip(1))
                    } else if r[0] is RBrace {
                        Some(r.skip(1))
                    } else {
                        None
                    }
                } else {
                    None
                },
                None => None,
            },
            _ => None,
        }
    }
}

/// Passes over the elements of an array from its first element, including
/// the closing bracket.
pub open spec fn sp_skip_elems(ts: Seq<GTok>) -> Option<Seq<GTok>>
    decreases ts.len(), 1int,
{
    if ts.len() == 0 {
        None
    } else {
        match sp_skip_val(ts) {
            Some(r) => if r.len() < ts.len() && r.len() >= 1 {
                if r[0] is Comma {
                    sp_skip_elems(r.skip(1))
                } else if r[0] is RBrack {
                    Some(r.skip(1))
                } else {
                    None
                }
            } else {
                None
            },
            None => None,
        }
    }
}

// ---------------------------------------------------------------------------
// Token-level encoders for values
// ---------------------------------------------------------------------------

/// The trailing elements of an encoded string array, each preceded by a
/// comma, ending with the closing bracket.
pub open spec fn arr_str_tail(ss: Seq<Seq<char>>) -> Seq<GTok>
    decreases ss.len(),
{
    if ss.len() == 0 {
        seq![GTok::RBrack]
    } else {
        seq![GTok::Comma, GTok::Lit(ss[0])] + arr_str_tail(ss.skip(1))
    }
}

/// The tokens of an encoded string array.
pub open spec fn toks_arr_str(ss: Seq<Seq<char>>) -> Seq<GTok> {
    if ss.len() == 0 {
        seq![GTok::LBrack, GTok::RBrack]
    } else {
        seq![GTok::LBrack, GTok::Lit(ss[0])] + arr_str_tail(ss.skip(1))
    }
}

/// The trailing members of an encoded string map, each preceded by a comma,
/// ending with the closing brace.
pub open spec fn map_tail(ps: Seq<(Seq<char>, Seq<char>)>) -> Seq<GTok>
    decreases ps.len(),
{
    if ps.len() == 0 {
        seq![GTok::RBrace]
    } else {
        seq![GTok::Comma, GTok::Lit(ps[0].0), GTok::Colon, GTok::Lit(ps[0].1)] + map_tail(
            ps.skip(1),
        )
    }
}

/// The tokens of an encoded string map, entries in stored order.
pub open spec fn toks_map(ps: Seq<(Seq<char>, Seq<char>)>) -> Seq<GTok> {
    if ps.len() == 0 {
        seq![GTok::LBrace, GTok::RBrace]
    } else {
        seq![GTok::LBrace, GTok::Lit(ps[0].0), GTok::Colon, GTok::Lit(ps[0].1)] + map_tail(
            ps.skip(1),
        )
    }
}

/// Parsing an encoded string array recovers it.
pub proof fn lemma_arr_str_rt(ss: Seq<Seq<char>>, rest: Seq<GTok>)
    ensures
        sp_v_arr_str(toks_arr_str(ss) + rest) == Some((ss, rest)),
{
    let ts = toks_arr_str(ss) + rest;
    if ss.len() == 0 {
        assert(ts.skip(2) =~= rest);
        assert(sp_v_arr_str(ts) == Some((Seq::<Seq<char>>::empty(), rest)));
    } else {
        assert(ts.skip(1) =~= seq![GTok::Lit(ss[0])] + (arr_str_tail(ss.skip(1)) + rest));
        lemma_arr_str_tail_rt(ss[0], ss.skip(1), rest);
        assert(seq![ss[0]] + ss.skip(1) =~= ss);
    }
}

/// Parsing the elements of an encoded string array from its first element
/// recovers them.
proof fn lemma_arr_str_tail_rt(s0: Seq<char>, ss: Seq<Seq<char>>, rest: Seq<GTok>)
    ensures
        sp_arr_str_elems(seq![GTok::Lit(s0)] + (arr_str_tail(ss) + rest)) == Some(
            (seq![s0] + ss, rest),
        ),
    decreases ss.len(),
{
    let ts = seq![GTok::Lit(s0)] + (arr_str_tail(ss) + rest);
    if ss.len() == 0 {
        assert(ts[1] == GTok::RBrack);
        assert(ts.skip(2) =~= rest);
        assert(seq![s0] + ss =~= seq![s0]);
    } else {
        assert(ts[1] == GTok::Comma);
        assert(ts.skip(2) =~= seq![GTok::Lit(ss[0])] + (arr_str_tail(ss.skip(1)) + rest));
        lemma_arr_str_tail_rt(ss[0], ss.skip(1), rest);
        assert(seq![ss[0]] + ss.skip(1) =~= ss);
        assert(seq![s0] + (seq![ss[0]] + ss.skip(1)) =~= seq![s0] + ss);
    }
}

/// Parsing an encoded string map recovers its entries in order.
pub proof fn lemma_map_rt(ps: Seq<(Seq<char>, Seq<char>)>, rest: Seq<GTok>)
    ensures
        sp_v_map(toks_map(ps) + rest) == Some((ps, rest)),
{
    let ts = toks_map(ps) + rest;
    if ps.len() == 0 {
        assert(ts.skip(2) =~= rest);
        assert(sp_v_map(ts) == Some((Seq::<(Seq<char>, Seq<char>)>::empty(), rest)));
    } else {
        assert(ts.skip(1) =~= seq![GTok::Lit(ps[0].0), GTok::Colon, GTok::Lit(ps[0].1)] + (
        map_tail(ps.skip(1)) + rest));
        lemma_map_tail_rt(ps[0], ps.skip(1), rest);
        assert(seq![ps[0]] + ps.skip(1) =~= ps);
    }
}

/// Parsing the members of an encoded string map from its first key recovers
/// them.
proof fn lemma_map_tail_rt(p0: (Seq<char>, Seq<char>), ps: Seq<(Seq<char>, Seq<char>)>, rest: Seq<GTok>)
    ensures
        sp_map_members(
            seq![GTok::Lit(p0.0), GTok::Colon, GTok::Lit(p0.1)] + (map_tail(ps) + rest),
        ) == Some((seq![p0] + ps, rest)),
    decreases ps.len(),
{
    let ts = seq![GTok::Lit(p0.0), GTok::Colon, GTok::Lit(p0.1)] + (map_tail(ps) + rest);
    if ps.len() == 0 {
        assert(ts[3] == GTok::RBrace);
        assert(ts.skip(4) =~= rest);
        assert(seq![p0] + ps =~= seq![p0]);
    } else {
        assert(ts[3] == GTok::Comma);
        assert(ts.skip(4) =~= seq![GTok::Lit(ps[0].0), GTok::Colon, GTok::Lit(ps[0].1)] + (
        map_tail(ps.skip(1)) + rest));
        lemma_map_tail_rt(ps[0], ps.skip(1), rest);
        assert(seq![ps[0]] + ps.skip(1) =~= ps);
        assert(seq![p0] + (seq![ps[0]] + ps.skip(1)) =~= seq![p0] + ps);
    }
}

/// A stream without integer tokens; such a stream is always well separated.
pub open spec fn no_int(ts: Seq<GTok>) -> bool {
    forall|i: int| 0 <= i < ts.len() ==> !(#[trigger] ts[i] is Int)
}

/// Putting two integer-free streams side by side keeps them integer-free.
pub proof fn lemma_no_int_concat(a: Seq<GTok>, b: Seq<GTok>)
    requires
        no_int(a),
        no_int(b),
    ensures
        no_int(a + b),
{
    assert forall|i: int| 0 <= i < (a + b).len() implies !(#[trigger] (a + b)[i] is Int) by {
        if i < a.len() {
            assert((a + b)[i] == a[i]);
        } else {
            assert((a + b)[i] == b[i - a.len()]);
        }
    }
}

/// Well-separated streams stay well separated side by side, as long as an
/// integer does not meet another across the boundary.
pub proof fn lemma_stream_ok_concat(a: Seq<GTok>, b: Seq<GTok>)
    requires
        stream_ok(a),
        stream_ok(b),
        !(a.len() > 0 && a.last() is Int && b.len() > 0 && b[0] is Int),
    ensures
        stream_ok(a + b),
{
    assert(forall|i: int| 0 <= i < (a + b).len() ==> tok_ok(#[trigger] (a + b)[i])) by {
        assert(forall|i: int| 0 <= i < a.len() ==> (a + b)[i] == a[i]);
        assert(forall|i: int| a.len() <= i < (a + b).len() ==> (a + b)[i] == b[i - a.len()]);
    }
    assert forall|i: int| 0 <= i < (a + b).len() - 1 implies !(#[trigger] (a + b)[i] is Int && (a
        + b)[i + 1] is Int) by {
        if i < a.len() - 1 {
            assert((a + b)[i] == a[i] && (a + b)[i + 1] == a[i + 1]);
        } else if i == a.len() - 1 {
            assert((a + b)[i] == a[i] && (a + b)[i + 1] == b[0]);
            assert(a[i] == a.last());
        } else {
            assert((a + b)[i] == b[i - a.len()] && (a + b)[i + 1] == b[i + 1 - a.len()]);
        }
    }
}

/// An integer-free stream is well separated.
pub proof fn lemma_no_int_stream_ok(ts: Seq<GTok>)
    requires
        no_int(ts),
    ensures
        stream_ok(ts),
{
}

/// An encoded string array holds no integer tokens.
pub proof fn lemma_arr_str_no_int(ss: Seq<Seq<char>>)
    ensures
        no_int(toks_arr_str(ss)),
        toks_arr_str(ss).len() >= 2,
        toks_arr_str(ss).last() is RBrack,
    decreases ss.len(),
{
    if ss.len() == 0 {
    } else {
        lemma_arr_str_tail_no_int(ss.skip(1));
        lemma_no_int_concat(seq![GTok::LBrack, GTok::Lit(ss[0])], arr_str_tail(ss.skip(1)));
        assert(toks_arr_str(ss) =~= seq![GTok::LBrack, GTok::Lit(ss[0])] + arr_str_tail(
            ss.skip(1),
        ));
        assert(toks_arr_str(ss).last() == arr_str_tail(ss.skip(1)).last());
    }
}

/// The tail of an encoded string array holds no integer tokens.
proof fn lemma_arr_str_tail_no_int(ss: Seq<Seq<char>>)
    ensures
        no_int(arr_str_tail(ss)),
        arr_str_tail(ss).len() >= 1,
        arr_str_tail(ss).last() is RBrack,
    decreases ss.len(),
{
    if ss.len() == 0 {
    } else {
        lemma_arr_str_tail_no_int(ss.skip(1));
        lemma_no_int_concat(seq![GTok::Comma, GTok::Lit(ss[0])], arr_str_tail(ss.skip(1)));
        assert(arr_str_tail(ss).last() == arr_str_tail(ss.skip(1)).last());
    }
}

/// An encoded string map holds no integer tokens.
pub proof fn lemma_map_no_int(ps: Seq<(Seq<char>, Seq<char>)>)
    ensures
        no_int(toks_map(ps)),
        toks_map(ps).len() >= 2,
        toks_map(ps).last() is RBrace,
    decreases ps.len(),
{
    if ps.len() == 0 {
    } else {
        lemma_map_tail_no_int(ps.skip(1));
        lemma_no_int_concat(
            seq![GTok::LBrace, GTok::Lit(ps[0].0), GTok::Colon, GTok::Lit(ps[0].1)],
            map_tail(ps.skip(1)),
        );
        assert(toks_map(ps).last() == map_tail(ps.skip(1)).last());
    }
}

/// The tail of an encoded string map holds no integer tokens.
proof fn lemma_map_tail_no_int(ps: Seq<(Seq<char>, Seq<char>)>)
    ensures
        no_int(map_tail(ps)),
        map_tail(ps).len() >= 1,
        map_tail(ps).last() is RBrace,
    decreases ps.len(),
{
    if ps.len() == 0 {
    } else {
        lemma_map_tail_no_int(ps.skip(1));
        lemma_no_int_concat(
            seq![GTok::Comma, GTok::Lit(ps[0].0), GTok::Colon, GTok::Lit(ps[0].1)],
            map_tail(ps.skip(1)),
        );
        assert(map_tail(ps).last() == map_tail(ps.skip(1)).last());
    }
}

/// A twice-optional value flattened: an unseen field and an explicit null
/// both mean absent.
pub open spec fn flat<A>(x: Option<Option<A>>) -> Option<A> {
    match x {
        Some(y) => y,
        None => None,
    }
}

// ---------------------------------------------------------------------------
// Executable token-level helpers
// ---------------------------------------------------------------------------

/// Appends one token.
pub fn push_tok(out: &mut Vec<Token>, t: Token)
    ensures
        final(out).deep_view() == old(out).deep_view() + seq![t@],
{
    let ghost o = out.deep_view();
    let ghost gt = t@;
    out.push(t);
    proof {
        assert(out.deep_view() =~= o + seq![gt]);
    }
}

/// Whether a parsed string equals a fixed name.
pub fn str_eq_lit(a: &String, b: &str) -> (r: bool)
    ensures
        r == (a@ == b@),
{
    let bo = b.to_owned();
    a.eq(&bo)
}

/// Appends the trailing elements of a string array, comma-separated, and the
/// closing bracket.
fn push_arr_str_tail(out: &mut Vec<Token>, v: &Vec<String>, i: usize)
    requires
        i <= v.len(),
    ensures
        final(out).deep_view() == old(out).deep_view() + arr_str_tail(v.deep_view().skip(i as int)),
    decreases v.len() - i,
{
    let ghost dv = v.deep_view();
    if i == v.len() {
        push_tok(out, Token::RBrack);
        assert(out.deep_view() =~= old(out).deep_view() + arr_str_tail(dv.skip(i as int)));
    } else {
        push_tok(out, Token::Comma);
        push_tok(out, Token::Lit(v[i].clone()));
        assert(dv.skip(i as int)[0] == dv[i as int]);
        push_arr_str_tail(out, v, i + 1);
        assert(dv.skip(i as int).skip(1) =~= dv.skip(i as int + 1));
        assert(out.deep_view() =~= old(out).deep_view() + arr_str_tail(dv.skip(i as int)));
    }
}

/// Appends the tokens of an encoded string array.
pub fn push_arr_str(out: &mut Vec<Token>, v: &Vec<String>)
    ensures
        final(out).deep_view() == old(out).deep_view() + toks_arr_str(v.deep_view()),
{
    let ghost dv = v.deep_view();
    push_tok(out, Token::LBrack);
    if v.len() == 0 {
        push_tok(out, Token::RBrack);
        assert(out.deep_view() =~= old(out).deep_view() + toks_arr_str(dv));
    } else {
        push_tok(out, Token::Lit(v[0].clone()));
        push_arr_str_tail(out, v, 1);
        assert(dv.skip(1) =~= dv.skip(1));
        assert(out.deep_view() =~= old(out).deep_view() + toks_arr_str(dv));
    }
}

/// Appends the trailing members of a string map, comma-separated, and the
/// closing brace.
fn push_map_tail(out: &mut Vec<Token>, v: &Vec<(String, String)>, i: usize)
    requires
        i <= v.len(),
    ensures
        final(out).deep_view() == old(out).deep_view() + map_tail(v.deep_view().skip(i as int)),
    decreases v.len() - i,
{
    let ghost dv = v.deep_view();
    if i == v.len() {
        push_tok(out, Token::RBrace);
        assert(out.deep_view() =~= old(out).deep_view() + map_tail(dv.skip(i as int)));
    } else {
        push_tok(out, Token::Comma);
        push_tok(out, Token::Lit(v[i].0.clone()));
        push_tok(out, Token::Colon);
        push_tok(out, Token::Lit(v[i].1.clone()));
        assert(dv.skip(i as int)[0] == dv[i as int]);
        push_map_tail(out, v, i + 1);
        assert(dv.skip(i as int).skip(1) =~= dv.skip(i as int + 1));
        assert(out.deep_view() =~= old(out).deep_view() + map_tail(dv.skip(i as int)));
    }
}

/// Appends the tokens of an encoded string map.
pub fn push_map(out: &mut Vec<Token>, v: &Vec<(String, String)>)
    ensures
        final(out).deep_view() == old(out).deep_view() + toks_map(v.deep_view()),
{
    let ghost dv = v.deep_view();
    push_tok(out, Token::LBrace);
    if v.len() == 0 {
        push_tok(out, Token::RBrace);
        assert(out.deep_view() =~= old(out).deep_view() + toks_map(dv));
    } else {
        push_tok(out, Token::Lit(v[0].0.clone()));
        push_tok(out, Token::Colon);
        push_tok(out, Token::Lit(v[0].1.clone()));
        push_map_tail(out, v, 1);
        assert(out.deep_view() =~= old(out).deep_view() + toks_map(dv));
    }
}

/// Parses an array of strings, mirroring [`sp_v_arr_str`].
pub fn p_arr_str(ts: &Vec<Token>, i: usize) -> (r: Option<(Vec<String>, usize)>)
    requires
        i <= ts.len(),
    ensures
        match r {
            Some((v, j)) => i < j <= ts.len() && sp_v_arr_str(ts.deep_view().skip(i as int))
                == Some((v.deep_view(), ts.deep_view().skip(j as int))),
            None => sp_v_arr_str(ts.deep_view().skip(i as int)) is None,
        },
{
    let ghost dv = ts.deep_view();
    let ghost pre = dv.skip(i as int);
    if ts.len() - i < 2 {
        return None;
    }
    assert(pre[0] == dv[i as int] && pre[1] == dv[i as int + 1]);
    if !matches!(&ts[i], Token::LBrack) {
        return None;
    }
    if matches!(&ts[i + 1], Token::RBrack) {
        let out: Vec<String> = Vec::new();
        assert(pre.skip(2) =~= dv.skip(i as int + 2));
        assert(out.deep_view() =~= Seq::<Seq<char>>::empty());
        return Some((out, i + 2));
    }
    assert(pre.skip(1) =~= dv.skip(i as int + 1));
    assert(sp_v_arr_str(pre) == sp_arr_str_elems(dv.skip(i as int + 1)));
    let mut out: Vec<String> = Vec::new();
    let mut k: usize = i + 1;
    loop
        invariant
            i + 1 <= k <= ts.len(),
            dv == ts.deep_view(),
            dv.len() == ts.len(),
            sp_v_arr_str(dv.skip(i as int)) == sp_arr_str_elems(dv.skip(i as int + 1)),
            match sp_arr_str_elems(dv.skip(k as int)) {
                Some((ss2, r2)) => sp_arr_str_elems(dv.skip(i as int + 1)) == Some(
                    (out.deep_view() + ss2, r2),
                ),
                None => sp_arr_str_elems(dv.skip(i as int + 1)) is None,
            },
        decreases ts.len() - k,
    {
        let ghost cur = dv.skip(k as int);
        if ts.len() - k < 2 {
            assert(cur.len() < 2);
            return None;
        }
        assert(cur[0] == dv[k as int] && cur[1] == dv[k as int + 1]);
        let s: String;
        match &ts[k] {
            Token::Lit(s0) => {
                s = s0.clone();
            },
            _ => {
                return None;
            },
        }
        let ghost old_dv = out.deep_view();
        match &ts[k + 1] {
            Token::Comma => {
                out.push(s);
                assert(cur.skip(2) =~= dv.skip(k as int + 2));
                proof {
                    assert(out.deep_view() =~= old_dv + seq![s@]);
                    match sp_arr_str_elems(dv.skip(k as int + 2)) {
                        Some((ss3, r3)) => {
                            assert(sp_arr_str_elems(cur) == Some((seq![s@] + ss3, r3)));
                            assert(old_dv + (seq![s@] + ss3) =~= (old_dv + seq![s@]) + ss3);
                        },
                        None => {},
                    }
                }
                k = k + 2;
            },
            Token::RBrack => {
                out.push(s);
                assert(cur.skip(2) =~= dv.skip(k as int + 2));
                proof {
                    assert(out.deep_view() =~= old_dv + seq![s@]);
                    assert(sp_arr_str_elems(cur) == Some((seq![s@], dv.skip(k as int + 2))));
                    assert(old_dv + seq![s@] =~= out.deep_view());
                }
                return Some((out, k + 2));
            },
            _ => {
                return None;
            },
        }
    }
}

/// Parses an object of string values, mirroring [`sp_v_map`].
pub fn p_map(ts: &Vec<Token>, i: usize) -> (r: Option<(Vec<(String, String)>, usize)>)
    requires
        i <= ts.len(),
    ensures
        match r {
            Some((v, j)) => i < j <= ts.len() && sp_v_map(ts.deep_view().skip(i as int)) == Some(
                (v.deep_view(), ts.deep_view().skip(j as int)),
            ),
            None => sp_v_map(ts.deep_view().skip(i as int)) is None,
        },
{
    let ghost dv = ts.deep_view();
    let ghost pre = dv.skip(i as int);
    if ts.len() - i < 2 {
        return None;
    }
    assert(pre[0] == dv[i as int] && pre[1] == dv[i as int + 1]);
    if !matches!(&ts[i], Token::LBrace) {
        return None;
    }
    if matches!(&ts[i + 1], Token::RBrace) {
        let out: Vec<(String, String)> = Vec::new();
        assert(pre.skip(2) =~= dv.skip(i as int + 2));
        assert(out.deep_view() =~= Seq::<(Seq<char>, Seq<char>)>::empty());
        return Some((out, i + 2));
    }
    assert(pre.skip(1) =~= dv.skip(i as int + 1));
    assert(sp_v_map(pre) == sp_map_members(dv.skip(i as int + 1)));
    let mut out: Vec<(String, String)> = Vec::new();
    let mut k: usize = i + 1;
    loop
        invariant
            i + 1 <= k <= ts.len(),
            dv == ts.deep_view(),
            dv.len() == ts.len(),
            sp_v_map(dv.skip(i as int)) == sp_map_members(dv.skip(i as int + 1)),
            match sp_map_members(dv.skip(k as int)) {
                Some((ps2, r2)) => sp_map_members(dv.skip(i as int + 1)) == Some(
                    (out.deep_view() + ps2, r2),
                ),
                None => sp_map_members(dv.skip(i as int + 1)) is None,
            },
        decreases ts.len() - k,
    {
        let ghost cur = dv.skip(k as int);
        if ts.len() - k < 4 {
            assert(cur.len() < 4);
            return None;
        }
        assert(cur[0] == dv[k as int] && cur[1] == dv[k as int + 1] && cur[2] == dv[k as int + 2]
            && cur[3] == dv[k as int + 3]);
        let key: String;
        match &ts[k] {
            Token::Lit(k0) => {
                key = k0.clone();
            },
            _ => {
                return None;
            },
        }
        if !matches!(&ts[k + 1], Token::Colon) {
            return None;
        }
        let val: String;
        match &ts[k + 2] {
            Token::Lit(v0) => {
                val = v0.clone();
            },
            _ => {
                return None;
            },
        }
        let ghost gp = (key@, val@);
        let ghost old_dv = out.deep_view();
        match &ts[k + 3] {
            Token::Comma => {
                out.push((key, val));
                assert(cur.skip(4) =~= dv.skip(k as int + 4));
                proof {
                    assert(out.deep_view() =~= old_dv + seq![gp]);
                    match sp_map_members(dv.skip(k as int + 4)) {
                        Some((ps3, r3)) => {
                            assert(sp_map_members(cur) == Some((seq![gp] + ps3, r3)));
                            assert(old_dv + (seq![gp] + ps3) =~= (old_dv + seq![gp]) + ps3);
                        },
                        None => {},
                    }
                }
                k = k + 4;
            },
            Token::RBrace => {
                out.push((key, val));
                assert(cur.skip(4) =~= dv.skip(k as int + 4));
                proof {
                    assert(out.deep_view() =~= old_dv + seq![gp]);
                    assert(sp_map_members(cur) == Some((seq![gp], dv.skip(k as int + 4))));
                }
                return Some((out, k + 4));
            },
            _ => {
                return None;
            },
        }
    }
}

/// Passes over one value, mirroring [`sp_skip_val`].
pub fn skip_val_exec(ts: &Vec<Token>, i: usize) -> (r: Option<usize>)
    requires
        i <= ts.len(),
    ensures
        match r {
            Some(j) => i < j <= ts.len() && sp_skip_val(ts.deep_view().skip(i as int)) == Some(
                ts.deep_view().skip(j as int),
            ),
            None => sp_skip_val(ts.deep_view().skip(i as int)) is None,
        },
    decreases ts.len() - i, 0int,
{
    let ghost dv = ts.deep_view();
    let ghost pre = dv.skip(i as int);
    if i == ts.len() {
        return None;
    }
    assert(pre[0] == dv[i as int]);
    assert(pre.skip(1) =~= dv.skip(i as int + 1));
    match &ts[i] {
        Token::Lit(_) | Token::Int(_) | Token::True | Token::False | Token::Null => Some(i + 1),
        Token::LBrace => {
            if ts.len() - i >= 2 {
                assert(pre[1] == dv[i as int + 1]);
                if matches!(&ts[i + 1], Token::RBrace) {
                    assert(pre.skip(2) =~= dv.skip(i as int + 2));
                    return Some(i + 2);
                }
            }
            skip_members_exec(ts, i + 1)
        },
        Token::LBrack => {
            if ts.len() - i >= 2 {
                assert(pre[1] == dv[i as int + 1]);
                if matches!(&ts[i + 1], Token::RBrack) {
                    assert(pre.skip(2) =~= dv.skip(i as int + 2));
                    return Some(i + 2);
                }
            }
            skip_elems_exec(ts, i + 1)
        },
        _ => None,
    }
}

/// Passes over object members, mirroring [`sp_skip_members`].
fn skip_members_exec(ts: &Vec<Token>, i: usize) -> (r: Option<usize>)
    requires
        i <= ts.len(),
    ensures
        match r {
            Some(j) => i < j <= ts.len() && sp_skip_members(ts.deep_view().skip(i as int)) == Some(
                ts.deep_view().skip(j as int),
            ),
            None => sp_skip_members(ts.deep_view().skip(i as int)) is None,
        },
    decreases ts.len() - i, 1int,
{
    let ghost dv = ts.deep_view();
    let ghost pre = dv.skip(i as int);
    if ts.len() - i < 2 {
        assert(pre.len() < 2);
        return None;
    }
    assert(pre[0] == dv[i as int] && pre[1] == dv[i as int + 1]);
    if !matches!(&ts[i], Token::Lit(_)) {
        return None;
    }
    if !matches!(&ts[i + 1], Token::Colon) {
        return None;
    }
    assert(pre.skip(2) =~= dv.skip(i as int + 2));
    match skip_val_exec(ts, i + 2) {
        None => None,
        Some(j2) => {
            let ghost r2 = dv.skip(j2 as int);
            assert(r2.len() < pre.len());
            if j2 == ts.len() {
                assert(r2.len() == 0);
                return None;
            }
            assert(r2[0] == dv[j2 as int]);
            assert(r2.skip(1) =~= dv.skip(j2 as int + 1));
            match &ts[j2] {
                Token::Comma => skip_members_exec(ts, j2 + 1),
                Token::RBrace => Some(j2 + 1),
                _ => None,
            }
        },
    }
}

/// Passes over array elements, mirroring [`sp_skip_elems`].
fn skip_elems_exec(ts: &Vec<Token>, i: usize) -> (r: Option<usize>)
    requires
        i <= ts.len(),
    ensures
        match r {
            Some(j) => i < j <= ts.len() && sp_skip_elems(ts.deep_view().skip(i as int)) == Some(
                ts.deep_view().skip(j as int),
            ),
            None => sp_skip_elems(ts.deep_view().skip(i as int)) is None,
        },
    decreases ts.len() - i, 1int,
{
    let ghost dv = ts.deep_view();
    let ghost pre = dv.skip(i as int);
    if i == ts.len() {
        return None;
    }
    match skip_val_exec(ts, i) {
        None => None,
        Some(j2) => {
            let ghost r2 = dv.skip(j2 as int);
            assert(r2.len() < pre.len());
            if j2 == ts.len() {
                assert(r2.len() == 0);
                return None;
            }
            assert(r2[0] == dv[j2 as int]);
            assert(r2.skip(1) =~= dv.skip(j2 as int + 1));
            match &ts[j2] {
                Token::Comma => skip_elems_exec(ts, j2 + 1),
                Token::RBrack => Some(j2 + 1),
                _ => None,
            }
        },
    }
}

} // verus!
