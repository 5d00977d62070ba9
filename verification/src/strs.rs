//! String builtins: prefix and suffix tests, trimming, quoting escapes,
//! and the encodings that outside crates compute.

use vstd::prelude::*;

use crate::intr::{str_chars, string_from_chars};
use crate::ops::{int_norm, Error, ErrorV, ValR, vr_view};
use crate::parse::is_ws;
use crate::val::{Val, ValV};
use base64::Engine;
use vstd::string::StringSliceAdditionalSpecFns;
use vstd::utf8::{encode_utf8, valid_utf8};

verus! {

/// The models of a list of strings.
pub open spec fn strs_view(s: Seq<String>) -> Seq<Seq<char>> {
    s.map_values(|x: String| x@)
}

/// `utf8bytelength`: the number of bytes in a string's UTF-8 encoding.
pub open spec fn utf8len_spec(v: ValV) -> Result<ValV, ErrorV> {
    match v {
        ValV::Str(s) => int_norm(encode_utf8(s).len() as int),
        x => Err(ErrorV::Typ(x, "string"@)),
    }
}

/// Whether `p` is a prefix of `s`.
pub open spec fn is_prefix(s: Seq<char>, p: Seq<char>) -> bool {
    p.len() <= s.len() && s.take(p.len() as int) == p
}

/// Whether `p` is a suffix of `s`.
pub open spec fn is_suffix(s: Seq<char>, p: Seq<char>) -> bool {
    p.len() <= s.len() && s.skip(s.len() - p.len()) == p
}

/// `startswith` and `endswith` over two string values.
pub open spec fn with_spec(v: ValV, p: ValV, suffix: bool) -> Result<ValV, ErrorV> {
    match (v, p) {
        (ValV::Str(s), ValV::Str(q)) => Ok(
            ValV::Bool(
                if suffix {
                    is_suffix(s, q)
                } else {
                    is_prefix(s, q)
                },
            ),
        ),
        (ValV::Str(_), y) => Err(ErrorV::Typ(y, "string"@)),
        (x, _) => Err(ErrorV::Typ(x, "string"@)),
    }
}

/// `ltrimstr`: the string without the prefix when it is there, else
/// unchanged; a non-string passes through untouched.
pub open spec fn ltrimstr_spec(v: ValV, p: ValV) -> Result<ValV, ErrorV> {
    match (v, p) {
        (ValV::Str(s), ValV::Str(q)) => if is_prefix(s, q) {
            Ok(ValV::Str(s.skip(q.len() as int)))
        } else {
            Ok(ValV::Str(s))
        },
        (ValV::Str(_), y) => Err(ErrorV::Typ(y, "string"@)),
        (x, _) => Err(ErrorV::Typ(x, "string"@)),
    }
}

/// `rtrimstr`: the string without the suffix when it is there.
pub open spec fn rtrimstr_spec(v: ValV, p: ValV) -> Result<ValV, ErrorV> {
    match (v, p) {
        (ValV::Str(s), ValV::Str(q)) => if is_suffix(s, q) {
            Ok(ValV::Str(s.take(s.len() - q.len())))
        } else {
            Ok(ValV::Str(s))
        },
        (ValV::Str(_), y) => Err(ErrorV::Typ(y, "string"@)),
        (x, _) => Err(ErrorV::Typ(x, "string"@)),
    }
}

/// The first position without leading whitespace.
pub open spec fn ws_start(s: Seq<char>) -> int {
    crate::parse::skip_ws(s, 0)
}

/// The position after the last trailing whitespace.
pub open spec fn ws_end(s: Seq<char>, i: int) -> int
    decreases i,
{
    if i > 0 && i <= s.len() && is_ws(s[i - 1]) {
        ws_end(s, i - 1)
    } else {
        i
    }
}

/// `trim`, `ltrim` and `rtrim` over a string value, dropping spaces,
/// tabs and line breaks.
pub open spec fn trim_spec(v: ValV, left: bool, right: bool) -> Result<ValV, ErrorV> {
    match v {
        ValV::Str(s) => {
            let lo = if left {
                ws_start(s)
            } else {
                0
            };
            let hi = if right {
                ws_end(s, s.len() as int)
            } else {
                s.len() as int
            };
            if lo <= hi {
                Ok(ValV::Str(s.subrange(lo, hi)))
            } else {
                Ok(ValV::Str(Seq::empty()))
            }
        },
        x => Err(ErrorV::Typ(x, "string"@)),
    }
}

/// `escape_csv`: every double quote doubled.
pub open spec fn csv_esc(s: Seq<char>) -> Seq<char>
    decreases s.len(),
{
    if s.len() == 0 {
        Seq::empty()
    } else {
        (if s[0] == '"' {
            seq!['"', '"']
        } else {
            seq![s[0]]
        }) + csv_esc(s.drop_first())
    }
}

/// `escape_sh`: every single quote becomes `'\''`.
pub open spec fn sh_esc(s: Seq<char>) -> Seq<char>
    decreases s.len(),
{
    if s.len() == 0 {
        Seq::empty()
    } else {
        (if s[0] == '\'' {
            seq!['\'', '\\', '\'', '\'']
        } else {
            seq![s[0]]
        }) + sh_esc(s.drop_first())
    }
}

/// Whether a byte needs no percent-encoding in a URI.
pub open spec fn uri_plain(b: u8) -> bool {
    (48 <= b <= 57) || (65 <= b <= 90) || (97 <= b <= 122) || b == 45 || b == 46 || b == 95 || b
        == 126
}

/// An upper-case hexadecimal digit character.
pub open spec fn hex_upper(d: int) -> char
    recommends
        0 <= d < 16,
{
    if d < 10 {
        (('0' as u32) + d as u32) as char
    } else {
        (('A' as u32) + (d - 10) as u32) as char
    }
}

/// Percent-encoding of a byte sequence: every byte except the
/// alphanumerics and `-`, `.`, `_`, `~` becomes `%` and two upper-case
/// hex digits.
pub open spec fn uri_enc(bs: Seq<u8>) -> Seq<char>
    decreases bs.len(),
{
    if bs.len() == 0 {
        Seq::empty()
    } else {
        (if uri_plain(bs[0]) {
            seq![(bs[0] as u32) as char]
        } else {
            seq!['%', hex_upper(bs[0] as int / 16), hex_upper(bs[0] as int % 16)]
        }) + uri_enc(bs.drop_first())
    }
}

/// What URI decoding yields on a string, when its percent sequences and
/// the resulting bytes form UTF-8 text.
pub uninterp spec fn uri_dec_of(s: Seq<char>) -> Option<Seq<char>>;

/// The base64 text of a byte sequence, standard alphabet with padding.
pub uninterp spec fn b64_of(bs: Seq<u8>) -> Seq<char>;

/// The bytes a base64 text denotes, when it is valid.
pub uninterp spec fn b64_dec_of(s: Seq<char>) -> Option<Seq<u8>>;

/// What replacing every occurrence of the patterns by the paired
/// replacements yields, leftmost occurrence first.
pub uninterp spec fn replace_all_of(
    s: Seq<char>,
    pats: Seq<Seq<char>>,
    reps: Seq<Seq<char>>,
) -> Seq<char>;

/// Relies on `urlencoding::encode`: percent-encodes every byte of the
/// UTF-8 text except the alphanumerics and `-`, `_`, `.`, `~`, with
/// upper-case hex digits.
#[verifier::external_body]
fn uri_encode(s: &str) -> (r: String)
    ensures
        r@ == uri_enc(s.spec_bytes()),
{
    urlencoding::encode(s).into_owned()
}

/// Relies on `urlencoding::decode`: replaces each `%` followed by two
/// hex digits by the byte they denote, and fails exactly when the bytes
/// are not UTF-8; text without `%` comes back unchanged.
#[verifier::external_body]
fn uri_decode(s: &str) -> (r: Option<String>)
    ensures
        match r {
            Some(d) => uri_dec_of(s@) == Some(d@) && ((forall|i: int|
                0 <= i < s@.len() ==> s@[i] != '%') ==> d@ == s@),
            None => uri_dec_of(s@) is None && (exists|i: int| 0 <= i < s@.len() && s@[i] == '%'),
        },
{
    match urlencoding::decode(s) {
        Ok(d) => Some(d.into_owned()),
        Err(_) => None,
    }
}

/// Relies on base64's standard-alphabet engine: encodes bytes as padded
/// base64 text of four characters per three bytes, and decoding the
/// result gives the bytes back.
#[verifier::external_body]
fn b64_encode(s: &str) -> (r: String)
    ensures
        r@ == b64_of(s.spec_bytes()),
        r@.len() == 4 * ((s.spec_bytes().len() + 2) / 3),
        b64_dec_of(r@) == Some(s.spec_bytes()),
{
    base64::engine::general_purpose::STANDARD.encode(s)
}

/// Relies on base64's standard-alphabet engine: `Ok` exactly on valid
/// padded base64 text, giving the bytes it denotes.
#[verifier::external_body]
fn b64_decode(s: &str) -> (r: Option<Vec<u8>>)
    ensures
        match r {
            Some(d) => b64_dec_of(s@) == Some(d@),
            None => b64_dec_of(s@) is None,
        },
{
    base64::engine::general_purpose::STANDARD.decode(s).ok()
}

/// Relies on `String::from_utf8`: `Ok` exactly on UTF-8 bytes, giving
/// the text they encode.
#[verifier::external_body]
fn utf8_string(bs: Vec<u8>) -> (r: Option<String>)
    ensures
        r matches Some(s) ==> encode_utf8(s@) == bs@,
        r is Some <==> valid_utf8(bs@),
{
    String::from_utf8(bs).ok()
}

/// Relies on `aho_corasick::AhoCorasick::replace_all`: replaces every
/// occurrence of a pattern by the replacement at the same position,
/// taking the leftmost occurrence first; `None` when the automaton
/// cannot be built, which its source allows only when the patterns would
/// exceed internal size limits — a handful of patterns of a few
/// characters each is far below them.
#[verifier::external_body]
fn replace_all(s: &str, pats: &Vec<String>, reps: &Vec<String>) -> (r: Option<String>)
    requires
        pats@.len() == reps@.len(),
    ensures
        r matches Some(t) ==> t@ == replace_all_of(s@, strs_view(pats@), strs_view(reps@)),
        (pats@.len() <= 8 && (forall|i: int| 0 <= i < pats@.len() ==> (#[trigger] pats@[i])@.len()
            <= 8)) ==> r is Some,
{
    match aho_corasick::AhoCorasick::new(pats) {
        Ok(ac) => Some(ac.replace_all(s, reps)),
        Err(_) => None,
    }
}

/// The HTML escape table: patterns, then replacements.
pub open spec fn html_pats() -> Seq<Seq<char>> {
    seq!["<"@, ">"@, "&"@, "'"@, "\""@]
}

/// The replacements of the HTML escape table.
pub open spec fn html_reps() -> Seq<Seq<char>> {
    seq!["&lt;"@, "&gt;"@, "&amp;"@, "&apos;"@, "&quot;"@]
}

/// The TSV escape table: patterns, then replacements.
pub open spec fn tsv_pats() -> Seq<Seq<char>> {
    seq!["\n"@, "\r"@, "\t"@, "\\"@, "\0"@]
}

/// The replacements of the TSV escape table.
pub open spec fn tsv_reps() -> Seq<Seq<char>> {
    seq!["\\n"@, "\\r"@, "\\t"@, "\\\\"@, "\\0"@]
}

impl Val {
    /// The number of bytes in a string's UTF-8 encoding.
    pub fn utf8bytelength(&self) -> (r: ValR)
        ensures
            vr_view(r) == utf8len_spec(self@),
    {
        match self {
            Val::Str(s) => {
                let n = s.as_str().as_bytes().len() as u64;
                if n <= i64::MAX as u64 {
                    Ok(Val::Int(n as i64))
                } else {
                    Err(Error::Str("integer overflow".to_owned()))
                }
            },
            _ => Err(Error::Typ(self.clone(), "string".to_owned())),
        }
    }

    /// Whether a string starts (or, with the flag, ends) with another.
    #[verifier::loop_isolation(false)]
    pub fn starts_or_ends_with(&self, p: &Val, suffix: bool) -> (r: ValR)
        ensures
            vr_view(r) == with_spec(self@, p@, suffix),
    {
        match (self, p) {
            (Val::Str(s), Val::Str(q)) => {
                let cs = str_chars(s.as_str());
                let ps = str_chars(q.as_str());
                if ps.len() > cs.len() {
                    return Ok(Val::Bool(false));
                }
                let off: usize = if suffix {
                    cs.len() - ps.len()
                } else {
                    0
                };
                let mut j: usize = 0;
                let mut good = true;
                while j < ps.len() && good
                    invariant
                        0 <= j <= ps@.len(),
                        ps@.len() <= cs@.len(),
                        off == if suffix {
                            cs@.len() - ps@.len()
                        } else {
                            0
                        },
                        good ==> forall|t: int| 0 <= t < j ==> s@[off + t] == q@[t],
                        !good ==> exists|t: int| 0 <= t < ps@.len() && s@[off + t] != q@[t],
                    decreases ps@.len() - j, if good {
                        1int
                    } else {
                        0int
                    },
                {
                    if cs[off + j] != ps[j] {
                        good = false;
                    } else {
                        j = j + 1;
                    }
                }
                proof {
                    if suffix {
                        if good {
                            assert(s@.skip(s@.len() - q@.len()) =~= q@);
                        } else {
                            assert(s@.skip(s@.len() - q@.len()) != q@) by {
                                let t = choose|t: int|
                                    0 <= t < q@.len() && s@[off + t] != q@[t];
                                assert(s@.skip(s@.len() - q@.len())[t] == s@[off + t]);
                            }
                        }
                    } else {
                        if good {
                            assert(s@.take(q@.len() as int) =~= q@);
                        } else {
                            assert(s@.take(q@.len() as int) != q@) by {
                                let t = choose|t: int|
                                    0 <= t < q@.len() && s@[off + t] != q@[t];
                                assert(s@.take(q@.len() as int)[t] == s@[t]);
                            }
                        }
                    }
                }
                Ok(Val::Bool(good))
            },
            (Val::Str(_), y) => Err(Error::Typ(y.clone(), "string".to_owned())),
            _ => Err(Error::Typ(self.clone(), "string".to_owned())),
        }
    }

    /// Remove a prefix, when it is there.
    pub fn ltrimstr(&self, p: &Val) -> (r: ValR)
        ensures
            vr_view(r) == ltrimstr_spec(self@, p@),
    {
        match (self, p) {
            (Val::Str(s), Val::Str(q)) => match self.starts_or_ends_with(p, false) {
                Ok(Val::Bool(true)) => {
                    let cs = str_chars(s.as_str());
                    let ps = str_chars(q.as_str());
                    let mut out: Vec<char> = Vec::new();
                    let mut j: usize = ps.len();
                    while j < cs.len()
                        invariant
                            ps@.len() <= j <= cs@.len(),
                            cs@ == s@,
                            ps@ == q@,
                            out@ == s@.subrange(q@.len() as int, j as int),
                        decreases cs@.len() - j,
                    {
                        let c = cs[j];
                        out.push(c);
                        proof {
                            assert(out@ =~= s@.subrange(q@.len() as int, j + 1));
                        }
                        j = j + 1;
                    }
                    proof {
                        assert(s@.subrange(q@.len() as int, s@.len() as int) =~= s@.skip(
                            q@.len() as int,
                        ));
                    }
                    Ok(Val::Str(string_from_chars(out)))
                },
                _ => Ok(self.clone()),
            },
            (Val::Str(_), y) => Err(Error::Typ(y.clone(), "string".to_owned())),
            _ => Err(Error::Typ(self.clone(), "string".to_owned())),
        }
    }

    /// Remove a suffix, when it is there.
    pub fn rtrimstr(&self, p: &Val) -> (r: ValR)
        ensures
            vr_view(r) == rtrimstr_spec(self@, p@),
    {
        match (self, p) {
            (Val::Str(s), Val::Str(q)) => match self.starts_or_ends_with(p, true) {
                Ok(Val::Bool(true)) => {
                    let cs = str_chars(s.as_str());
                    let ps = str_chars(q.as_str());
                    let keep = cs.len() - ps.len();
                    let mut out: Vec<char> = Vec::new();
                    let mut j: usize = 0;
                    while j < keep
                        invariant
                            0 <= j <= keep,
                            keep == cs@.len() - ps@.len(),
                            cs@ == s@,
                            ps@ == q@,
                            out@ == s@.take(j as int),
                        decreases keep - j,
                    {
                        let c = cs[j];
                        out.push(c);
                        proof {
                            assert(out@ =~= s@.take(j + 1));
                        }
                        j = j + 1;
                    }
                    Ok(Val::Str(string_from_chars(out)))
                },
                _ => Ok(self.clone()),
            },
            (Val::Str(_), y) => Err(Error::Typ(y.clone(), "string".to_owned())),
            _ => Err(Error::Typ(self.clone(), "string".to_owned())),
        }
    }

    /// Trim whitespace from the chosen sides.
    #[verifier::loop_isolation(false)]
    pub fn trim_ws(&self, left: bool, right: bool) -> (r: ValR)
        ensures
            vr_view(r) == trim_spec(self@, left, right),
    {
        match self {
            Val::Str(s) => {
                let cs = str_chars(s.as_str());
                let lo: usize = if left {
                    let mut i: usize = 0;
                    while i < cs.len() && ws_exec2(cs[i])
                        invariant
                            0 <= i <= cs@.len(),
                            crate::parse::skip_ws(s@, 0) == crate::parse::skip_ws(s@, i as int),
                        decreases cs@.len() - i,
                    {
                        i = i + 1;
                    }
                    i
                } else {
                    0
                };
                let hi: usize = if right {
                    let mut i: usize = cs.len();
                    while i > 0 && ws_exec2(cs[i - 1])
                        invariant
                            0 <= i <= cs@.len(),
                            ws_end(s@, s@.len() as int) == ws_end(s@, i as int),
                        decreases i,
                    {
                        i = i - 1;
                    }
                    i
                } else {
                    cs.len()
                };
                proof {
                    if left {
                        crate::parse::lemma_skip_ws(s@, 0);
                    }
                }
                let mut out: Vec<char> = Vec::new();
                if lo < hi {
                    let mut j: usize = lo;
                    while j < hi
                        invariant
                            lo <= j <= hi <= cs@.len(),
                            out@ == s@.subrange(lo as int, j as int),
                        decreases hi - j,
                    {
                        let c = cs[j];
                        out.push(c);
                        proof {
                            assert(out@ =~= s@.subrange(lo as int, j + 1));
                        }
                        j = j + 1;
                    }
                } else {
                    proof {
                        if (if left {
                            ws_start(s@)
                        } else {
                            0
                        }) <= (if right {
                            ws_end(s@, s@.len() as int)
                        } else {
                            s@.len() as int
                        }) {
                            assert(s@.subrange(lo as int, hi as int) =~= Seq::<char>::empty());
                        }
                        assert(out@ =~= Seq::<char>::empty());
                    }
                }
                Ok(Val::Str(string_from_chars(out)))
            },
            _ => Err(Error::Typ(self.clone(), "string".to_owned())),
        }
    }

    /// Escape a string for CSV: double every double quote.
    #[verifier::loop_isolation(false)]
    pub fn escape_csv(&self) -> (r: ValR)
        ensures
            vr_view(r) == (match self@ {
                ValV::Str(s) => Ok::<ValV, ErrorV>(ValV::Str(csv_esc(s))),
                x => Err(ErrorV::Typ(x, "string"@)),
            }),
    {
        match self {
            Val::Str(s) => {
                let cs = str_chars(s.as_str());
                let mut out: Vec<char> = Vec::new();
                let mut j: usize = 0;
                proof {
                    assert(s@.skip(0) =~= s@);
                }
                while j < cs.len()
                    invariant
                        0 <= j <= cs@.len(),
                        csv_esc(s@) == out@ + csv_esc(s@.skip(j as int)),
                    decreases cs@.len() - j,
                {
                    proof {
                        assert(s@.skip(j as int)[0] == s@[j as int]);
                        assert(s@.skip(j as int).drop_first() =~= s@.skip(j + 1));
                    }
                    let c = cs[j];
                    if c == '"' {
                        out.push('"');
                        out.push('"');
                    } else {
                        out.push(c);
                    }
                    j = j + 1;
                }
                proof {
                    assert(s@.skip(cs@.len() as int).len() == 0);
                    assert(out@ + Seq::<char>::empty() =~= out@);
                }
                Ok(Val::Str(string_from_chars(out)))
            },
            _ => Err(Error::Typ(self.clone(), "string".to_owned())),
        }
    }

    /// Escape a string for a shell: close, escape, reopen each quote.
    #[verifier::loop_isolation(false)]
    pub fn escape_sh(&self) -> (r: ValR)
        ensures
            vr_view(r) == (match self@ {
                ValV::Str(s) => Ok::<ValV, ErrorV>(ValV::Str(sh_esc(s))),
                x => Err(ErrorV::Typ(x, "string"@)),
            }),
    {
        match self {
            Val::Str(s) => {
                let cs = str_chars(s.as_str());
                let mut out: Vec<char> = Vec::new();
                let mut j: usize = 0;
                proof {
                    assert(s@.skip(0) =~= s@);
                }
                while j < cs.len()
                    invariant
                        0 <= j <= cs@.len(),
                        sh_esc(s@) == out@ + sh_esc(s@.skip(j as int)),
                    decreases cs@.len() - j,
                {
                    proof {
                        assert(s@.skip(j as int)[0] == s@[j as int]);
                        assert(s@.skip(j as int).drop_first() =~= s@.skip(j + 1));
                    }
                    let c = cs[j];
                    if c == '\'' {
                        out.push('\'');
                        out.push('\\');
                        out.push('\'');
                        out.push('\'');
                    } else {
                        out.push(c);
                    }
                    j = j + 1;
                }
                proof {
                    assert(s@.skip(cs@.len() as int).len() == 0);
                    assert(out@ + Seq::<char>::empty() =~= out@);
                }
                Ok(Val::Str(string_from_chars(out)))
            },
            _ => Err(Error::Typ(self.clone(), "string".to_owned())),
        }
    }

    /// Percent-encode a string for a URI.
    pub fn encode_uri(&self) -> (r: ValR)
        ensures
            vr_view(r) == (match self@ {
                ValV::Str(s) => Ok::<ValV, ErrorV>(ValV::Str(uri_enc(encode_utf8(s)))),
                x => Err(ErrorV::Typ(x, "string"@)),
            }),
    {
        match self {
            Val::Str(s) => Ok(Val::Str(uri_encode(s.as_str()))),
            _ => Err(Error::Typ(self.clone(), "string".to_owned())),
        }
    }

    /// Decode a percent-encoded string.
    pub fn decode_uri(&self) -> (r: ValR)
        ensures
            match self@ {
                ValV::Str(s) => match uri_dec_of(s) {
                    Some(d) => vr_view(r) == Ok::<ValV, ErrorV>(ValV::Str(d)),
                    None => vr_view(r) == Err::<ValV, ErrorV>(
                        ErrorV::Str("URI decoding gave invalid UTF-8"@),
                    ),
                },
                x => vr_view(r) == Err::<ValV, ErrorV>(ErrorV::Typ(x, "string"@)),
            },
    {
        match self {
            Val::Str(s) => match uri_decode(s.as_str()) {
                Some(d) => Ok(Val::Str(d)),
                None => Err(Error::Str("URI decoding gave invalid UTF-8".to_owned())),
            },
            _ => Err(Error::Typ(self.clone(), "string".to_owned())),
        }
    }

    /// Encode a string's UTF-8 bytes as base64 text.
    pub fn encode_base64(&self) -> (r: ValR)
        ensures
            vr_view(r) == (match self@ {
                ValV::Str(s) => Ok::<ValV, ErrorV>(ValV::Str(b64_of(encode_utf8(s)))),
                x => Err(ErrorV::Typ(x, "string"@)),
            }),
    {
        match self {
            Val::Str(s) => Ok(Val::Str(b64_encode(s.as_str()))),
            _ => Err(Error::Typ(self.clone(), "string".to_owned())),
        }
    }

    /// Decode base64 text into the string its bytes encode.
    pub fn decode_base64(&self) -> (r: ValR)
        ensures
            match self@ {
                ValV::Str(s) => match b64_dec_of(s) {
                    Some(bs) => if valid_utf8(bs) {
                        r matches Ok(w) && w@ matches ValV::Str(t) && encode_utf8(t) == bs
                    } else {
                        vr_view(r) == Err::<ValV, ErrorV>(
                            ErrorV::Str("base64 data is not UTF-8 text"@),
                        )
                    },
                    None => vr_view(r) == Err::<ValV, ErrorV>(ErrorV::Str("invalid base64 text"@)),
                },
                x => vr_view(r) == Err::<ValV, ErrorV>(ErrorV::Typ(x, "string"@)),
            },
    {
        match self {
            Val::Str(s) => match b64_decode(s.as_str()) {
                Some(bs) => match utf8_string(bs) {
                    Some(t) => Ok(Val::Str(t)),
                    None => Err(Error::Str("base64 data is not UTF-8 text".to_owned())),
                },
                None => Err(Error::Str("invalid base64 text".to_owned())),
            },
            _ => Err(Error::Typ(self.clone(), "string".to_owned())),
        }
    }

    /// Escape a string for HTML.
    pub fn escape_html(&self) -> (r: ValR)
        ensures
            vr_view(r) == (match self@ {
                ValV::Str(s) => Ok::<ValV, ErrorV>(
                    ValV::Str(replace_all_of(s, html_pats(), html_reps())),
                ),
                x => Err(ErrorV::Typ(x, "string"@)),
            }),
    {
        match self {
            Val::Str(s) => {
                let mut pats: Vec<String> = Vec::new();
                pats.push("<".to_owned());
                pats.push(">".to_owned());
                pats.push("&".to_owned());
                pats.push("'".to_owned());
                pats.push("\"".to_owned());
                let mut reps: Vec<String> = Vec::new();
                reps.push("&lt;".to_owned());
                reps.push("&gt;".to_owned());
                reps.push("&amp;".to_owned());
                reps.push("&apos;".to_owned());
                reps.push("&quot;".to_owned());
                proof {
                    assert(strs_view(pats@) =~= html_pats());
                    assert(strs_view(reps@) =~= html_reps());
                    reveal_strlit("<");
                    reveal_strlit(">");
                    reveal_strlit("&");
                    reveal_strlit("'");
                    reveal_strlit("\"");
                    assert forall|i: int| 0 <= i < pats@.len() implies (#[trigger] pats@[i])@.len()
                        <= 8 by {
                        assert(pats@[0]@ == "<"@);
                        assert(pats@[1]@ == ">"@);
                        assert(pats@[2]@ == "&"@);
                        assert(pats@[3]@ == "'"@);
                        assert(pats@[4]@ == "\""@);
                    }
                }
                match replace_all(s.as_str(), &pats, &reps) {
                    Some(t) => Ok(Val::Str(t)),
                    None => {
                        proof {
                            assert(false);
                        }
                        Err(Error::Str("replacement failed".to_owned()))
                    },
                }
            },
            _ => Err(Error::Typ(self.clone(), "string".to_owned())),
        }
    }

    /// Escape a string for TSV.
    pub fn escape_tsv(&self) -> (r: ValR)
        ensures
            vr_view(r) == (match self@ {
                ValV::Str(s) => Ok::<ValV, ErrorV>(
                    ValV::Str(replace_all_of(s, tsv_pats(), tsv_reps())),
                ),
                x => Err(ErrorV::Typ(x, "string"@)),
            }),
    {
        match self {
            Val::Str(s) => {
                let mut pats: Vec<String> = Vec::new();
                pats.push("\n".to_owned());
                pats.push("\r".to_owned());
                pats.push("\t".to_owned());
                pats.push("\\".to_owned());
                pats.push("\0".to_owned());
                let mut reps: Vec<String> = Vec::new();
                reps.push("\\n".to_owned());
                reps.push("\\r".to_owned());
                reps.push("\\t".to_owned());
                reps.push("\\\\".to_owned());
                reps.push("\\0".to_owned());
                proof {
                    assert(strs_view(pats@) =~= tsv_pats());
                    assert(strs_view(reps@) =~= tsv_reps());
                    reveal_strlit("\n");
                    reveal_strlit("\r");
                    reveal_strlit("\t");
                    reveal_strlit("\\");
                    reveal_strlit("\0");
                    assert forall|i: int| 0 <= i < pats@.len() implies (#[trigger] pats@[i])@.len()
                        <= 8 by {
                        assert(pats@[0]@ == "\n"@);
                        assert(pats@[1]@ == "\r"@);
                        assert(pats@[2]@ == "\t"@);
                        assert(pats@[3]@ == "\\"@);
                        assert(pats@[4]@ == "\0"@);
                    }
                }
                match replace_all(s.as_str(), &pats, &reps) {
                    Some(t) => Ok(Val::Str(t)),
                    None => {
                        proof {
                            assert(false);
                        }
                        Err(Error::Str("replacement failed".to_owned()))
                    },
                }
            },
            _ => Err(Error::Typ(self.clone(), "string".to_owned())),
        }
    }
}

/// Whether a character is whitespace for trimming.
fn ws_exec2(c: char) -> (r: bool)
    ensures
        r == is_ws(c),
{
    c == ' ' || c == '\t' || c == '\n' || c == '\r'
}

} // verus!
