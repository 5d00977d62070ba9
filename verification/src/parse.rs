//! Parsing JSON text into values.
//!
//! The grammar accepted is standard JSON restricted to integer numbers:
//! a number with a fraction or an exponent is a parse error, as is any
//! number that does not fit a machine integer.

use vstd::prelude::*;

use crate::intr::{char_from_u32, str_chars};
use crate::ops::{obj_set, Error, ErrorV, ValR, vr_view};
use crate::val::{elems_view, entries_view, lemma_elems_view, lemma_entries_view, v_view, Val, ValV};
use vstd::utf8::is_scalar;

verus! {

/// Whether a character is JSON whitespace.
pub open spec fn is_ws(c: char) -> bool {
    c == ' ' || c == '\t' || c == '\n' || c == '\r'
}

/// Whether a character is a decimal digit.
pub open spec fn is_digit(c: char) -> bool {
    '0' <= c <= '9'
}

/// The first position at or after `i` that holds no whitespace.
pub open spec fn skip_ws(s: Seq<char>, i: int) -> int
    decreases s.len() - i,
{
    if 0 <= i < s.len() && is_ws(s[i]) {
        skip_ws(s, i + 1)
    } else {
        i
    }
}

/// `skip_ws` stays inside the text and moves only forward.
pub proof fn lemma_skip_ws(s: Seq<char>, i: int)
    requires
        0 <= i <= s.len(),
    ensures
        i <= skip_ws(s, i) <= s.len(),
        skip_ws(s, i) < s.len() ==> !is_ws(s[skip_ws(s, i)]),
    decreases s.len() - i,
{
    if i < s.len() && is_ws(s[i]) {
        lemma_skip_ws(s, i + 1);
    }
}

/// Greedily read decimal digits from `i`, accumulating their value.
pub open spec fn read_digits(s: Seq<char>, i: int, acc: int) -> (int, int)
    decreases s.len() - i,
{
    if 0 <= i < s.len() && is_digit(s[i]) {
        read_digits(s, i + 1, acc * 10 + (s[i] as u32 - '0' as u32))
    } else {
        (acc, i)
    }
}

/// Reading digits never shrinks the accumulated value, and moves only
/// forward.
pub proof fn lemma_read_digits(s: Seq<char>, i: int, acc: int)
    requires
        0 <= i <= s.len(),
        acc >= 0,
    ensures
        read_digits(s, i, acc).0 >= acc,
        i <= read_digits(s, i, acc).1 <= s.len(),
        read_digits(s, i, acc).1 < s.len() ==> !is_digit(s[read_digits(s, i, acc).1]),
    decreases s.len() - i,
{
    if i < s.len() && is_digit(s[i]) {
        lemma_read_digits(s, i + 1, acc * 10 + (s[i] as u32 - '0' as u32));
    }
}

/// Parse an integer literal at `i` (no leading whitespace).
pub open spec fn parse_int_at(s: Seq<char>, i: int) -> Option<(ValV, int)> {
    let neg = 0 <= i < s.len() && s[i] == '-';
    let d0 = if neg {
        i + 1
    } else {
        i
    };
    if 0 <= d0 < s.len() && is_digit(s[d0]) {
        let (n, j) = read_digits(s, d0, 0);
        if j < s.len() && (s[j] == '.' || s[j] == 'e' || s[j] == 'E') {
            None
        } else {
            let value = if neg {
                -n
            } else {
                n
            };
            if i64::MIN <= value <= i64::MAX {
                Some((ValV::Int(value), j))
            } else {
                None
            }
        }
    } else {
        None
    }
}

/// The character of a hexadecimal digit, or a negative number when it is
/// none.
pub open spec fn hex_val(c: char) -> int {
    if '0' <= c <= '9' {
        c as u32 - '0' as u32
    } else if 'a' <= c <= 'f' {
        c as u32 - 'a' as u32 + 10
    } else if 'A' <= c <= 'F' {
        c as u32 - 'A' as u32 + 10
    } else {
        -1
    }
}

/// Parse the body of a string literal from `i` (after the opening
/// quote), with `acc` the characters read so far.
pub open spec fn parse_str_body(s: Seq<char>, i: int, acc: Seq<char>) -> Option<(Seq<char>, int)>
    decreases s.len() - i,
{
    if i < 0 || i >= s.len() {
        None
    } else if s[i] == '"' {
        Some((acc, i + 1))
    } else if s[i] == '\\' {
        if i + 1 >= s.len() {
            None
        } else {
            let e = s[i + 1];
            if e == '"' || e == '\\' || e == '/' {
                parse_str_body(s, i + 2, acc.push(e))
            } else if e == 'n' {
                parse_str_body(s, i + 2, acc.push('\n'))
            } else if e == 't' {
                parse_str_body(s, i + 2, acc.push('\t'))
            } else if e == 'r' {
                parse_str_body(s, i + 2, acc.push('\r'))
            } else if e == 'b' {
                parse_str_body(s, i + 2, acc.push('\u{8}'))
            } else if e == 'f' {
                parse_str_body(s, i + 2, acc.push('\u{c}'))
            } else if e == 'u' {
                if i + 6 > s.len() {
                    None
                } else {
                    let h1 = hex_val(s[i + 2]);
                    let h2 = hex_val(s[i + 3]);
                    let h3 = hex_val(s[i + 4]);
                    let h4 = hex_val(s[i + 5]);
                    if h1 >= 0 && h2 >= 0 && h3 >= 0 && h4 >= 0 {
                        let code = h1 * 4096 + h2 * 256 + h3 * 16 + h4;
                        if is_scalar(code as u32) {
                            parse_str_body(s, i + 6, acc.push((code as u32) as char))
                        } else {
                            None
                        }
                    } else {
                        None
                    }
                }
            } else {
                None
            }
        }
    } else {
        parse_str_body(s, i + 1, acc.push(s[i]))
    }
}

/// The body parser stays inside the text and moves only forward.
pub proof fn lemma_parse_str_body(s: Seq<char>, i: int, acc: Seq<char>)
    requires
        0 <= i <= s.len(),
    ensures
        parse_str_body(s, i, acc) matches Some((b, j)) ==> i < j <= s.len(),
    decreases s.len() - i,
{
    if 0 <= i < s.len() {
        if s[i] == '"' {
        } else if s[i] == '\\' {
            if i + 2 <= s.len() {
                lemma_parse_str_body(s, i + 2, acc.push(' '));
                let e = s[i + 1];
                if e == '"' || e == '\\' || e == '/' || e == 'n' || e == 't' || e == 'r' || e == 'b'
                    || e == 'f' {
                    lemma_parse_str_body(s, i + 2, acc.push(e));
                    lemma_parse_str_body(s, i + 2, acc.push('\n'));
                    lemma_parse_str_body(s, i + 2, acc.push('\t'));
                    lemma_parse_str_body(s, i + 2, acc.push('\r'));
                    lemma_parse_str_body(s, i + 2, acc.push('\u{8}'));
                    lemma_parse_str_body(s, i + 2, acc.push('\u{c}'));
                } else if e == 'u' && i + 6 <= s.len() {
                    let h1 = hex_val(s[i + 2]);
                    let h2 = hex_val(s[i + 3]);
                    let h3 = hex_val(s[i + 4]);
                    let h4 = hex_val(s[i + 5]);
                    let code = h1 * 4096 + h2 * 256 + h3 * 16 + h4;
                    if h1 >= 0 && h2 >= 0 && h3 >= 0 && h4 >= 0 && is_scalar(code as u32) {
                        lemma_parse_str_body(s, i + 6, acc.push((code as u32) as char));
                    }
                }
            }
        } else {
            lemma_parse_str_body(s, i + 1, acc.push(s[i]));
        }
    }
}

/// Parse one JSON value starting at `i`, skipping leading whitespace.
/// The result carries the position just past the value.
pub open spec fn parse_val(s: Seq<char>, i: int) -> Option<(ValV, int)>
    decreases s.len() - i, 2nat,
{
    let j = skip_ws(s, i);
    if j < i || j > s.len() || j >= s.len() {
        None
    } else {
        let c = s[j];
        if c == 'n' {
            if j + 4 <= s.len() && s.subrange(j, j + 4) == "null"@ {
                Some((ValV::Null, j + 4))
            } else {
                None
            }
        } else if c == 't' {
            if j + 4 <= s.len() && s.subrange(j, j + 4) == "true"@ {
                Some((ValV::Bool(true), j + 4))
            } else {
                None
            }
        } else if c == 'f' {
            if j + 5 <= s.len() && s.subrange(j, j + 5) == "false"@ {
                Some((ValV::Bool(false), j + 5))
            } else {
                None
            }
        } else if c == '-' || is_digit(c) {
            parse_int_at(s, j)
        } else if c == '"' {
            match parse_str_body(s, j + 1, Seq::empty()) {
                Some((b, k)) => Some((ValV::Str(b), k)),
                None => None,
            }
        } else if c == '[' {
            let k = skip_ws(s, j + 1);
            if k < j + 1 || k >= s.len() {
                None
            } else if s[k] == ']' {
                Some((ValV::Arr(Seq::empty()), k + 1))
            } else {
                parse_items(s, j + 1, Seq::empty())
            }
        } else if c == '{' {
            let k = skip_ws(s, j + 1);
            if k < j + 1 || k >= s.len() {
                None
            } else if s[k] == '}' {
                Some((ValV::Obj(Seq::empty()), k + 1))
            } else {
                parse_entries(s, j + 1, Seq::empty())
            }
        } else {
            None
        }
    }
}

/// Parse the remaining items of a non-empty array, starting at `i`
/// inside the brackets.
pub open spec fn parse_items(s: Seq<char>, i: int, acc: Seq<ValV>) -> Option<(ValV, int)>
    decreases s.len() - i, 3nat,
{
    if i < 0 || i > s.len() {
        None
    } else {
        match parse_val(s, i) {
            None => None,
            Some((v, j)) => if j <= i || j > s.len() {
                None
            } else {
                let k = skip_ws(s, j);
                if k < j || k >= s.len() {
                    None
                } else if s[k] == ',' {
                    parse_items(s, k + 1, acc.push(v))
                } else if s[k] == ']' {
                    Some((ValV::Arr(acc.push(v)), k + 1))
                } else {
                    None
                }
            },
        }
    }
}

/// Parse the remaining entries of a non-empty object, starting at `i`
/// inside the braces; a repeated key keeps its first position and takes
/// the later value.
pub open spec fn parse_entries(s: Seq<char>, i: int, acc: Seq<(Seq<char>, ValV)>) -> Option<
    (ValV, int),
>
    decreases s.len() - i, 3nat,
{
    if i < 0 || i > s.len() {
        None
    } else {
        let j = skip_ws(s, i);
        if j < i || j >= s.len() || s[j] != '"' {
            None
        } else {
            match parse_str_body(s, j + 1, Seq::empty()) {
                None => None,
                Some((key, k)) => if k <= j || k > s.len() {
                    None
                } else {
                    let m = skip_ws(s, k);
                    if m < k || m >= s.len() || s[m] != ':' {
                        None
                    } else {
                        match parse_val(s, m + 1) {
                            None => None,
                            Some((v, p)) => if p <= m || p > s.len() {
                                None
                            } else {
                                let q = skip_ws(s, p);
                                if q < p || q >= s.len() {
                                    None
                                } else if s[q] == ',' {
                                    parse_entries(s, q + 1, obj_set(acc, key, v))
                                } else if s[q] == '}' {
                                    Some((ValV::Obj(obj_set(acc, key, v)), q + 1))
                                } else {
                                    None
                                }
                            },
                        }
                    }
                },
            }
        }
    }
}

/// Parse a whole JSON document: one value with nothing but whitespace
/// after it.
pub open spec fn doc_spec(s: Seq<char>) -> Option<ValV> {
    match parse_val(s, 0) {
        Some((v, j)) => if 0 <= j <= s.len() && skip_ws(s, j) == s.len() {
            Some(v)
        } else {
            None
        },
        None => None,
    }
}

/// `fromjson`: parse a string value as a JSON document.
pub open spec fn from_json_spec(v: ValV) -> Result<ValV, ErrorV> {
    match v {
        ValV::Str(s) => match doc_spec(s) {
            Some(w) => Ok(w),
            None => Err(ErrorV::Parse(s)),
        },
        x => Err(ErrorV::Typ(x, "string"@)),
    }
}

/// Whether a character is JSON whitespace.
fn ws_exec(c: char) -> (r: bool)
    ensures
        r == is_ws(c),
{
    c == ' ' || c == '\t' || c == '\n' || c == '\r'
}

/// Whether a character is a decimal digit.
fn is_digit_exec(c: char) -> (r: bool)
    ensures
        r == is_digit(c),
{
    '0' <= c && c <= '9'
}

/// The first position at or after `i` without whitespace.
fn skip_ws_exec(cs: &Vec<char>, i: usize) -> (r: usize)
    requires
        i <= cs@.len(),
    ensures
        r as int == skip_ws(cs@, i as int),
        i <= r <= cs@.len(),
    decreases cs@.len() - i,
{
    if i < cs.len() && ws_exec(cs[i]) {
        skip_ws_exec(cs, i + 1)
    } else {
        i
    }
}

/// Read decimal digits; the flag reports a value beyond the machine
/// range.
fn read_digits_exec(cs: &Vec<char>, i: usize, acc: u64, ovf: bool, Ghost(sa): Ghost<int>) -> (r: (
    u64,
    bool,
    usize,
))
    requires
        i <= cs@.len(),
        sa >= 0,
        !ovf ==> sa == acc && acc <= 0x8000000000000000,
        ovf ==> sa > 0x8000000000000000,
    ensures
        r.2 as int == read_digits(cs@, i as int, sa).1,
        !r.1 ==> r.0 == read_digits(cs@, i as int, sa).0 && r.0 <= 0x8000000000000000,
        r.1 ==> read_digits(cs@, i as int, sa).0 > 0x8000000000000000,
    decreases cs@.len() - i,
{
    if i < cs.len() && is_digit_exec(cs[i]) {
        let d = (cs[i] as u32 - '0' as u32) as u64;
        let ghost sa2 = sa * 10 + d;
        proof {
            assert(d < 10);
            if ovf {
                assert(sa * 10 >= sa) by (nonlinear_arith)
                    requires
                        sa >= 0,
                ;
            }
        }
        if ovf {
            read_digits_exec(cs, i + 1, acc, true, Ghost(sa2))
        } else if acc > 922337203685477580u64 {
            proof {
                assert(sa2 > 0x8000000000000000);
            }
            read_digits_exec(cs, i + 1, acc, true, Ghost(sa2))
        } else {
            let acc2 = acc * 10 + d;
            if acc2 > 0x8000000000000000u64 {
                read_digits_exec(cs, i + 1, acc2, true, Ghost(sa2))
            } else {
                read_digits_exec(cs, i + 1, acc2, false, Ghost(sa2))
            }
        }
    } else {
        (acc, ovf, i)
    }
}

/// Parse an integer literal at `i`.
fn p_int(cs: &Vec<char>, i: usize) -> (r: Option<(Val, usize)>)
    requires
        i <= cs@.len(),
    ensures
        match parse_int_at(cs@, i as int) {
            Some((v, j)) => r matches Some((rv, rj)) && rv@ == v && rj as int == j,
            None => r is None,
        },
{
    let neg = i < cs.len() && cs[i] == '-';
    let d0 = if neg {
        i + 1
    } else {
        i
    };
    if d0 < cs.len() && is_digit_exec(cs[d0]) {
        let (n, ovf, j) = read_digits_exec(cs, d0, 0, false, Ghost(0int));
        proof {
            lemma_read_digits(cs@, d0 as int, 0);
        }
        if j < cs.len() && (cs[j] == '.' || cs[j] == 'e' || cs[j] == 'E') {
            None
        } else if ovf {
            None
        } else if neg {
            if n == 0x8000000000000000u64 {
                Some((Val::Int(i64::MIN), j))
            } else {
                Some((Val::Int(-(n as i64)), j))
            }
        } else {
            if n > i64::MAX as u64 {
                None
            } else {
                Some((Val::Int(n as i64), j))
            }
        }
    } else {
        None
    }
}

/// The value of a hexadecimal digit, or a marker when there is none.
fn hex_val_exec(c: char) -> (r: i8)
    ensures
        r as int == hex_val(c),
{
    proof {
        vstd::utf8::char_is_scalar(c);
    }
    if '0' <= c && c <= '9' {
        (c as u32 - '0' as u32) as i8
    } else if 'a' <= c && c <= 'f' {
        (c as u32 - 'a' as u32 + 10) as i8
    } else if 'A' <= c && c <= 'F' {
        (c as u32 - 'A' as u32 + 10) as i8
    } else {
        -1
    }
}

/// Parse the body of a string literal.
fn p_str_body(cs: &Vec<char>, i: usize, acc: Vec<char>) -> (r: Option<(Vec<char>, usize)>)
    requires
        i <= cs@.len(),
    ensures
        match parse_str_body(cs@, i as int, acc@) {
            Some((b, j)) => r matches Some((rb, rj)) && rb@ == b && rj as int == j,
            None => r is None,
        },
    decreases cs@.len() - i,
{
    if i >= cs.len() {
        None
    } else if cs[i] == '"' {
        Some((acc, i + 1))
    } else if cs[i] == '\\' {
        if i + 1 >= cs.len() {
            None
        } else {
            let e = cs[i + 1];
            if e == '"' || e == '\\' || e == '/' {
                let mut acc = acc;
                acc.push(e);
                p_str_body(cs, i + 2, acc)
            } else if e == 'n' {
                let mut acc = acc;
                acc.push('\n');
                p_str_body(cs, i + 2, acc)
            } else if e == 't' {
                let mut acc = acc;
                acc.push('\t');
                p_str_body(cs, i + 2, acc)
            } else if e == 'r' {
                let mut acc = acc;
                acc.push('\r');
                p_str_body(cs, i + 2, acc)
            } else if e == 'b' {
                let mut acc = acc;
                acc.push('\u{8}');
                p_str_body(cs, i + 2, acc)
            } else if e == 'f' {
                let mut acc = acc;
                acc.push('\u{c}');
                p_str_body(cs, i + 2, acc)
            } else if e == 'u' {
                if cs.len() - i < 6 {
                    None
                } else {
                    let h1 = hex_val_exec(cs[i + 2]);
                    let h2 = hex_val_exec(cs[i + 3]);
                    let h3 = hex_val_exec(cs[i + 4]);
                    let h4 = hex_val_exec(cs[i + 5]);
                    if h1 >= 0 && h2 >= 0 && h3 >= 0 && h4 >= 0 {
                        let code: u32 = h1 as u32 * 4096 + h2 as u32 * 256 + h3 as u32 * 16
                            + h4 as u32;
                        match char_from_u32(code) {
                            Some(c) => {
                                proof {
                                    vstd::utf8::char_u32_cast(c, code);
                                }
                                let mut acc = acc;
                                acc.push(c);
                                p_str_body(cs, i + 6, acc)
                            },
                            None => None,
                        }
                    } else {
                        None
                    }
                }
            } else {
                None
            }
        }
    } else {
        let c = cs[i];
        let mut acc = acc;
        acc.push(c);
        p_str_body(cs, i + 1, acc)
    }
}

/// Parse one JSON value starting at `i`.
fn p_val(cs: &Vec<char>, i: usize) -> (r: Option<(Val, usize)>)
    requires
        i <= cs@.len(),
    ensures
        match parse_val(cs@, i as int) {
            Some((v, j)) => r matches Some((rv, rj)) && rv@ == v && rj as int == j,
            None => r is None,
        },
    decreases cs@.len() - i, 2nat,
{
    let j = skip_ws_exec(cs, i);
    if j >= cs.len() {
        None
    } else {
        let c = cs[j];
        if c == 'n' {
            if cs.len() - j >= 4 && cs[j] == 'n' && cs[j + 1] == 'u' && cs[j + 2] == 'l' && cs[j
                + 3] == 'l' {
                proof {
                    reveal_strlit("null");
                    assert(cs@.subrange(j as int, j + 4) =~= "null"@);
                }
                Some((Val::Null, j + 4))
            } else {
                proof {
                    reveal_strlit("null");
                    if j + 4 <= cs@.len() {
                        assert(cs@.subrange(j as int, j + 4) != "null"@) by {
                            assert("null"@[1] == 'u' && "null"@[2] == 'l' && "null"@[3] == 'l');
                            assert(cs@.subrange(j as int, j + 4)[1] == cs@[j + 1]);
                            assert(cs@.subrange(j as int, j + 4)[2] == cs@[j + 2]);
                            assert(cs@.subrange(j as int, j + 4)[3] == cs@[j + 3]);
                        }
                    }
                }
                None
            }
        } else if c == 't' {
            if cs.len() - j >= 4 && cs[j] == 't' && cs[j + 1] == 'r' && cs[j + 2] == 'u' && cs[j
                + 3] == 'e' {
                proof {
                    reveal_strlit("true");
                    assert(cs@.subrange(j as int, j + 4) =~= "true"@);
                }
                Some((Val::Bool(true), j + 4))
            } else {
                proof {
                    reveal_strlit("true");
                    if j + 4 <= cs@.len() {
                        assert(cs@.subrange(j as int, j + 4) != "true"@) by {
                            assert("true"@[1] == 'r' && "true"@[2] == 'u' && "true"@[3] == 'e');
                            assert(cs@.subrange(j as int, j + 4)[1] == cs@[j + 1]);
                            assert(cs@.subrange(j as int, j + 4)[2] == cs@[j + 2]);
                            assert(cs@.subrange(j as int, j + 4)[3] == cs@[j + 3]);
                        }
                    }
                }
                None
            }
        } else if c == 'f' {
            if cs.len() - j >= 5 && cs[j] == 'f' && cs[j + 1] == 'a' && cs[j + 2] == 'l' && cs[j
                + 3] == 's' && cs[j + 4] == 'e' {
                proof {
                    reveal_strlit("false");
                    assert(cs@.subrange(j as int, j + 5) =~= "false"@);
                }
                Some((Val::Bool(false), j + 5))
            } else {
                proof {
                    reveal_strlit("false");
                    if j + 5 <= cs@.len() {
                        assert(cs@.subrange(j as int, j + 5) != "false"@) by {
                            assert("false"@[1] == 'a' && "false"@[2] == 'l' && "false"@[3] == 's'
                                && "false"@[4] == 'e');
                            assert(cs@.subrange(j as int, j + 5)[1] == cs@[j + 1]);
                            assert(cs@.subrange(j as int, j + 5)[2] == cs@[j + 2]);
                            assert(cs@.subrange(j as int, j + 5)[3] == cs@[j + 3]);
                            assert(cs@.subrange(j as int, j + 5)[4] == cs@[j + 4]);
                        }
                    }
                }
                None
            }
        } else if c == '-' || is_digit_exec(c) {
            p_int(cs, j)
        } else if c == '"' {
            match p_str_body(cs, j + 1, Vec::new()) {
                Some((b, k)) => Some((Val::Str(crate::intr::string_from_chars(b)), k)),
                None => None,
            }
        } else if c == '[' {
            let k = skip_ws_exec(cs, j + 1);
            if k >= cs.len() {
                None
            } else if cs[k] == ']' {
                Some((Val::Arr(Vec::new()), k + 1))
            } else {
                proof {
                    lemma_elems_view(Seq::<Val>::empty());
                }
                p_items(cs, j + 1, Vec::new())
            }
        } else if c == '{' {
            let k = skip_ws_exec(cs, j + 1);
            if k >= cs.len() {
                None
            } else if cs[k] == '}' {
                Some((Val::Obj(Vec::new()), k + 1))
            } else {
                proof {
                    lemma_entries_view(Seq::<(String, Val)>::empty());
                }
                p_entries(cs, j + 1, Vec::new())
            }
        } else {
            None
        }
    }
}

/// Parse the remaining items of a non-empty array.
fn p_items(cs: &Vec<char>, i: usize, acc: Vec<Val>) -> (r: Option<(Val, usize)>)
    requires
        i <= cs@.len(),
    ensures
        match parse_items(cs@, i as int, elems_view(acc@)) {
            Some((v, j)) => r matches Some((rv, rj)) && rv@ == v && rj as int == j,
            None => r is None,
        },
    decreases cs@.len() - i, 3nat,
{
    proof {
        lemma_elems_view(acc@);
    }
    match p_val(cs, i) {
        None => None,
        Some((v, j)) => {
            if j <= i || j > cs.len() {
                None
            } else {
                let k = skip_ws_exec(cs, j);
                if k >= cs.len() {
                    None
                } else if cs[k] == ',' {
                    let mut acc = acc;
                    let ghost acc0 = acc@;
                    let ghost vg = v;
                    acc.push(v);
                    proof {
                        crate::val::lemma_elems_view_push(acc0, vg);
                    }
                    p_items(cs, k + 1, acc)
                } else if cs[k] == ']' {
                    let mut acc = acc;
                    let ghost acc0 = acc@;
                    let ghost vg = v;
                    acc.push(v);
                    proof {
                        crate::val::lemma_elems_view_push(acc0, vg);
                    }
                    Some((Val::Arr(acc), k + 1))
                } else {
                    None
                }
            }
        },
    }
}

/// Parse the remaining entries of a non-empty object.
fn p_entries(cs: &Vec<char>, i: usize, acc: Vec<(String, Val)>) -> (r: Option<(Val, usize)>)
    requires
        i <= cs@.len(),
    ensures
        match parse_entries(cs@, i as int, entries_view(acc@)) {
            Some((v, j)) => r matches Some((rv, rj)) && rv@ == v && rj as int == j,
            None => r is None,
        },
    decreases cs@.len() - i, 3nat,
{
    proof {
        lemma_entries_view(acc@);
    }
    let j = skip_ws_exec(cs, i);
    if j >= cs.len() {
        None
    } else if cs[j] != '"' {
        None
    } else {
        match p_str_body(cs, j + 1, Vec::new()) {
            None => None,
            Some((key, k)) => {
                if k <= j || k > cs.len() {
                    None
                } else {
                    let m = skip_ws_exec(cs, k);
                    if m >= cs.len() {
                        None
                    } else if cs[m] != ':' {
                        None
                    } else {
                        match p_val(cs, m + 1) {
                            None => None,
                            Some((v, p)) => {
                                if p <= m || p > cs.len() {
                                    None
                                } else {
                                    let q = skip_ws_exec(cs, p);
                                    if q >= cs.len() {
                                        None
                                    } else if cs[q] == ',' {
                                        let mut acc = acc;
                                        let ks = crate::intr::string_from_chars(key);
                                        crate::ops::entries_set(&mut acc, ks, v);
                                        p_entries(cs, q + 1, acc)
                                    } else if cs[q] == '}' {
                                        let mut acc = acc;
                                        let ks = crate::intr::string_from_chars(key);
                                        crate::ops::entries_set(&mut acc, ks, v);
                                        Some((Val::Obj(acc), q + 1))
                                    } else {
                                        None
                                    }
                                }
                            },
                        }
                    }
                }
            },
        }
    }
}

impl Val {
    /// Parse a string value as a JSON document.
    pub fn from_json(&self) -> (r: ValR)
        ensures
            vr_view(r) == from_json_spec(self@),
    {
        match self {
            Val::Str(s) => {
                let cs = str_chars(s.as_str());
                match p_val(&cs, 0) {
                    Some((v, j)) => {
                        if j <= cs.len() {
                            let k = skip_ws_exec(&cs, j);
                            if k == cs.len() {
                                Ok(v)
                            } else {
                                Err(Error::Parse(s.clone()))
                            }
                        } else {
                            Err(Error::Parse(s.clone()))
                        }
                    },
                    None => Err(Error::Parse(s.clone())),
                }
            },
            _ => Err(Error::Typ(self.clone(), "string".to_owned())),
        }
    }
}

} // verus!
