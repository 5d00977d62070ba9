//! The JSON round trip: parsing the serialization of a value gives the
//! value back.

use vstd::prelude::*;

use crate::json::{digit_char, digits_of, esc_char, hex_char, int_chars, ser, ser_entries, ser_items, ser_str};
use crate::ops::{lemma_obj_set_absent, obj_set};
use crate::parse::{
    doc_spec, hex_val, is_digit, is_ws, parse_entries, parse_int_at, parse_items, parse_str_body,
    parse_val, read_digits, skip_ws,
};
use crate::filter::Filter;
use crate::ops::RV;
use crate::sem::{eval, pipe_go};
use crate::val::ValV;

verus! {

/// The power of ten with the given exponent.
pub open spec fn pow10(n: nat) -> int
    decreases n,
{
    if n == 0 {
        1
    } else {
        10 * pow10((n - 1) as nat)
    }
}

/// The value of a region of digit characters, most significant first.
pub open spec fn dv(s: Seq<char>, i: int, j: int) -> int
    decreases j - i,
{
    if j <= i {
        0
    } else {
        dv(s, i, j - 1) * 10 + (s[j - 1] as u32 - '0' as u32)
    }
}

/// A digit region splits at its first digit.
proof fn lemma_dv_front(s: Seq<char>, i: int, j: int)
    requires
        i < j <= s.len(),
    ensures
        dv(s, i, j) == (s[i] as u32 - '0' as u32) * pow10((j - i - 1) as nat) + dv(s, i + 1, j),
    decreases j - i,
{
    if j == i + 1 {
        assert(pow10(0) == 1);
        assert(dv(s, i, i) == 0);
        assert(dv(s, i + 1, i + 1) == 0);
        assert(dv(s, i, i + 1) == dv(s, i, i) * 10 + (s[i] as u32 - '0' as u32));
        assert((s[i] as u32 - '0' as u32) * 1 == s[i] as u32 - '0' as u32) by (nonlinear_arith);
    } else {
        lemma_dv_front(s, i, j - 1);
        let d0 = s[i] as u32 - '0' as u32;
        let p = pow10((j - 1 - i - 1) as nat);
        assert(dv(s, i, j) == dv(s, i, j - 1) * 10 + (s[j - 1] as u32 - '0' as u32));
        assert(dv(s, i + 1, j) == dv(s, i + 1, j - 1) * 10 + (s[j - 1] as u32 - '0' as u32));
        assert((d0 * p + dv(s, i + 1, j - 1)) * 10 == d0 * (10 * p) + dv(s, i + 1, j - 1) * 10)
            by (nonlinear_arith);
        assert(pow10((j - i - 1) as nat) == 10 * p);
    }
}

/// Reading a digit region accumulates its value.
proof fn lemma_read_region(s: Seq<char>, i: int, j: int, acc: int)
    requires
        0 <= i <= j <= s.len(),
        forall|t: int| i <= t < j ==> is_digit(#[trigger] s[t]),
        j == s.len() || !is_digit(s[j]),
        acc >= 0,
    ensures
        read_digits(s, i, acc) == (acc * pow10((j - i) as nat) + dv(s, i, j), j),
    decreases j - i,
{
    if i == j {
        assert(acc * 1 == acc) by (nonlinear_arith);
    } else {
        assert(is_digit(s[i]));
        let d = s[i] as u32 - '0' as u32;
        lemma_read_region(s, i + 1, j, acc * 10 + d);
        lemma_dv_front(s, i, j);
        let p = pow10((j - i - 1) as nat);
        assert((acc * 10 + d) * p == acc * (10 * p) + d * p) by (nonlinear_arith);
        assert(pow10((j - i) as nat) == 10 * p);
    }
}

/// The decimal digits of a number are digit characters, at least one.
proof fn lemma_digits_props(m: nat)
    ensures
        digits_of(m).len() >= 1,
        forall|k: int| 0 <= k < digits_of(m).len() ==> is_digit(#[trigger] digits_of(m)[k]),
    decreases m,
{
    if m < 10 {
        assert(digits_of(m) == seq![digit_char(m as int)]);
        assert(is_digit(digit_char(m as int)));
    } else {
        lemma_digits_props(m / 10);
        assert(digits_of(m) == digits_of(m / 10) + seq![digit_char((m % 10) as int)]);
        assert(is_digit(digit_char((m % 10) as int)));
        assert forall|k: int| 0 <= k < digits_of(m).len() implies is_digit(
            #[trigger] digits_of(m)[k],
        ) by {
            if k < digits_of(m / 10).len() {
                assert(digits_of(m)[k] == digits_of(m / 10)[k]);
            }
        }
    }
}

/// A region holding the digits of `m` has value `m`.
proof fn lemma_digits_dv(m: nat, s: Seq<char>, i: int)
    requires
        0 <= i,
        i + digits_of(m).len() <= s.len(),
        s.subrange(i, i + digits_of(m).len()) == digits_of(m),
    ensures
        dv(s, i, i + digits_of(m).len()) == m,
        forall|t: int| i <= t < i + digits_of(m).len() ==> is_digit(#[trigger] s[t]),
    decreases m,
{
    lemma_digits_props(m);
    let l = digits_of(m).len() as int;
    assert forall|t: int| i <= t < i + l implies is_digit(#[trigger] s[t]) by {
        assert(s.subrange(i, i + l)[t - i] == s[t]);
    }
    if m < 10 {
        assert(s.subrange(i, i + 1)[0] == s[i]);
        assert(s[i] == digit_char(m as int));
        assert(dv(s, i, i) == 0);
        assert(dv(s, i, i + 1) == dv(s, i, i) * 10 + (s[i] as u32 - '0' as u32));
    } else {
        let lp = digits_of(m / 10).len() as int;
        assert(digits_of(m) == digits_of(m / 10) + seq![digit_char((m % 10) as int)]);
        assert(s.subrange(i, i + lp) =~= digits_of(m / 10)) by {
            assert forall|t: int| 0 <= t < lp implies #[trigger] s.subrange(i, i + lp)[t]
                == digits_of(m / 10)[t] by {
                assert(s.subrange(i, i + l)[t] == s[i + t]);
                assert(s.subrange(i, i + lp)[t] == s[i + t]);
                assert(digits_of(m)[t] == digits_of(m / 10)[t]);
            }
        }
        lemma_digits_dv(m / 10, s, i);
        assert(s.subrange(i, i + l)[l - 1] == s[i + l - 1]);
        assert(s[i + l - 1] == digit_char((m % 10) as int));
        assert(dv(s, i, i + l) == dv(s, i, i + l - 1) * 10 + (s[i + l - 1] as u32 - '0' as u32));
        assert((m / 10) * 10 + (m % 10) == m);
    }
}

/// A region holding the rendering of a machine integer parses to it.
proof fn lemma_parse_int(n: int, s: Seq<char>, i: int)
    requires
        i64::MIN <= n <= i64::MAX,
        0 <= i,
        i + int_chars(n).len() <= s.len(),
        s.subrange(i, i + int_chars(n).len()) == int_chars(n),
        ok_after(s, i + int_chars(n).len()),
    ensures
        parse_int_at(s, i) == Some((ValV::Int(n), i + int_chars(n).len())),
{
    let l = int_chars(n).len() as int;
    if n < 0 {
        let m = (-n) as nat;
        assert(int_chars(n) == seq!['-'] + digits_of(m));
        assert(s.subrange(i, i + l)[0] == s[i]);
        assert(s[i] == '-');
        let dl = digits_of(m).len() as int;
        assert(s.subrange(i + 1, i + 1 + dl) =~= digits_of(m)) by {
            assert forall|t: int| 0 <= t < dl implies s.subrange(i + 1, i + 1 + dl)[t]
                == digits_of(m)[t] by {
                assert(s.subrange(i, i + l)[t + 1] == s[i + 1 + t]);
                assert(int_chars(n)[t + 1] == digits_of(m)[t]);
            }
        }
        lemma_digits_dv(m, s, i + 1);
        lemma_read_region(s, i + 1, i + 1 + dl, 0);
        assert(0 * pow10(dl as nat) == 0) by (nonlinear_arith);
        assert(is_digit(s[i + 1]));
    } else {
        let m = n as nat;
        assert(int_chars(n) == digits_of(m));
        lemma_digits_dv(m, s, i);
        lemma_read_region(s, i, i + l, 0);
        assert(0 * pow10(l as nat) == 0) by (nonlinear_arith);
        assert(is_digit(s[i]));
        assert(s[i] != '-');
    }
}

/// Whether the character at `j`, if any, cannot extend a number.
pub open spec fn ok_after(s: Seq<char>, j: int) -> bool {
    j == s.len() || (!is_digit(s[j]) && s[j] != '.' && s[j] != 'e' && s[j] != 'E')
}

/// A region holding an escaped string body and its closing quote parses
/// to the string.
proof fn lemma_parse_str(cs: Seq<char>, acc: Seq<char>, s: Seq<char>, i: int)
    requires
        0 <= i,
        i + ser_str(cs).len() < s.len(),
        s.subrange(i, i + ser_str(cs).len()) == ser_str(cs),
        s[i + ser_str(cs).len()] == '"',
    ensures
        parse_str_body(s, i, acc) == Some((acc + cs, i + ser_str(cs).len() + 1)),
    decreases cs.len(),
{
    let l = ser_str(cs).len() as int;
    if cs.len() > 0 {
        vstd::utf8::char_is_scalar(cs[0]);
    }
    if cs.len() == 0 {
        assert(s[i] == '"');
        assert(acc + cs =~= acc);
    } else {
        let c = cs[0];
        let e = esc_char(c);
        let el = e.len() as int;
        assert(ser_str(cs) == e + ser_str(cs.drop_first()));
        assert forall|t: int| 0 <= t < el implies s[i + t] == e[t] by {
            assert(s.subrange(i, i + l)[t] == s[i + t]);
            assert(ser_str(cs)[t] == e[t]);
        }
        let rl = ser_str(cs.drop_first()).len() as int;
        assert(s.subrange(i + el, i + el + rl) =~= ser_str(cs.drop_first())) by {
            assert forall|t: int| 0 <= t < rl implies s.subrange(i + el, i + el + rl)[t]
                == ser_str(cs.drop_first())[t] by {
                assert(s.subrange(i, i + l)[el + t] == s[i + el + t]);
                assert(ser_str(cs)[el + t] == ser_str(cs.drop_first())[t]);
            }
        }
        if c == '"' {
            lemma_parse_str(cs.drop_first(), acc.push('"'), s, i + 2);
            assert(acc.push('"') + cs.drop_first() =~= acc + cs);
        } else if c == '\\' {
            lemma_parse_str(cs.drop_first(), acc.push('\\'), s, i + 2);
            assert(acc.push('\\') + cs.drop_first() =~= acc + cs);
        } else if c == '\n' {
            lemma_parse_str(cs.drop_first(), acc.push('\n'), s, i + 2);
            assert(acc.push('\n') + cs.drop_first() =~= acc + cs);
        } else if c == '\r' {
            lemma_parse_str(cs.drop_first(), acc.push('\r'), s, i + 2);
            assert(acc.push('\r') + cs.drop_first() =~= acc + cs);
        } else if c == '\t' {
            lemma_parse_str(cs.drop_first(), acc.push('\t'), s, i + 2);
            assert(acc.push('\t') + cs.drop_first() =~= acc + cs);
        } else if (c as u32) < 0x20 {
            let u = c as u32;
            assert(s[i] == '\\' && s[i + 1] == 'u' && s[i + 2] == '0' && s[i + 3] == '0');
            assert(s[i + 4] == hex_char(u as int / 16));
            assert(s[i + 5] == hex_char(u as int % 16));
            lemma_hex_val(u as int / 16);
            lemma_hex_val(u as int % 16);
            assert(hex_val(s[i + 2]) == 0 && hex_val(s[i + 3]) == 0) by {
                lemma_hex_val(0);
                assert(hex_char(0) == '0');
            }
            let code = hex_val(s[i + 2]) * 4096 + hex_val(s[i + 3]) * 256 + hex_val(s[i + 4]) * 16
                + hex_val(s[i + 5]);
            assert(code == (u as int / 16) * 16 + (u as int % 16));
            assert(code == u);
            assert(vstd::utf8::is_scalar(code as u32));
            vstd::utf8::char_u32_cast(c, u);
            lemma_parse_str(cs.drop_first(), acc.push(c), s, i + 6);
            assert(acc.push(c) + cs.drop_first() =~= acc + cs);
        } else {
            assert(e == seq![c]);
            assert(s[i + 0] == e[0]);
            assert(s[i] == c);
            lemma_parse_str(cs.drop_first(), acc.push(c), s, i + 1);
            assert(acc.push(c) + cs.drop_first() =~= acc + cs);
        }
    }
}

/// Hexadecimal digits read back to their value.
proof fn lemma_hex_val(d: int)
    requires
        0 <= d < 16,
    ensures
        hex_val(hex_char(d)) == d,
{
}

/// Serializability: machine integers throughout and unique object keys,
/// so that the serialization parses back exactly.
pub open spec fn ser_ok(v: ValV) -> bool
    decreases v, 1nat,
{
    match v {
        ValV::Int(n) => i64::MIN <= n <= i64::MAX,
        ValV::Arr(a) => ser_ok_elems(a),
        ValV::Obj(o) => uniq_keys(o) && ser_ok_ents(o),
        _ => true,
    }
}

/// Serializability of every element.
pub open spec fn ser_ok_elems(a: Seq<ValV>) -> bool
    decreases a, 0nat,
{
    if a.len() == 0 {
        true
    } else {
        ser_ok(a[0]) && ser_ok_elems(a.drop_first())
    }
}

/// Serializability of every entry value.
pub open spec fn ser_ok_ents(o: Seq<(Seq<char>, ValV)>) -> bool
    decreases o, 0nat,
{
    if o.len() == 0 {
        true
    } else {
        ser_ok(o[0].1) && ser_ok_ents(o.drop_first())
    }
}

/// Whether a key occurs in an entry list.
pub open spec fn key_in(o: Seq<(Seq<char>, ValV)>, k: Seq<char>) -> bool
    decreases o.len(),
{
    if o.len() == 0 {
        false
    } else {
        o[0].0 == k || key_in(o.drop_first(), k)
    }
}

/// Pairwise distinct keys.
pub open spec fn uniq_keys(o: Seq<(Seq<char>, ValV)>) -> bool
    decreases o.len(),
{
    if o.len() == 0 {
        true
    } else {
        !key_in(o.drop_first(), o[0].0) && uniq_keys(o.drop_first())
    }
}

/// The first character of a serialization is never whitespace, a
/// delimiter, nor a separator.
proof fn lemma_ser_first(v: ValV)
    ensures
        ser(v).len() >= 1,
        !is_ws(ser(v)[0]),
        ser(v)[0] != ']' && ser(v)[0] != '}' && ser(v)[0] != ',' && ser(v)[0] != ':',
{
    reveal_strlit("null");
    reveal_strlit("true");
    reveal_strlit("false");
    match v {
        ValV::Int(n) => {
            if n < 0 {
            } else {
                lemma_digits_props(n as nat);
                assert(is_digit(digits_of(n as nat)[0]));
            }
        },
        _ => {},
    }
}

/// Absent keys make `obj_set` an append.
proof fn lemma_obj_push(acc: Seq<(Seq<char>, ValV)>, k: Seq<char>, v: ValV)
    requires
        forall|j: int| 0 <= j < acc.len() ==> (#[trigger] acc[j]).0 != k,
    ensures
        obj_set(acc, k, v) == acc.push((k, v)),
{
    lemma_obj_set_absent(acc, k, v);
}

/// A key occurs exactly when some entry has it.
proof fn lemma_key_in(o: Seq<(Seq<char>, ValV)>, k: Seq<char>)
    ensures
        key_in(o, k) <==> exists|j: int| 0 <= j < o.len() && (#[trigger] o[j]).0 == k,
    decreases o.len(),
{
    if o.len() > 0 {
        lemma_key_in(o.drop_first(), k);
        if o[0].0 == k {
        } else {
            if key_in(o.drop_first(), k) {
                let j = choose|j: int| 0 <= j < o.drop_first().len() && (#[trigger] o.drop_first()[j]).0 == k;
                assert(o[j + 1] == o.drop_first()[j]);
            }
            if exists|j: int| 0 <= j < o.len() && (#[trigger] o[j]).0 == k {
                let j = choose|j: int| 0 <= j < o.len() && (#[trigger] o[j]).0 == k;
                assert(j > 0);
                assert(o.drop_first()[j - 1] == o[j]);
            }
        }
    }
}


/// Parsing a serialized value at its position yields the value and
/// stops right after it.
#[verifier::rlimit(100)]
pub proof fn lemma_parse_ser(v: ValV, s: Seq<char>, i: int)
    requires
        ser_ok(v),
        0 <= i,
        i + ser(v).len() <= s.len(),
        s.subrange(i, i + ser(v).len()) == ser(v),
        ok_after(s, i + ser(v).len()),
    ensures
        parse_val(s, i) == Some((v, i + ser(v).len())),
    decreases v, 0nat,
{
    reveal_strlit("null");
    reveal_strlit("true");
    reveal_strlit("false");
    let l = ser(v).len() as int;
    assert forall|t: int| 0 <= t < l implies #[trigger] s[i + t] == ser(v)[t] by {
        assert(s.subrange(i, i + l)[t] == s[i + t]);
    }
    lemma_ser_first(v);
    assert(s[i + 0] == ser(v)[0]);
    assert(!is_ws(s[i]));
    assert(skip_ws(s, i) == i);
    match v {
        ValV::Null => {
            assert(ser(v) == "null"@);
            assert(s[i] == 'n');
            assert(s.subrange(i, i + 4) == "null"@);
        },
        ValV::Bool(b) => {
            if b {
                assert(ser(v) == "true"@);
                assert(s[i] == 't');
                assert(s.subrange(i, i + 4) == "true"@);
            } else {
                assert(ser(v) == "false"@);
                assert(s[i] == 'f');
                assert(s.subrange(i, i + 5) == "false"@);
            }
        },
        ValV::Int(n) => {
            assert(ser(v) == int_chars(n));
            lemma_parse_int(n, s, i);
            if n < 0 {
                assert(s[i] == '-');
            } else {
                lemma_digits_props(n as nat);
                assert(int_chars(n)[0] == digits_of(n as nat)[0]);
                assert(is_digit(s[i]));
            }
        },
        ValV::Str(cs) => {
            let sl = ser_str(cs).len() as int;
            assert(ser(v) == seq!['"'] + ser_str(cs) + seq!['"']);
            assert(s[i] == '"');
            assert(s.subrange(i + 1, i + 1 + sl) =~= ser_str(cs)) by {
                assert forall|t: int| 0 <= t < sl implies #[trigger] s.subrange(
                    i + 1,
                    i + 1 + sl,
                )[t] == ser_str(cs)[t] by {
                    assert(s[i + (t + 1)] == ser(v)[t + 1]);
                    assert(s.subrange(i + 1, i + 1 + sl)[t] == s[i + 1 + t]);
                }
            }
            assert(s[i + (1 + sl)] == ser(v)[1 + sl]);
            assert(s[i + 1 + sl] == '"');
            lemma_parse_str(cs, Seq::empty(), s, i + 1);
            assert(Seq::empty() + cs =~= cs);
        },
        ValV::Arr(a) => {
            let il = ser_items(a).len() as int;
            assert(ser(v) == seq!['['] + ser_items(a) + seq![']']);
            assert(s[i] == '[');
            assert(s[i + (1 + il)] == ser(v)[1 + il]);
            assert(s[i + 1 + il] == ']');
            if a.len() == 0 {
                assert(ser_items(a).len() == 0);
                assert(s[i + 1] == ']');
                assert(!is_ws(']'));
                assert(skip_ws(s, i + 1) == i + 1);
                assert(a =~= Seq::<ValV>::empty());
                assert(ValV::Arr(Seq::empty()) == v);
            } else {
                assert(s.subrange(i + 1, i + 1 + il) =~= ser_items(a)) by {
                    assert forall|t: int| 0 <= t < il implies #[trigger] s.subrange(
                        i + 1,
                        i + 1 + il,
                    )[t] == ser_items(a)[t] by {
                        assert(s[i + (t + 1)] == ser(v)[t + 1]);
                        assert(s.subrange(i + 1, i + 1 + il)[t] == s[i + 1 + t]);
                    }
                }
                lemma_ser_first(a[0]);
                assert(ser_items(a)[0] == ser(a[0])[0]);
                assert(s[i + 1] == ser(a[0])[0]);
                assert(!is_ws(s[i + 1]));
                assert(skip_ws(s, i + 1) == i + 1);
                assert(s[i + 1] != ']');
                lemma_parse_items_ser(a, Seq::empty(), s, i + 1);
                assert(Seq::empty() + a =~= a);
            }
        },
        ValV::Obj(o) => {
            let el = ser_entries(o).len() as int;
            assert(ser(v) == seq!['{'] + ser_entries(o) + seq!['}']);
            assert(s[i] == '{');
            assert(s[i + (1 + el)] == ser(v)[1 + el]);
            assert(s[i + 1 + el] == '}');
            if o.len() == 0 {
                assert(ser_entries(o).len() == 0);
                assert(s[i + 1] == '}');
                assert(!is_ws('}'));
                assert(skip_ws(s, i + 1) == i + 1);
                assert(o =~= Seq::<(Seq<char>, ValV)>::empty());
                assert(ValV::Obj(Seq::empty()) == v);
            } else {
                assert(s.subrange(i + 1, i + 1 + el) =~= ser_entries(o)) by {
                    assert forall|t: int| 0 <= t < el implies #[trigger] s.subrange(
                        i + 1,
                        i + 1 + el,
                    )[t] == ser_entries(o)[t] by {
                        assert(s[i + (t + 1)] == ser(v)[t + 1]);
                        assert(s.subrange(i + 1, i + 1 + el)[t] == s[i + 1 + t]);
                    }
                }
                assert(ser_entries(o)[0] == '"');
                assert(s[i + 1] == '"');
                assert(!is_ws('"'));
                assert(skip_ws(s, i + 1) == i + 1);
                assert(s[i + 1] != '}');
                lemma_parse_entries_ser(o, Seq::empty(), s, i + 1);
                assert(Seq::empty() + o =~= o);
            }
        },
    }
}

/// Parsing serialized items yields the array of the elements so far and
/// the rest.
#[verifier::rlimit(100)]
proof fn lemma_parse_items_ser(vs: Seq<ValV>, acc: Seq<ValV>, s: Seq<char>, i: int)
    requires
        vs.len() >= 1,
        ser_ok_elems(vs),
        0 <= i,
        i + ser_items(vs).len() < s.len(),
        s.subrange(i, i + ser_items(vs).len()) == ser_items(vs),
        s[i + ser_items(vs).len()] == ']',
    ensures
        parse_items(s, i, acc) == Some((ValV::Arr(acc + vs), i + ser_items(vs).len() + 1)),
    decreases vs, 1nat,
{
    let l = ser_items(vs).len() as int;
    assert forall|t: int| 0 <= t < l implies #[trigger] s[i + t] == ser_items(vs)[t] by {
        assert(s.subrange(i, i + l)[t] == s[i + t]);
    }
    let v0 = vs[0];
    let vl = ser(v0).len() as int;
    lemma_ser_first(v0);
    if vs.len() == 1 {
        assert(ser_items(vs) == ser(v0));
        lemma_parse_ser(v0, s, i);
        let j = i + vl;
        assert(j > i);
        assert(!is_ws(s[j]) && !is_digit(s[j]));
        assert(skip_ws(s, j) == j);
        assert(s[j] == ']');
        assert(acc.push(v0) =~= acc + vs);
    } else {
        assert(ser_items(vs) == ser(v0) + seq![','] + ser_items(vs.drop_first()));
        assert(s.subrange(i, i + vl) =~= ser(v0)) by {
            assert forall|t: int| 0 <= t < vl implies #[trigger] s.subrange(i, i + vl)[t] == ser(
                v0,
            )[t] by {
                assert(s[i + t] == ser_items(vs)[t]);
                assert(ser_items(vs)[t] == ser(v0)[t]);
            }
        }
        assert(s[i + vl] == ser_items(vs)[vl]);
        assert(s[i + vl] == ',');
        lemma_parse_ser(v0, s, i);
        let j = i + vl;
        assert(j > i);
        assert(!is_ws(s[j]));
        assert(skip_ws(s, j) == j);
        assert(s[j] != ']');
        let rl = ser_items(vs.drop_first()).len() as int;
        assert(s.subrange(j + 1, j + 1 + rl) =~= ser_items(vs.drop_first())) by {
            assert forall|t: int| 0 <= t < rl implies #[trigger] s.subrange(
                j + 1,
                j + 1 + rl,
            )[t] == ser_items(vs.drop_first())[t] by {
                assert(s[i + (vl + 1 + t)] == ser_items(vs)[vl + 1 + t]);
                assert(ser_items(vs)[vl + 1 + t] == ser_items(vs.drop_first())[t]);
                assert(s.subrange(j + 1, j + 1 + rl)[t] == s[j + 1 + t]);
            }
        }
        lemma_parse_items_ser(vs.drop_first(), acc.push(v0), s, j + 1);
        assert(acc.push(v0) + vs.drop_first() =~= acc + vs);
    }
}

/// Parsing serialized entries yields the object of the entries so far
/// and the rest.
#[verifier::rlimit(100)]
#[verifier::spinoff_prover]
proof fn lemma_parse_entries_ser(
    os: Seq<(Seq<char>, ValV)>,
    acc: Seq<(Seq<char>, ValV)>,
    s: Seq<char>,
    i: int,
)
    requires
        os.len() >= 1,
        ser_ok_ents(os),
        uniq_keys(os),
        forall|j1: int, j2: int|
            0 <= j1 < acc.len() && 0 <= j2 < os.len() ==> (#[trigger] acc[j1]).0 != (
            #[trigger] os[j2]).0,
        0 <= i,
        i + ser_entries(os).len() < s.len(),
        s.subrange(i, i + ser_entries(os).len()) == ser_entries(os),
        s[i + ser_entries(os).len()] == '}',
    ensures
        parse_entries(s, i, acc) == Some((ValV::Obj(acc + os), i + ser_entries(os).len() + 1)),
    decreases os, 1nat,
{
    let l = ser_entries(os).len() as int;
    assert forall|t: int| 0 <= t < l implies #[trigger] s[i + t] == ser_entries(os)[t] by {
        assert(s.subrange(i, i + l)[t] == s[i + t]);
    }
    let k0 = os[0].0;
    let v0 = os[0].1;
    let head = seq!['"'] + ser_str(k0) + seq!['"'] + seq![':'] + ser(v0);
    let hl = head.len() as int;
    let ksl = ser_str(k0).len() as int;
    let vl = ser(v0).len() as int;
    assert forall|t: int| 0 <= t < hl implies ser_entries(os)[t] == head[t] by {
        if os.len() == 1 {
        } else {
            assert(ser_entries(os) == head + seq![','] + ser_entries(os.drop_first()));
        }
    }
    assert(s[i + 0] == head[0]);
    assert(s[i] == '"');
    assert(!is_ws('"'));
    assert(skip_ws(s, i) == i);
    assert(s.subrange(i + 1, i + 1 + ksl) =~= ser_str(k0)) by {
        assert forall|t: int| 0 <= t < ksl implies #[trigger] s.subrange(i + 1, i + 1 + ksl)[t]
            == ser_str(k0)[t] by {
            assert(s[i + (t + 1)] == ser_entries(os)[t + 1]);
            assert(head[t + 1] == ser_str(k0)[t]);
            assert(s.subrange(i + 1, i + 1 + ksl)[t] == s[i + 1 + t]);
        }
    }
    assert(s[i + (1 + ksl)] == head[1 + ksl]);
    assert(s[i + 1 + ksl] == '"');
    lemma_parse_str(k0, Seq::empty(), s, i + 1);
    assert(Seq::empty() + k0 =~= k0);
    let kk = i + 1 + ksl + 1;
    assert(kk > i);
    assert(s[i + (2 + ksl)] == head[2 + ksl]);
    assert(s[kk] == ':');
    assert(!is_ws(':'));
    assert(skip_ws(s, kk) == kk);
    let vi = kk + 1;
    assert(s.subrange(vi, vi + vl) =~= ser(v0)) by {
        assert forall|t: int| 0 <= t < vl implies #[trigger] s.subrange(vi, vi + vl)[t] == ser(
            v0,
        )[t] by {
            assert(s[i + (3 + ksl + t)] == ser_entries(os)[3 + ksl + t]);
            assert(head[3 + ksl + t] == ser(v0)[t]);
            assert(s.subrange(vi, vi + vl)[t] == s[vi + t]);
        }
    }
    let p = vi + vl;
    if os.len() == 1 {
        assert(s[p] == '}');
    } else {
        assert(ser_entries(os) == head + seq![','] + ser_entries(os.drop_first()));
        assert(s[i + hl] == ser_entries(os)[hl]);
        assert(s[p] == ',');
    }
    assert(ok_after(s, p));
    lemma_parse_ser(v0, s, vi);
    assert(p > kk);
    assert(!is_ws(s[p]));
    assert(skip_ws(s, p) == p);
    lemma_key_in(acc, k0);
    assert forall|j: int| 0 <= j < acc.len() implies (#[trigger] acc[j]).0 != k0 by {
        assert(acc[j].0 != os[0].0);
    }
    lemma_obj_push(acc, k0, v0);
    if os.len() == 1 {
        assert(acc.push((k0, v0)) =~= acc + os);
    } else {
        let rest = os.drop_first();
        let rl = ser_entries(rest).len() as int;
        assert(s.subrange(p + 1, p + 1 + rl) =~= ser_entries(rest)) by {
            assert forall|t: int| 0 <= t < rl implies #[trigger] s.subrange(
                p + 1,
                p + 1 + rl,
            )[t] == ser_entries(rest)[t] by {
                assert(s[i + (hl + 1 + t)] == ser_entries(os)[hl + 1 + t]);
                assert(ser_entries(os)[hl + 1 + t] == ser_entries(rest)[t]);
                assert(s.subrange(p + 1, p + 1 + rl)[t] == s[p + 1 + t]);
            }
        }
        lemma_key_in(rest, k0);
        assert forall|j1: int, j2: int|
            0 <= j1 < acc.push((k0, v0)).len() && 0 <= j2 < rest.len() implies (
        #[trigger] acc.push((k0, v0))[j1]).0 != (#[trigger] rest[j2]).0 by {
            assert(rest[j2] == os[j2 + 1]);
            if j1 < acc.len() {
                assert(acc.push((k0, v0))[j1] == acc[j1]);
            } else {
                assert(acc.push((k0, v0))[j1] == (k0, v0));
            }
        }
        lemma_parse_entries_ser(rest, acc.push((k0, v0)), s, p + 1);
        assert(acc.push((k0, v0)) + rest =~= acc + os);
    }
}

/// The JSON round trip: parsing the serialization of a serializable
/// value gives the value back.
pub proof fn lemma_json_roundtrip(v: ValV)
    requires
        ser_ok(v),
    ensures
        doc_spec(ser(v)) == Some(v),
{
    let s = ser(v);
    assert(s.subrange(0, s.len() as int) =~= s);
    lemma_parse_ser(v, s, 0);
    assert(skip_ws(s, s.len() as int) == s.len());
}

/// The round trip through the evaluator: `tojson | fromjson` yields
/// exactly the input, on every context, value and fuel bound, for every
/// serializable value.
pub proof fn lemma_tojson_fromjson(v: ValV, ctx: Seq<ValV>, fuel: nat)
    requires
        ser_ok(v),
    ensures
        eval(
            Filter::Pipe(Box::new(Filter::ToJson), false, Box::new(Filter::FromJson)),
            ctx,
            v,
            fuel,
        ) == Some(seq![RV::Ok(v)]),
{
    lemma_json_roundtrip(v);
    let ys = seq![RV::Ok(ValV::Str(ser(v)))];
    assert(eval(Filter::ToJson, ctx, v, fuel) == Some(ys));
    assert(ys.drop_first() =~= Seq::<RV>::empty());
    assert(pipe_go(Filter::FromJson, ctx, ys.drop_first(), fuel) == Some(Seq::<RV>::empty()));
    assert(eval(Filter::FromJson, ctx, ValV::Str(ser(v)), fuel) == Some(seq![RV::Ok(v)]));
    assert(seq![RV::Ok(v)] + Seq::<RV>::empty() =~= seq![RV::Ok(v)]);
    assert(pipe_go(Filter::FromJson, ctx, ys, fuel) == Some(seq![RV::Ok(v)]));
}

} // verus!
