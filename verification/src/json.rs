//! Serialization of values to JSON text, and the rendering of errors.

use vstd::prelude::*;

use crate::intr::{char_from_u32, string_from_chars};
use crate::ops::{Error, ErrorV, MathOp};
use crate::val::{elems_view, entries_view, lemma_elems_view, lemma_entries_view, v_view, Val, ValV};

verus! {

/// The decimal digit character for `d`.
pub open spec fn digit_char(d: int) -> char
    recommends
        0 <= d < 10,
{
    (('0' as u32) + d as u32) as char
}

/// The decimal digits of `n`, most significant first.
pub open spec fn digits_of(n: nat) -> Seq<char>
    decreases n,
{
    if n < 10 {
        seq![digit_char(n as int)]
    } else {
        digits_of(n / 10) + seq![digit_char((n % 10) as int)]
    }
}

/// The decimal rendering of an integer.
pub open spec fn int_chars(i: int) -> Seq<char> {
    if i < 0 {
        seq!['-'] + digits_of((-i) as nat)
    } else {
        digits_of(i as nat)
    }
}

/// The lower-case hexadecimal digit character for `d`.
pub open spec fn hex_char(d: int) -> char
    recommends
        0 <= d < 16,
{
    if d < 10 {
        (('0' as u32) + d as u32) as char
    } else {
        (('a' as u32) + (d - 10) as u32) as char
    }
}

/// The JSON escape of one character.
pub open spec fn esc_char(c: char) -> Seq<char> {
    if c == '"' {
        seq!['\\', '"']
    } else if c == '\\' {
        seq!['\\', '\\']
    } else if c == '\n' {
        seq!['\\', 'n']
    } else if c == '\r' {
        seq!['\\', 'r']
    } else if c == '\t' {
        seq!['\\', 't']
    } else if (c as u32) < 0x20 {
        seq!['\\', 'u', '0', '0', hex_char((c as u32) as int / 16), hex_char((c as u32) as int % 16)]
    } else {
        seq![c]
    }
}

/// The body of a JSON string: every character escaped.
pub open spec fn ser_str(s: Seq<char>) -> Seq<char>
    decreases s.len(),
{
    if s.len() == 0 {
        Seq::empty()
    } else {
        esc_char(s[0]) + ser_str(s.drop_first())
    }
}

/// The JSON text of a value: standard JSON, objects in insertion order.
pub open spec fn ser(v: ValV) -> Seq<char>
    decreases v, 0nat,
{
    match v {
        ValV::Null => "null"@,
        ValV::Bool(b) => if b {
            "true"@
        } else {
            "false"@
        },
        ValV::Int(i) => int_chars(i),
        ValV::Str(s) => seq!['"'] + ser_str(s) + seq!['"'],
        ValV::Arr(a) => seq!['['] + ser_items(a) + seq![']'],
        ValV::Obj(o) => seq!['{'] + ser_entries(o) + seq!['}'],
    }
}

/// Array items serialized with separating commas.
pub open spec fn ser_items(a: Seq<ValV>) -> Seq<char>
    decreases a, 1nat,
{
    if a.len() == 0 {
        Seq::empty()
    } else if a.len() == 1 {
        ser(a[0])
    } else {
        ser(a[0]) + seq![','] + ser_items(a.drop_first())
    }
}

/// Object entries serialized with separating commas.
pub open spec fn ser_entries(o: Seq<(Seq<char>, ValV)>) -> Seq<char>
    decreases o, 1nat,
{
    if o.len() == 0 {
        Seq::empty()
    } else {
        let head = seq!['"'] + ser_str(o[0].0) + seq!['"'] + seq![':'] + ser(o[0].1);
        if o.len() == 1 {
            head
        } else {
            head + seq![','] + ser_entries(o.drop_first())
        }
    }
}

/// The rendering of an error, with embedded values as JSON text.
pub open spec fn err_chars(e: ErrorV) -> Seq<char> {
    match e {
        ErrorV::Val(v) => ser(v),
        ErrorV::Typ(v, k) => k + " expected, got "@ + ser(v),
        ErrorV::Index(v, i) => "cannot index "@ + ser(v) + " with "@ + ser(i),
        ErrorV::Math(l, op, r) => ser(l) + " and "@ + ser(r) + " cannot be "@ + math_verb(op),
        ErrorV::Parse(m) => "failed to parse: "@ + m,
        ErrorV::Str(m) => m,
    }
}

/// The verb of an arithmetic operator, for error messages.
pub open spec fn math_verb(op: MathOp) -> Seq<char> {
    match op {
        MathOp::Add => "added"@,
        MathOp::Sub => "subtracted"@,
        MathOp::Mul => "multiplied"@,
        MathOp::Div => "divided"@,
        MathOp::Rem => "divided (remainder)"@,
    }
}

/// The value a caught error stands for: the thrown value itself, or the
/// rendering of the error as a string.
pub open spec fn err_value(e: ErrorV) -> ValV {
    match e {
        ErrorV::Val(v) => v,
        _ => ValV::Str(err_chars(e)),
    }
}

/// Append the decimal digits of `m` to `out`.
fn write_digits(m: u64, out: &mut Vec<char>)
    ensures
        final(out)@ == old(out)@ + digits_of(m as nat),
    decreases m,
{
    if m < 10 {
        let c = digit_exec((m % 10) as u8);
        out.push(c);
    } else {
        write_digits(m / 10, out);
        let c = digit_exec((m % 10) as u8);
        out.push(c);
        proof {
            assert(out@ =~= old(out)@ + digits_of(m as nat));
        }
    }
}

/// The decimal digit character for `d`.
fn digit_exec(d: u8) -> (c: char)
    requires
        d < 10,
    ensures
        c == digit_char(d as int),
{
    match char_from_u32('0' as u32 + d as u32) {
        Some(c) => {
            proof {
                vstd::utf8::char_u32_cast(c, ('0' as u32 + d as u32) as u32);
            }
            c
        },
        None => {
            proof {
                assert(vstd::utf8::is_scalar(('0' as u32 + d as u32) as u32));
                assert(false);
            }
            '0'
        },
    }
}

/// The lower-case hexadecimal digit character for `d`.
fn hex_exec(d: u8) -> (c: char)
    requires
        d < 16,
    ensures
        c == hex_char(d as int),
{
    if d < 10 {
        digit_exec(d)
    } else {
        match char_from_u32('a' as u32 + (d - 10) as u32) {
            Some(c) => {
                proof {
                    vstd::utf8::char_u32_cast(c, ('a' as u32 + (d - 10) as u32) as u32);
                }
                c
            },
            None => {
                proof {
                    assert(vstd::utf8::is_scalar(('a' as u32 + (d - 10) as u32) as u32));
                    assert(false);
                }
                '0'
            },
        }
    }
}

/// Append the decimal rendering of `i` to `out`.
fn write_int(i: i64, out: &mut Vec<char>)
    ensures
        final(out)@ == old(out)@ + int_chars(i as int),
{
    if i < 0 {
        out.push('-');
        let m: u64 = if i == i64::MIN {
            9223372036854775808u64
        } else {
            (-i) as u64
        };
        write_digits(m, out);
        proof {
            assert(out@ =~= old(out)@ + int_chars(i as int));
        }
    } else {
        write_digits(i as u64, out);
    }
}

/// Append the escape of one character to `out`.
fn write_esc(c: char, out: &mut Vec<char>)
    ensures
        final(out)@ == old(out)@ + esc_char(c),
{
    proof {
        vstd::utf8::char_is_scalar(c);
    }
    if c == '"' {
        out.push('\\');
        out.push('"');
    } else if c == '\\' {
        out.push('\\');
        out.push('\\');
    } else if c == '\n' {
        out.push('\\');
        out.push('n');
    } else if c == '\r' {
        out.push('\\');
        out.push('r');
    } else if c == '\t' {
        out.push('\\');
        out.push('t');
    } else if (c as u32) < 0x20 {
        let u = c as u32;
        out.push('\\');
        out.push('u');
        out.push('0');
        out.push('0');
        let hi = hex_exec((u / 16) as u8);
        out.push(hi);
        let lo = hex_exec((u % 16) as u8);
        out.push(lo);
    } else {
        out.push(c);
    }
    proof {
        assert(out@ =~= old(out)@ + esc_char(c));
    }
}

/// Append the escaped body of a string to `out`.
#[verifier::loop_isolation(false)]
fn write_str_body(s: &str, out: &mut Vec<char>)
    ensures
        final(out)@ == old(out)@ + ser_str(s@),
{
    let cs = crate::intr::str_chars(s);
    let ghost base = out@;
    let mut i: usize = 0;
    proof {
        assert(s@.skip(0) =~= s@);
    }
    while i < cs.len()
        invariant
            0 <= i <= cs@.len(),
            ser_str(s@) == ser_str_emitted(base, out@) + ser_str(s@.skip(i as int)),
            out@.len() >= base.len(),
            out@.take(base.len() as int) == base,
        decreases cs@.len() - i,
    {
        proof {
            assert(s@.skip(i as int)[0] == s@[i as int]);
            assert(s@.skip(i as int).drop_first() =~= s@.skip(i + 1));
        }
        let ghost before = out@;
        write_esc(cs[i], out);
        proof {
            assert(out@.take(base.len() as int) =~= base);
            assert(out@.skip(base.len() as int) =~= before.skip(base.len() as int) + esc_char(
                s@[i as int],
            ));
        }
        i = i + 1;
    }
    proof {
        assert(s@.skip(cs@.len() as int).len() == 0);
        assert(ser_str(s@.skip(cs@.len() as int)) =~= Seq::<char>::empty());
        assert(ser_str_emitted(base, out@) + Seq::<char>::empty() =~= ser_str_emitted(base, out@));
        assert(out@ =~= base + out@.skip(base.len() as int));
    }
}

/// What has been emitted past the starting prefix.
pub open spec fn ser_str_emitted(base: Seq<char>, cur: Seq<char>) -> Seq<char> {
    cur.skip(base.len() as int)
}

/// Append the JSON text of a value to `out`.
#[verifier::loop_isolation(false)]
#[verifier::rlimit(60)]
fn write_val(v: &Val, out: &mut Vec<char>)
    ensures
        final(out)@ == old(out)@ + ser(v@),
    decreases *v,
{
    match v {
        Val::Null => {
            out.push('n');
            out.push('u');
            out.push('l');
            out.push('l');
            proof {
                reveal_strlit("null");
                assert(out@ =~= old(out)@ + "null"@);
            }
        },
        Val::Bool(b) => {
            if *b {
                out.push('t');
                out.push('r');
                out.push('u');
                out.push('e');
                proof {
                    reveal_strlit("true");
                    assert(out@ =~= old(out)@ + "true"@);
                }
            } else {
                out.push('f');
                out.push('a');
                out.push('l');
                out.push('s');
                out.push('e');
                proof {
                    reveal_strlit("false");
                    assert(out@ =~= old(out)@ + "false"@);
                }
            }
        },
        Val::Int(i) => {
            write_int(*i, out);
        },
        Val::Str(s) => {
            out.push('"');
            write_str_body(s.as_str(), out);
            out.push('"');
            proof {
                assert(out@ =~= old(out)@ + (seq!['"'] + ser_str(s@) + seq!['"']));
            }
        },
        Val::Arr(a) => {
            proof {
                lemma_elems_view(a@);
            }
            let ghost av = elems_view(a@);
            out.push('[');
            let ghost base = out@;
            let mut i: usize = 0;
            proof {
                assert(av.skip(0) =~= av);
            }
            while i < a.len()
                invariant
                    0 <= i <= a@.len(),
                    out@.len() >= base.len(),
                    out@.take(base.len() as int) == base,
                    ser_items(av) == out@.skip(base.len() as int) + ser_items(
                        av.skip(i as int),
                    ),
                decreases a@.len() - i,
            {
                proof {
                    assert(av.skip(i as int)[0] == av[i as int]);
                    assert(av[i as int] == v_view(a@[i as int]));
                    assert(av.skip(i as int).drop_first() =~= av.skip(i + 1));
                }
                let ghost before = out@;
                write_val(&a[i], out);
                if i + 1 < a.len() {
                    out.push(',');
                }
                proof {
                    assert(out@.take(base.len() as int) =~= base);
                    if i + 1 < a@.len() {
                        assert(out@.skip(base.len() as int) =~= before.skip(base.len() as int)
                            + ser(av[i as int]) + seq![',']);
                    } else {
                        assert(out@.skip(base.len() as int) =~= before.skip(base.len() as int)
                            + ser(av[i as int]));
                        assert(av.skip(i as int).len() == 1);
                    }
                }
                i = i + 1;
            }
            proof {
                if a@.len() == 0 {
                    assert(ser_items(av.skip(0)) =~= Seq::<char>::empty());
                } else {
                    assert(av.skip(a@.len() as int).len() == 0);
                    assert(ser_items(av.skip(a@.len() as int)) =~= Seq::<char>::empty());
                }
                assert(ser_items(av) =~= out@.skip(base.len() as int));
                assert(out@ =~= out@.take(base.len() as int) + out@.skip(base.len() as int));
                assert(out@ =~= base + ser_items(av));
            }
            out.push(']');
            proof {
                assert(out@ =~= old(out)@ + (seq!['['] + ser_items(av) + seq![']']));
            }
        },
        Val::Obj(o) => {
            proof {
                lemma_entries_view(o@);
            }
            let ghost ov = entries_view(o@);
            out.push('{');
            let ghost base = out@;
            let mut i: usize = 0;
            proof {
                assert(ov.skip(0) =~= ov);
            }
            while i < o.len()
                invariant
                    0 <= i <= o@.len(),
                    out@.len() >= base.len(),
                    out@.take(base.len() as int) == base,
                    ser_entries(ov) == out@.skip(base.len() as int) + ser_entries(
                        ov.skip(i as int),
                    ),
                decreases o@.len() - i,
            {
                proof {
                    assert(ov.skip(i as int)[0] == ov[i as int]);
                    assert(ov[i as int] == (o@[i as int].0@, v_view(o@[i as int].1)));
                    assert(ov.skip(i as int).drop_first() =~= ov.skip(i + 1));
                }
                let ghost before = out@;
                out.push('"');
                write_str_body(o[i].0.as_str(), out);
                out.push('"');
                out.push(':');
                write_val(&o[i].1, out);
                if i + 1 < o.len() {
                    out.push(',');
                }
                proof {
                    let head = seq!['"'] + ser_str(ov[i as int].0) + seq!['"'] + seq![':'] + ser(
                        ov[i as int].1,
                    );
                    assert(out@.take(base.len() as int) =~= base);
                    if i + 1 < o@.len() {
                        assert(out@.skip(base.len() as int) =~= before.skip(base.len() as int)
                            + head + seq![',']);
                    } else {
                        assert(out@.skip(base.len() as int) =~= before.skip(base.len() as int)
                            + head);
                        assert(ov.skip(i as int).len() == 1);
                    }
                }
                i = i + 1;
            }
            proof {
                if o@.len() == 0 {
                    assert(ser_entries(ov.skip(0)) =~= Seq::<char>::empty());
                } else {
                    assert(ov.skip(o@.len() as int).len() == 0);
                    assert(ser_entries(ov.skip(o@.len() as int)) =~= Seq::<char>::empty());
                }
                assert(ser_entries(ov) =~= out@.skip(base.len() as int));
                assert(out@ =~= out@.take(base.len() as int) + out@.skip(base.len() as int));
                assert(out@ =~= base + ser_entries(ov));
            }
            out.push('}');
            proof {
                assert(out@ =~= old(out)@ + (seq!['{'] + ser_entries(ov) + seq!['}']));
            }
        },
    }
}

impl Val {
    /// The JSON text of this value.
    pub fn to_json(&self) -> (r: String)
        ensures
            r@ == ser(self@),
    {
        let mut out: Vec<char> = Vec::new();
        write_val(self, &mut out);
        string_from_chars(out)
    }
}

impl Error {
    /// The human-readable rendering of this error.
    pub fn message(&self) -> (r: String)
        ensures
            r@ == err_chars(self@),
    {
        match self {
            Error::Val(v) => v.to_json(),
            Error::Typ(v, k) => {
                let mut s = k.clone();
                s.append(" expected, got ");
                s.concat(v.to_json().as_str())
            },
            Error::Index(v, i) => {
                let mut s = "cannot index ".to_owned();
                s.append(v.to_json().as_str());
                s.append(" with ");
                s.concat(i.to_json().as_str())
            },
            Error::Math(l, op, r) => {
                let mut s = l.to_json();
                s.append(" and ");
                s.append(r.to_json().as_str());
                s.append(" cannot be ");
                match op {
                    MathOp::Add => s.concat("added"),
                    MathOp::Sub => s.concat("subtracted"),
                    MathOp::Mul => s.concat("multiplied"),
                    MathOp::Div => s.concat("divided"),
                    MathOp::Rem => s.concat("divided (remainder)"),
                }
            },
            Error::Parse(m) => {
                let mut s = "failed to parse: ".to_owned();
                s.concat(m.as_str())
            },
            Error::Str(m) => m.clone(),
        }
    }

    /// The value a caught error stands for.
    pub fn into_value(&self) -> (r: Val)
        ensures
            r@ == err_value(self@),
    {
        match self {
            Error::Val(v) => v.clone(),
            _ => Val::Str(self.message()),
        }
    }
}

} // verus!
