//! Zero-arity intrinsics of the value model: `length`, rounding,
//! `explode`/`implode`, ASCII case mapping and `reverse`.

use vstd::prelude::*;

use crate::ops::{int_norm, Error, ErrorV, ValR, vr_view};
use crate::val::{elems_view, lemma_elems_view, v_view, Val, ValV};
use vstd::string::StrSliceExecFns;
use vstd::utf8::is_scalar;

verus! {

/// Relies on `String::from_iter`: the string of exactly the given
/// characters, in order.
#[verifier::external_body]
pub fn string_from_chars(v: Vec<char>) -> (r: String)
    ensures
        r@ == v@,
{
    v.into_iter().collect()
}

/// Relies on `char::from_u32`: `Some` exactly on Unicode scalar values
/// (at most `0x10FFFF` and not a surrogate), returning the character with
/// that code.
#[verifier::external_body]
pub fn char_from_u32(u: u32) -> (r: Option<char>)
    ensures
        r matches Some(c) ==> c as u32 == u,
        r is Some <==> is_scalar(u),
{
    char::from_u32(u)
}

/// The characters of a string, as a vector.
pub fn str_chars(s: &str) -> (r: Vec<char>)
    ensures
        r@ == s@,
{
    let n = s.unicode_len();
    let mut out: Vec<char> = Vec::new();
    let mut i: usize = 0;
    while i < n
        invariant
            0 <= i <= n,
            n == s@.len(),
            out@ == s@.take(i as int),
        decreases n - i,
    {
        let c = s.get_char(i);
        out.push(c);
        proof {
            assert(out@ =~= s@.take(i + 1));
        }
        i = i + 1;
    }
    proof {
        assert(s@.take(n as int) =~= s@);
    }
    out
}

/// The length of a value: zero for `null`, the absolute value of a
/// number, the character count of a string, the element count of an
/// array, the entry count of an object.  Booleans have no length.
pub open spec fn len_spec(v: ValV) -> Result<ValV, ErrorV> {
    match v {
        ValV::Null => Ok(ValV::Int(0)),
        ValV::Bool(_) => Err(ErrorV::Typ(v, "value with a length"@)),
        ValV::Int(i) => int_norm(
            if i < 0 {
                -i
            } else {
                i
            },
        ),
        ValV::Str(s) => int_norm(s.len() as int),
        ValV::Arr(a) => int_norm(a.len() as int),
        ValV::Obj(o) => int_norm(o.len() as int),
    }
}

/// Identity on integers; anything that is not a number has no rounding.
pub open spec fn round_spec(v: ValV) -> Result<ValV, ErrorV> {
    match v {
        ValV::Int(i) => Ok(ValV::Int(i)),
        x => Err(ErrorV::Typ(x, "number"@)),
    }
}

/// The codepoints of a string, as integer values.
pub open spec fn explode_spec(v: ValV) -> Result<ValV, ErrorV> {
    match v {
        ValV::Str(s) => Ok(ValV::Arr(Seq::new(s.len(), |i: int| ValV::Int(s[i] as u32 as int)))),
        x => Err(ErrorV::Typ(x, "string"@)),
    }
}

/// The string of the given codepoints; every element must be the integer
/// of a Unicode scalar value.
pub open spec fn implode_chars(xs: Seq<ValV>) -> Result<Seq<char>, ErrorV>
    decreases xs.len(),
{
    if xs.len() == 0 {
        Ok(Seq::empty())
    } else {
        match xs[0] {
            ValV::Int(i) => if 0 <= i < 0x110000 && is_scalar(i as u32) {
                match implode_chars(xs.drop_first()) {
                    Ok(rest) => Ok(seq![(i as u32) as char] + rest),
                    Err(e) => Err(e),
                }
            } else {
                Err(ErrorV::Str("invalid character code"@))
            },
            x => Err(ErrorV::Typ(x, "number"@)),
        }
    }
}

/// `implode`: an array of codepoints becomes a string.
pub open spec fn implode_spec(v: ValV) -> Result<ValV, ErrorV> {
    match v {
        ValV::Arr(xs) => match implode_chars(xs) {
            Ok(s) => Ok(ValV::Str(s)),
            Err(e) => Err(e),
        },
        x => Err(ErrorV::Typ(x, "array"@)),
    }
}

/// Map an ASCII capital letter to the small one.
pub open spec fn lower_char(c: char) -> char {
    if 'A' <= c <= 'Z' {
        ((c as u32) + 32) as char
    } else {
        c
    }
}

/// Map an ASCII small letter to the capital one.
pub open spec fn upper_char(c: char) -> char {
    if 'a' <= c <= 'z' {
        ((c as u32) - 32) as char
    } else {
        c
    }
}

/// ASCII-lowercase every character of a string.
pub open spec fn downcase_spec(v: ValV) -> Result<ValV, ErrorV> {
    match v {
        ValV::Str(s) => Ok(ValV::Str(Seq::new(s.len(), |i: int| lower_char(s[i])))),
        x => Err(ErrorV::Typ(x, "string"@)),
    }
}

/// ASCII-uppercase every character of a string.
pub open spec fn upcase_spec(v: ValV) -> Result<ValV, ErrorV> {
    match v {
        ValV::Str(s) => Ok(ValV::Str(Seq::new(s.len(), |i: int| upper_char(s[i])))),
        x => Err(ErrorV::Typ(x, "string"@)),
    }
}

/// Reverse the elements of an array.
pub open spec fn reverse_spec(v: ValV) -> Result<ValV, ErrorV> {
    match v {
        ValV::Arr(a) => Ok(ValV::Arr(Seq::new(a.len(), |i: int| a[a.len() - 1 - i]))),
        x => Err(ErrorV::Typ(x, "array"@)),
    }
}

impl Val {
    /// The length of this value.
    pub fn length(&self) -> (r: ValR)
        ensures
            vr_view(r) == len_spec(self@),
    {
        match self {
            Val::Null => Ok(Val::Int(0)),
            Val::Bool(_) => Err(Error::Typ(self.clone(), "value with a length".to_owned())),
            Val::Int(i) => {
                if *i == i64::MIN {
                    Err(Error::Str("integer overflow".to_owned()))
                } else if *i < 0 {
                    Ok(Val::Int(-*i))
                } else {
                    Ok(Val::Int(*i))
                }
            },
            Val::Str(s) => {
                let n = s.as_str().unicode_len() as u64;
                if n <= i64::MAX as u64 {
                    Ok(Val::Int(n as i64))
                } else {
                    Err(Error::Str("integer overflow".to_owned()))
                }
            },
            Val::Arr(a) => {
                proof {
                    lemma_elems_view(a@);
                }
                let n = a.len() as u64;
                if n <= i64::MAX as u64 {
                    Ok(Val::Int(n as i64))
                } else {
                    Err(Error::Str("integer overflow".to_owned()))
                }
            },
            Val::Obj(o) => {
                proof {
                    crate::val::lemma_entries_view(o@);
                }
                let n = o.len() as u64;
                if n <= i64::MAX as u64 {
                    Ok(Val::Int(n as i64))
                } else {
                    Err(Error::Str("integer overflow".to_owned()))
                }
            },
        }
    }

    /// Rounding: the identity on integers.
    pub fn round_int(&self) -> (r: ValR)
        ensures
            vr_view(r) == round_spec(self@),
    {
        match self {
            Val::Int(i) => Ok(Val::Int(*i)),
            _ => Err(Error::Typ(self.clone(), "number".to_owned())),
        }
    }

    /// The codepoints of a string.
    #[verifier::loop_isolation(false)]
    pub fn explode(&self) -> (r: ValR)
        ensures
            vr_view(r) == explode_spec(self@),
    {
        match self {
            Val::Str(s) => {
                let cs = str_chars(s.as_str());
                let mut out: Vec<Val> = Vec::new();
                let mut i: usize = 0;
                while i < cs.len()
                    invariant
                        0 <= i <= cs@.len(),
                        out@.len() == i,
                        forall|j: int| 0 <= j < i ==> (#[trigger] out@[j]) == Val::Int(
                            cs@[j] as u32 as i64,
                        ),
                    decreases cs@.len() - i,
                {
                    let c = cs[i];
                    proof {
                        vstd::utf8::char_is_scalar(c);
                    }
                    out.push(Val::Int(c as u32 as i64));
                    i = i + 1;
                }
                proof {
                    lemma_elems_view(out@);
                    assert forall|j: int| 0 <= j < out@.len() implies elems_view(out@)[j]
                        == ValV::Int(s@[j] as u32 as int) by {
                        vstd::utf8::char_is_scalar(s@[j]);
                        assert(elems_view(out@)[j] == v_view(out@[j]));
                    }
                    assert(elems_view(out@) =~= Seq::new(
                        s@.len(),
                        |j: int| ValV::Int(s@[j] as u32 as int),
                    ));
                }
                Ok(Val::Arr(out))
            },
            _ => Err(Error::Typ(self.clone(), "string".to_owned())),
        }
    }

    /// The string of an array of codepoints.
    #[verifier::loop_isolation(false)]
    pub fn implode(&self) -> (r: ValR)
        ensures
            vr_view(r) == implode_spec(self@),
    {
        match self {
            Val::Arr(xs) => {
                proof {
                    lemma_elems_view(xs@);
                }
                let ghost xv = elems_view(xs@);
                let mut out: Vec<char> = Vec::new();
                let mut i: usize = 0;
                proof {
                    assert(xv.skip(0) =~= xv);
                }
                while i < xs.len()
                    invariant
                        0 <= i <= xs@.len(),
                        implode_chars(xv) matches Ok(s) ==> implode_chars(xv.skip(i as int))
                            matches Ok(rest) && s == out@ + rest,
                        implode_chars(xv) is Err ==> implode_chars(xv.skip(i as int)) is Err
                            && implode_chars(xv) == implode_chars(xv.skip(i as int)),
                    decreases xs@.len() - i,
                {
                    proof {
                        assert(xv.skip(i as int)[0] == xv[i as int]);
                        assert(xv.skip(i as int).drop_first() =~= xv.skip(i + 1));
                    }
                    match &xs[i] {
                        Val::Int(code) => {
                            let c = *code;
                            if 0 <= c && c < 0x110000 && !(0xD800 <= c && c <= 0xDFFF) {
                                match char_from_u32(c as u32) {
                                    Some(ch) => {
                                        proof {
                                            vstd::utf8::char_u32_cast(ch, c as u32);
                                        }
                                        out.push(ch);
                                    },
                                    None => {
                                        proof {
                                            assert(false);
                                        }
                                    },
                                }
                            } else {
                                return Err(Error::Str("invalid character code".to_owned()));
                            }
                        },
                        other => {
                            return Err(Error::Typ(other.clone(), "number".to_owned()));
                        },
                    }
                    i = i + 1;
                }
                proof {
                    assert(xv.skip(xs@.len() as int).len() == 0);
                    assert(out@ + Seq::<char>::empty() =~= out@);
                }
                Ok(Val::Str(string_from_chars(out)))
            },
            _ => Err(Error::Typ(self.clone(), "array".to_owned())),
        }
    }

    /// ASCII-lowercase a string.
    #[verifier::loop_isolation(false)]
    pub fn ascii_downcase(&self) -> (r: ValR)
        ensures
            vr_view(r) == downcase_spec(self@),
    {
        match self {
            Val::Str(s) => Ok(Val::Str(map_ascii(s.as_str(), false))),
            _ => Err(Error::Typ(self.clone(), "string".to_owned())),
        }
    }

    /// ASCII-uppercase a string.
    #[verifier::loop_isolation(false)]
    pub fn ascii_upcase(&self) -> (r: ValR)
        ensures
            vr_view(r) == upcase_spec(self@),
    {
        match self {
            Val::Str(s) => Ok(Val::Str(map_ascii(s.as_str(), true))),
            _ => Err(Error::Typ(self.clone(), "string".to_owned())),
        }
    }

    /// Reverse an array.
    #[verifier::loop_isolation(false)]
    pub fn reverse(&self) -> (r: ValR)
        ensures
            vr_view(r) == reverse_spec(self@),
    {
        match self {
            Val::Arr(a) => {
                let n = a.len();
                let mut out: Vec<Val> = Vec::new();
                let mut i: usize = 0;
                while i < n
                    invariant
                        0 <= i <= n,
                        out@.len() == i,
                        forall|j: int| 0 <= j < i ==> (#[trigger] out@[j])@ == a@[n - 1 - j]@,
                    decreases n - i,
                {
                    let e = a[n - 1 - i].clone();
                    out.push(e);
                    i = i + 1;
                }
                proof {
                    lemma_elems_view(out@);
                    lemma_elems_view(a@);
                    assert forall|j: int| 0 <= j < out@.len() implies elems_view(out@)[j]
                        == elems_view(a@)[a@.len() - 1 - j] by {
                        assert(elems_view(out@)[j] == v_view(out@[j]));
                        assert(elems_view(a@)[a@.len() - 1 - j] == v_view(a@[a@.len() - 1 - j]));
                    }
                    assert(elems_view(out@) =~= Seq::new(
                        a@.len() as nat,
                        |j: int| elems_view(a@)[a@.len() - 1 - j],
                    ));
                }
                Ok(Val::Arr(out))
            },
            _ => Err(Error::Typ(self.clone(), "array".to_owned())),
        }
    }
}

/// Map every character of a string through the ASCII case tables.
#[verifier::loop_isolation(false)]
fn map_ascii(s: &str, up: bool) -> (r: String)
    ensures
        up ==> r@ == Seq::new(s@.len(), |i: int| upper_char(s@[i])),
        !up ==> r@ == Seq::new(s@.len(), |i: int| lower_char(s@[i])),
{
    let cs = str_chars(s);
    let mut out: Vec<char> = Vec::new();
    let mut i: usize = 0;
    while i < cs.len()
        invariant
            0 <= i <= cs@.len(),
            out@.len() == i,
            forall|j: int| 0 <= j < i ==> (#[trigger] out@[j]) == if up {
                upper_char(cs@[j])
            } else {
                lower_char(cs@[j])
            },
        decreases cs@.len() - i,
    {
        let c = cs[i];
        proof {
            vstd::utf8::char_is_scalar(c);
        }
        let u = c as u32;
        let mapped: char = if up && 'a' <= c && c <= 'z' {
            match char_from_u32(u - 32) {
                Some(m) => {
                    proof {
                        vstd::utf8::char_u32_cast(m, (u - 32) as u32);
                    }
                    m
                },
                None => {
                    proof {
                        assert(false);
                    }
                    c
                },
            }
        } else if !up && 'A' <= c && c <= 'Z' {
            match char_from_u32(u + 32) {
                Some(m) => {
                    proof {
                        vstd::utf8::char_u32_cast(m, (u + 32) as u32);
                    }
                    m
                },
                None => {
                    proof {
                        assert(false);
                    }
                    c
                },
            }
        } else {
            c
        };
        out.push(mapped);
        i = i + 1;
    }
    proof {
        if up {
            assert(out@ =~= Seq::new(s@.len(), |j: int| upper_char(s@[j])));
        } else {
            assert(out@ =~= Seq::new(s@.len(), |j: int| lower_char(s@[j])));
        }
    }
    string_from_chars(out)
}

} // verus!
