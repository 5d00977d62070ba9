//! Errors, arithmetic and ordering operators of the value model.

use vstd::prelude::*;

use crate::val::{
    elems_view, entries_view, lemma_elems_view, lemma_entries_view, v_view, val_cmp, val_eq, Cmp,
    Val, ValV,
};
use vstd::pervasive::VecAdditionalExecFns;
use vstd::string::StringExecFns;

verus! {

/// An arithmetic operator.
#[derive(Clone, Copy, Debug, PartialEq, Eq, Structural)]
pub enum MathOp {
    Add,
    Sub,
    Mul,
    Div,
    Rem,
}

/// An ordering operator.
#[derive(Clone, Copy, Debug, PartialEq, Eq, Structural)]
pub enum OrdOp {
    Lt,
    Le,
    Gt,
    Ge,
    Eq,
    Ne,
}

/// An evaluation error.  Errors are first-class stream elements: they do
/// not abort the stream they appear in.
#[derive(Debug, PartialEq, Eq)]
pub enum Error {
    /// A value thrown by the user's `error` filter.
    Val(Val),
    /// A type error: the value, and the name of the expected kind.
    Typ(Val, String),
    /// An indexing error: the value and the index that does not fit it.
    Index(Val, Val),
    /// An arithmetic error: unsupported operand pair.
    Math(Val, MathOp, Val),
    /// A failure to parse a JSON document.
    Parse(String),
    /// A general message.
    Str(String),
}

/// Model of an error.
pub enum ErrorV {
    Val(ValV),
    Typ(ValV, Seq<char>),
    Index(ValV, ValV),
    Math(ValV, MathOp, ValV),
    Parse(Seq<char>),
    Str(Seq<char>),
}

impl View for Error {
    type V = ErrorV;

    open spec fn view(&self) -> ErrorV {
        match self {
            Error::Val(v) => ErrorV::Val(v_view(*v)),
            Error::Typ(v, s) => ErrorV::Typ(v_view(*v), s@),
            Error::Index(v, i) => ErrorV::Index(v_view(*v), v_view(*i)),
            Error::Math(l, op, r) => ErrorV::Math(v_view(*l), *op, v_view(*r)),
            Error::Parse(s) => ErrorV::Parse(s@),
            Error::Str(s) => ErrorV::Str(s@),
        }
    }
}

impl Clone for Error {
    /// A clone has the same model.
    fn clone(&self) -> (res: Self)
        ensures
            res@ == self@,
    {
        match self {
            Error::Val(v) => Error::Val(v.clone()),
            Error::Typ(v, s) => Error::Typ(v.clone(), s.clone()),
            Error::Index(v, i) => Error::Index(v.clone(), i.clone()),
            Error::Math(l, op, r) => Error::Math(l.clone(), *op, r.clone()),
            Error::Parse(s) => Error::Parse(s.clone()),
            Error::Str(s) => Error::Str(s.clone()),
        }
    }
}

/// One element of an output stream: a value or an error.
pub type ValR = Result<Val, Error>;

/// Model of one stream element.
pub type RV = Result<ValV, ErrorV>;

/// Model of a stream element.
pub open spec fn vr_view(r: ValR) -> RV {
    match r {
        Ok(v) => Ok(v_view(v)),
        Err(e) => Err(e@),
    }
}

/// Model of an output stream.
pub open spec fn outs_view(s: Seq<ValR>) -> Seq<RV> {
    s.map_values(|r: ValR| vr_view(r))
}

/// Model of a collected value list.
pub open spec fn vals_view(s: Seq<Val>) -> Seq<ValV> {
    elems_view(s)
}

/// An integer result, or an overflow error when it does not fit a machine
/// integer.
pub open spec fn int_norm(i: int) -> Result<ValV, ErrorV> {
    if i64::MIN <= i <= i64::MAX {
        Ok(ValV::Int(i))
    } else {
        Err(ErrorV::Str("integer overflow"@))
    }
}

/// Division truncated towards zero, as machine division computes it.
pub open spec fn trunc_div(x: int, d: int) -> int
    recommends
        d != 0,
{
    if x == 0 {
        0
    } else if x > 0 && d > 0 {
        x / d
    } else if x < 0 && d < 0 {
        ((x * -1) / (d * -1))
    } else if x < 0 {
        ((x * -1) / d) * -1
    } else {
        (x / (d * -1)) * -1
    }
}

/// Remainder of division truncated towards zero.
pub open spec fn trunc_rem(x: int, d: int) -> int
    recommends
        d != 0,
{
    if x == 0 {
        0
    } else if x > 0 && d > 0 {
        x % d
    } else if x < 0 && d < 0 {
        ((x * -1) % (d * -1)) * -1
    } else if x < 0 {
        ((x * -1) % d) * -1
    } else {
        x % (d * -1)
    }
}

/// Whether some element of `s` equals `x` in the value order.
pub open spec fn seq_has(s: Seq<ValV>, x: ValV) -> bool {
    exists|i: int| 0 <= i < s.len() && val_eq(s[i], x)
}

/// Set key `k` to `v`: replace the value in place when the key is present,
/// append a new entry otherwise.
pub open spec fn obj_set(o: Seq<(Seq<char>, ValV)>, k: Seq<char>, v: ValV) -> Seq<
    (Seq<char>, ValV),
>
    decreases o.len(),
{
    if o.len() == 0 {
        seq![(k, v)]
    } else if o[0].0 == k {
        seq![(k, v)] + o.drop_first()
    } else {
        seq![o[0]] + obj_set(o.drop_first(), k, v)
    }
}

/// Merge two objects, the right one winning on shared keys.
pub open spec fn obj_merge(a: Seq<(Seq<char>, ValV)>, b: Seq<(Seq<char>, ValV)>) -> Seq<
    (Seq<char>, ValV),
>
    decreases b.len(),
{
    if b.len() == 0 {
        a
    } else {
        obj_merge(obj_set(a, b[0].0, b[0].1), b.drop_first())
    }
}

/// Elements of `a` that equal no element of `b`, in order.
pub open spec fn arr_diff(a: Seq<ValV>, b: Seq<ValV>) -> Seq<ValV>
    decreases a.len(),
{
    if a.len() == 0 {
        Seq::empty()
    } else if seq_has(b, a[0]) {
        arr_diff(a.drop_first(), b)
    } else {
        seq![a[0]] + arr_diff(a.drop_first(), b)
    }
}

/// The sum of two values: `null` is a neutral element, numbers add,
/// strings and arrays concatenate, objects merge with the right one
/// winning.
pub open spec fn add_spec(a: ValV, b: ValV) -> Result<ValV, ErrorV> {
    match (a, b) {
        (ValV::Null, x) => Ok(x),
        (x, ValV::Null) => Ok(x),
        (ValV::Int(x), ValV::Int(y)) => int_norm(x + y),
        (ValV::Str(x), ValV::Str(y)) => Ok(ValV::Str(x + y)),
        (ValV::Arr(x), ValV::Arr(y)) => Ok(ValV::Arr(x + y)),
        (ValV::Obj(x), ValV::Obj(y)) => Ok(ValV::Obj(obj_merge(x, y))),
        (x, y) => Err(ErrorV::Math(x, MathOp::Add, y)),
    }
}

/// The difference of two values: numbers subtract, arrays remove the
/// elements of the right one.
pub open spec fn sub_spec(a: ValV, b: ValV) -> Result<ValV, ErrorV> {
    match (a, b) {
        (ValV::Int(x), ValV::Int(y)) => int_norm(x - y),
        (ValV::Arr(x), ValV::Arr(y)) => Ok(ValV::Arr(arr_diff(x, y))),
        (x, y) => Err(ErrorV::Math(x, MathOp::Sub, y)),
    }
}

/// The product of two numbers.
pub open spec fn mul_spec(a: ValV, b: ValV) -> Result<ValV, ErrorV> {
    match (a, b) {
        (ValV::Int(x), ValV::Int(y)) => int_norm(x * y),
        (x, y) => Err(ErrorV::Math(x, MathOp::Mul, y)),
    }
}

/// The quotient of two numbers, truncated towards zero; division by zero
/// is an arithmetic error.
pub open spec fn div_spec(a: ValV, b: ValV) -> Result<ValV, ErrorV> {
    match (a, b) {
        (ValV::Int(x), ValV::Int(y)) => if y == 0 {
            Err(ErrorV::Math(ValV::Int(x), MathOp::Div, ValV::Int(y)))
        } else {
            int_norm(trunc_div(x, y))
        },
        (x, y) => Err(ErrorV::Math(x, MathOp::Div, y)),
    }
}

/// The remainder of two numbers; a zero divisor is an arithmetic error.
pub open spec fn rem_spec(a: ValV, b: ValV) -> Result<ValV, ErrorV> {
    match (a, b) {
        (ValV::Int(x), ValV::Int(y)) => if y == 0 {
            Err(ErrorV::Math(ValV::Int(x), MathOp::Rem, ValV::Int(y)))
        } else {
            int_norm(trunc_rem(x, y))
        },
        (x, y) => Err(ErrorV::Math(x, MathOp::Rem, y)),
    }
}

/// The arithmetic operator denoted by a [`MathOp`].
pub open spec fn math_spec(op: MathOp, a: ValV, b: ValV) -> Result<ValV, ErrorV> {
    match op {
        MathOp::Add => add_spec(a, b),
        MathOp::Sub => sub_spec(a, b),
        MathOp::Mul => mul_spec(a, b),
        MathOp::Div => div_spec(a, b),
        MathOp::Rem => rem_spec(a, b),
    }
}

/// The numeric negation of a value.
pub open spec fn neg_spec(a: ValV) -> Result<ValV, ErrorV> {
    match a {
        ValV::Int(x) => int_norm(-x),
        x => Err(ErrorV::Typ(x, "number"@)),
    }
}

/// The comparison denoted by an [`OrdOp`], over the total value order.
pub open spec fn ord_spec(op: OrdOp, a: ValV, b: ValV) -> bool {
    match op {
        OrdOp::Lt => val_cmp(a, b) == Cmp::Less,
        OrdOp::Le => val_cmp(a, b) != Cmp::Greater,
        OrdOp::Gt => val_cmp(a, b) == Cmp::Greater,
        OrdOp::Ge => val_cmp(a, b) != Cmp::Less,
        OrdOp::Eq => val_cmp(a, b) == Cmp::Equal,
        OrdOp::Ne => val_cmp(a, b) != Cmp::Equal,
    }
}

/// `obj_set` replaces in place the first entry whose key is `k`.
proof fn lemma_obj_set_found(o: Seq<(Seq<char>, ValV)>, k: Seq<char>, v: ValV, m: int)
    requires
        0 <= m < o.len(),
        o[m].0 == k,
        forall|j: int| 0 <= j < m ==> (#[trigger] o[j]).0 != k,
    ensures
        obj_set(o, k, v) =~= o.update(m, (k, v)),
    decreases m,
{
    if m == 0 {
        assert(obj_set(o, k, v) == seq![(k, v)] + o.drop_first());
    } else {
        assert(o[0].0 != k);
        lemma_obj_set_found(o.drop_first(), k, v, m - 1);
        assert(obj_set(o, k, v) == seq![o[0]] + obj_set(o.drop_first(), k, v));
        assert(o.drop_first().update(m - 1, (k, v)) =~= o.update(m, (k, v)).drop_first());
    }
}

/// `obj_set` appends when no entry has key `k`.
pub proof fn lemma_obj_set_absent(o: Seq<(Seq<char>, ValV)>, k: Seq<char>, v: ValV)
    requires
        forall|j: int| 0 <= j < o.len() ==> (#[trigger] o[j]).0 != k,
    ensures
        obj_set(o, k, v) =~= o.push((k, v)),
    decreases o.len(),
{
    if o.len() > 0 {
        lemma_obj_set_absent(o.drop_first(), k, v);
        assert(o.drop_first().push((k, v)) =~= o.push((k, v)).drop_first());
    }
}

/// Set key `k` of an object's entry list to `v`, replacing in place or
/// appending.
#[verifier::loop_isolation(false)]
pub fn entries_set(o: &mut Vec<(String, Val)>, k: String, v: Val)
    ensures
        entries_view(final(o)@) == obj_set(entries_view(old(o)@), k@, v@),
{
    proof {
        lemma_entries_view(o@);
    }
    let ghost o0 = o@;
    let ghost ev = entries_view(o0);
    let mut i: usize = 0;
    while i < o.len()
        invariant
            o@ == o0,
            0 <= i <= o0.len(),
            forall|j: int| 0 <= j < i ==> (#[trigger] ev[j]).0 != k@,
        decreases o0.len() - i,
    {
        if o[i].0 == k {
            proof {
                assert(ev[i as int] == (o0[i as int].0@, v_view(o0[i as int].1)));
                lemma_obj_set_found(ev, k@, v@, i as int);
            }
            o.set(i, (k, v));
            proof {
                lemma_entries_view(o@);
                assert forall|j: int| 0 <= j < o@.len() implies entries_view(o@)[j] == ev.update(
                    i as int,
                    (k@, v@),
                )[j] by {
                    assert(entries_view(o@)[j] == (o@[j].0@, v_view(o@[j].1)));
                    if j != i {
                        assert(o@[j] == o0[j]);
                        assert(ev[j] == (o0[j].0@, v_view(o0[j].1)));
                    }
                }
                assert(entries_view(o@) =~= ev.update(i as int, (k@, v@)));
            }
            return ;
        }
        proof {
            assert(ev[i as int] == (o0[i as int].0@, v_view(o0[i as int].1)));
        }
        i = i + 1;
    }
    proof {
        lemma_obj_set_absent(ev, k@, v@);
    }
    o.push((k, v));
    proof {
        lemma_entries_view(o@);
        assert forall|j: int| 0 <= j < o@.len() implies entries_view(o@)[j] == ev.push(
            (k@, v@),
        )[j] by {
            assert(entries_view(o@)[j] == (o@[j].0@, v_view(o@[j].1)));
            if j < o0.len() {
                assert(o@[j] == o0[j]);
                assert(ev[j] == (o0[j].0@, v_view(o0[j].1)));
            }
        }
        assert(entries_view(o@) =~= ev.push((k@, v@)));
    }
}

/// Whether some element of `a` equals `x` in the value order.
pub fn vec_has(a: &Vec<Val>, x: &Val) -> (r: bool)
    ensures
        r == seq_has(elems_view(a@), x@),
{
    proof {
        lemma_elems_view(a@);
    }
    let mut i: usize = 0;
    while i < a.len()
        invariant
            0 <= i <= a@.len(),
            elems_view(a@).len() == a@.len(),
            forall|j: int| 0 <= j < a@.len() ==> elems_view(a@)[j] == v_view(#[trigger] a@[j]),
            forall|j: int| 0 <= j < i ==> !val_eq(elems_view(a@)[j], x@),
        decreases a@.len() - i,
    {
        if a[i].eq_val(x) {
            return true;
        }
        i = i + 1;
    }
    false
}

impl MathOp {
    /// Apply the arithmetic operator to two values.
    pub fn run(self, a: Val, b: Val) -> (r: ValR)
        ensures
            vr_view(r) == math_spec(self, a@, b@),
    {
        match self {
            MathOp::Add => add_vals(a, b),
            MathOp::Sub => sub_vals(a, b),
            MathOp::Mul => mul_vals(a, b),
            MathOp::Div => div_vals(a, b),
            MathOp::Rem => rem_vals(a, b),
        }
    }
}

impl OrdOp {
    /// Apply the ordering operator to two values.
    pub fn run(self, a: &Val, b: &Val) -> (r: bool)
        ensures
            r == ord_spec(self, a@, b@),
    {
        let c = a.cmp_with(b);
        match self {
            OrdOp::Lt => matches!(c, Cmp::Less),
            OrdOp::Le => !matches!(c, Cmp::Greater),
            OrdOp::Gt => matches!(c, Cmp::Greater),
            OrdOp::Ge => !matches!(c, Cmp::Less),
            OrdOp::Eq => matches!(c, Cmp::Equal),
            OrdOp::Ne => !matches!(c, Cmp::Equal),
        }
    }
}

/// The overflow error.
fn overflow_error() -> (r: Error)
    ensures
        r@ == ErrorV::Str("integer overflow"@),
{
    Error::Str("integer overflow".to_owned())
}

/// The sum of two values.
pub fn add_vals(a: Val, b: Val) -> (r: ValR)
    ensures
        vr_view(r) == add_spec(a@, b@),
{
    match (a, b) {
        (Val::Null, x) => Ok(x),
        (x, Val::Null) => Ok(x),
        (Val::Int(x), Val::Int(y)) => match x.checked_add(y) {
            Some(z) => Ok(Val::Int(z)),
            None => Err(overflow_error()),
        },
        (Val::Str(x), Val::Str(y)) => Ok(Val::Str(x.concat(y.as_str()))),
        (Val::Arr(x), Val::Arr(y)) => {
            let ghost xs = x@;
            let mut out = x;
            let mut i: usize = 0;
            while i < y.len()
                invariant
                    0 <= i <= y@.len(),
                    out@.len() == xs.len() + i,
                    forall|j: int| 0 <= j < xs.len() ==> out@[j] == xs[j],
                    forall|j: int| 0 <= j < i ==> (#[trigger] out@[xs.len() + j])@ == y@[j]@,
                decreases y@.len() - i,
            {
                let e = y[i].clone();
                out.push(e);
                i = i + 1;
            }
            proof {
                lemma_elems_view(out@);
                lemma_elems_view(xs);
                lemma_elems_view(y@);
                assert forall|j: int| 0 <= j < out@.len() implies elems_view(out@)[j] == (
                elems_view(xs) + elems_view(y@))[j] by {
                    assert(elems_view(out@)[j] == v_view(out@[j]));
                    if j < xs.len() {
                        assert(out@[j] == xs[j]);
                    } else {
                        let jj = j - xs.len();
                        assert(out@[xs.len() + jj]@ == y@[jj]@);
                    }
                }
                assert(elems_view(out@) =~= elems_view(xs) + elems_view(y@));
            }
            Ok(Val::Arr(out))
        },
        (Val::Obj(x), Val::Obj(y)) => {
            proof {
                lemma_entries_view(x@);
                lemma_entries_view(y@);
            }
            let ghost xv = entries_view(x@);
            let ghost yv = entries_view(y@);
            let mut out = x;
            let mut i: usize = 0;
            proof {
                assert(yv.skip(0) =~= yv);
            }
            while i < y.len()
                invariant
                    0 <= i <= y@.len(),
                    yv == entries_view(y@),
                    yv.len() == y@.len(),
                    forall|j: int| 0 <= j < y@.len() ==> yv[j] == ((#[trigger] y@[j]).0@, v_view(
                        y@[j].1,
                    )),
                    obj_merge(xv, yv) == obj_merge(entries_view(out@), yv.skip(i as int)),
                decreases y@.len() - i,
            {
                let k = y[i].0.clone();
                let v = y[i].1.clone();
                proof {
                    assert(yv.skip(i as int)[0] == yv[i as int]);
                    assert(yv.skip(i as int).drop_first() =~= yv.skip(i + 1));
                }
                entries_set(&mut out, k, v);
                i = i + 1;
            }
            proof {
                assert(yv.skip(i as int).len() == 0);
                assert(obj_merge(entries_view(out@), yv.skip(i as int)) == entries_view(out@));
            }
            Ok(Val::Obj(out))
        },
        (x, y) => Err(Error::Math(x, MathOp::Add, y)),
    }
}

/// The difference of two values.
pub fn sub_vals(a: Val, b: Val) -> (r: ValR)
    ensures
        vr_view(r) == sub_spec(a@, b@),
{
    match (a, b) {
        (Val::Int(x), Val::Int(y)) => match x.checked_sub(y) {
            Some(z) => Ok(Val::Int(z)),
            None => Err(overflow_error()),
        },
        (Val::Arr(x), Val::Arr(y)) => {
            proof {
                lemma_elems_view(x@);
                lemma_elems_view(y@);
            }
            let ghost xv = elems_view(x@);
            let ghost yv = elems_view(y@);
            let mut out: Vec<Val> = Vec::new();
            let mut i: usize = 0;
            proof {
                assert(xv.skip(0) =~= xv);
            }
            while i < x.len()
                invariant
                    0 <= i <= x@.len(),
                    xv == elems_view(x@),
                    yv == elems_view(y@),
                    xv.len() == x@.len(),
                    forall|j: int| 0 <= j < x@.len() ==> xv[j] == v_view(#[trigger] x@[j]),
                    arr_diff(xv, yv) == elems_view(out@) + arr_diff(xv.skip(i as int), yv),
                decreases x@.len() - i,
            {
                proof {
                    assert(xv.skip(i as int)[0] == xv[i as int]);
                    assert(xv.skip(i as int).drop_first() =~= xv.skip(i + 1));
                }
                if !vec_has(&y, &x[i]) {
                    let ghost before = out@;
                    let e = x[i].clone();
                    out.push(e);
                    proof {
                        lemma_elems_view(before);
                        lemma_elems_view(out@);
                        assert forall|j: int| 0 <= j < out@.len() implies elems_view(out@)[j] == (
                        elems_view(before) + seq![xv[i as int]])[j] by {
                            assert(elems_view(out@)[j] == v_view(out@[j]));
                            if j < before.len() {
                                assert(out@[j] == before[j]);
                                assert(elems_view(before)[j] == v_view(before[j]));
                            } else {
                                assert(out@[j] == e);
                            }
                        }
                        assert(elems_view(out@) =~= elems_view(before) + seq![xv[i as int]]);
                    }
                }
                i = i + 1;
            }
            proof {
                assert(arr_diff(xv.skip(i as int), yv) =~= Seq::<ValV>::empty());
                assert(elems_view(out@) + Seq::<ValV>::empty() =~= elems_view(out@));
            }
            Ok(Val::Arr(out))
        },
        (x, y) => Err(Error::Math(x, MathOp::Sub, y)),
    }
}

/// The product of two values.
pub fn mul_vals(a: Val, b: Val) -> (r: ValR)
    ensures
        vr_view(r) == mul_spec(a@, b@),
{
    match (a, b) {
        (Val::Int(x), Val::Int(y)) => match x.checked_mul(y) {
            Some(z) => Ok(Val::Int(z)),
            None => Err(overflow_error()),
        },
        (x, y) => Err(Error::Math(x, MathOp::Mul, y)),
    }
}

/// The quotient of two values.
pub fn div_vals(a: Val, b: Val) -> (r: ValR)
    ensures
        vr_view(r) == div_spec(a@, b@),
{
    match (a, b) {
        (Val::Int(x), Val::Int(y)) => {
            if y == 0 {
                Err(Error::Math(Val::Int(x), MathOp::Div, Val::Int(y)))
            } else {
                match x.checked_div(y) {
                    Some(z) => Ok(Val::Int(z)),
                    None => Err(overflow_error()),
                }
            }
        },
        (x, y) => Err(Error::Math(x, MathOp::Div, y)),
    }
}

/// The remainder of two values.
pub fn rem_vals(a: Val, b: Val) -> (r: ValR)
    ensures
        vr_view(r) == rem_spec(a@, b@),
{
    match (a, b) {
        (Val::Int(x), Val::Int(y)) => {
            if y == 0 {
                Err(Error::Math(Val::Int(x), MathOp::Rem, Val::Int(y)))
            } else if y == -1 {
                Ok(Val::Int(0))
            } else {
                match x.checked_rem(y) {
                    Some(z) => Ok(Val::Int(z)),
                    None => Err(overflow_error()),
                }
            }
        },
        (x, y) => Err(Error::Math(x, MathOp::Rem, y)),
    }
}

/// The numeric negation of a value.
pub fn neg_val(a: Val) -> (r: ValR)
    ensures
        vr_view(r) == neg_spec(a@),
{
    match a {
        Val::Int(x) => {
            if x == i64::MIN {
                Err(overflow_error())
            } else {
                Ok(Val::Int(-x))
            }
        },
        x => Err(Error::Typ(x, "number".to_owned())),
    }
}

} // verus!
