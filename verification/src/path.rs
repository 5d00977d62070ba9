//! The path model: materialized path parts and the value-level
//! operations they perform — indexing, slicing, iteration, and the
//! updates used by assignments.

use vstd::prelude::*;

use crate::filter::Opt;
use crate::ops::{Error, ErrorV, ValR, vr_view};
use crate::search::{entries_get, obj_get};
use crate::val::{
    elems_view, entries_view, lemma_elems_view, lemma_entries_view, v_view, Val, ValV,
};
use vstd::pervasive::VecAdditionalExecFns;

verus! {

/// A materialized path part: every index expression has been evaluated
/// to a list of values.
pub enum PartVals {
    Index(Vec<Val>),
    Slice(Option<Vec<Val>>, Option<Vec<Val>>),
}

/// Model of a materialized part.
pub enum PartV {
    Index(Seq<ValV>),
    Slice(Option<Seq<ValV>>, Option<Seq<ValV>>),
}

/// Model of one materialized part.
pub open spec fn part_view(p: PartVals) -> PartV {
    match p {
        PartVals::Index(vs) => PartV::Index(elems_view(vs@)),
        PartVals::Slice(a, b) => PartV::Slice(
            match a {
                Some(vs) => Some(elems_view(vs@)),
                None => None,
            },
            match b {
                Some(vs) => Some(elems_view(vs@)),
                None => None,
            },
        ),
    }
}

/// Model of a materialized part list.
pub open spec fn parts_view(ps: Seq<(PartVals, Opt)>) -> Seq<(PartV, Opt)>
    decreases ps,
{
    if ps.len() == 0 {
        Seq::empty()
    } else {
        seq![(part_view(ps[0].0), ps[0].1)] + parts_view(ps.drop_first())
    }
}

/// The model of a part list is the list of the parts' models.
pub proof fn lemma_parts_view(ps: Seq<(PartVals, Opt)>)
    ensures
        parts_view(ps).len() == ps.len(),
        forall|i: int| 0 <= i < ps.len() ==> parts_view(ps)[i] == (part_view(
            (#[trigger] ps[i]).0,
        ), ps[i].1),
    decreases ps.len(),
{
    if ps.len() > 0 {
        lemma_parts_view(ps.drop_first());
        assert forall|i: int| 0 <= i < ps.len() implies parts_view(ps)[i] == (part_view(
            (#[trigger] ps[i]).0,
        ), ps[i].1) by {
            if i > 0 {
                assert(parts_view(ps)[i] == parts_view(ps.drop_first())[i - 1]);
                assert(ps.drop_first()[i - 1] == ps[i]);
            }
        }
    }
}

/// Index a value with another value: strings index objects, integers
/// index arrays (negative counts from the end; out of range is `null`),
/// and `null` yields `null`.
pub open spec fn idx_get(v: ValV, i: ValV) -> Result<ValV, ErrorV> {
    match (v, i) {
        (ValV::Null, ValV::Str(_)) => Ok(ValV::Null),
        (ValV::Null, ValV::Int(_)) => Ok(ValV::Null),
        (ValV::Obj(o), ValV::Str(k)) => match obj_get(o, k) {
            Some(x) => Ok(x),
            None => Ok(ValV::Null),
        },
        (ValV::Arr(a), ValV::Int(n)) => {
            let m = if n < 0 {
                n + a.len()
            } else {
                n
            };
            if 0 <= m < a.len() {
                Ok(a[m])
            } else {
                Ok(ValV::Null)
            }
        },
        (x, y) => Err(ErrorV::Index(x, y)),
    }
}

/// A slice bound, clamped into the length; negative counts from the end.
pub open spec fn slice_bound(len: int, i: int) -> int {
    let j = if i < 0 {
        i + len
    } else {
        i
    };
    if j < 0 {
        0
    } else if j > len {
        len
    } else {
        j
    }
}

/// The integer of a slice bound value: an integer itself, or the default
/// for `null` or a missing bound.
pub open spec fn bound_int(b: Option<ValV>, dflt: int) -> Result<int, ErrorV> {
    match b {
        None => Ok(dflt),
        Some(ValV::Null) => Ok(dflt),
        Some(ValV::Int(n)) => Ok(n),
        Some(x) => Err(ErrorV::Typ(x, "number"@)),
    }
}

/// Slice a value: arrays and strings slice, `null` yields `null`.
pub open spec fn slice_get(v: ValV, from: Option<ValV>, until: Option<ValV>) -> Result<
    ValV,
    ErrorV,
> {
    match v {
        ValV::Null => Ok(ValV::Null),
        ValV::Arr(a) => match bound_int(from, 0) {
            Ok(f) => match bound_int(until, a.len() as int) {
                Ok(u) => {
                    let lo = slice_bound(a.len() as int, f);
                    let hi = slice_bound(a.len() as int, u);
                    if lo <= hi {
                        Ok(ValV::Arr(a.subrange(lo, hi)))
                    } else {
                        Ok(ValV::Arr(Seq::empty()))
                    }
                },
                Err(e) => Err(e),
            },
            Err(e) => Err(e),
        },
        ValV::Str(s) => match bound_int(from, 0) {
            Ok(f) => match bound_int(until, s.len() as int) {
                Ok(u) => {
                    let lo = slice_bound(s.len() as int, f);
                    let hi = slice_bound(s.len() as int, u);
                    if lo <= hi {
                        Ok(ValV::Str(s.subrange(lo, hi)))
                    } else {
                        Ok(ValV::Str(Seq::empty()))
                    }
                },
                Err(e) => Err(e),
            },
            Err(e) => Err(e),
        },
        x => Err(ErrorV::Typ(x, "array or string"@)),
    }
}

/// The values a whole-range part iterates over: array elements, or
/// object entry values.
pub open spec fn iter_vals(v: ValV) -> Result<Seq<ValV>, ErrorV> {
    match v {
        ValV::Arr(a) => Ok(a),
        ValV::Obj(o) => Ok(Seq::new(o.len(), |i: int| o[i].1)),
        x => Err(ErrorV::Typ(x, "array or object"@)),
    }
}

/// Remove the entry with key `k`, if any.
pub open spec fn obj_del(o: Seq<(Seq<char>, ValV)>, k: Seq<char>) -> Seq<(Seq<char>, ValV)>
    decreases o.len(),
{
    if o.len() == 0 {
        o
    } else if o[0].0 == k {
        o.drop_first()
    } else {
        seq![o[0]] + obj_del(o.drop_first(), k)
    }
}

/// Set a key or index of a value, creating objects from `null`, padding
/// arrays with `null` up to a new index.
pub open spec fn set_idx(v: ValV, i: ValV, nv: ValV) -> Result<ValV, ErrorV> {
    match (v, i) {
        (ValV::Null, ValV::Str(k)) => Ok(ValV::Obj(seq![(k, nv)])),
        (ValV::Obj(o), ValV::Str(k)) => Ok(ValV::Obj(crate::ops::obj_set(o, k, nv))),
        (ValV::Null, ValV::Int(n)) => if 0 <= n && n < usize::MAX {
            Ok(ValV::Arr(Seq::new(n as nat, |j: int| ValV::Null).push(nv)))
        } else if n >= usize::MAX {
            Err(ErrorV::Str("array index too large"@))
        } else {
            Err(ErrorV::Index(ValV::Null, ValV::Int(n)))
        },
        (ValV::Arr(a), ValV::Int(n)) => {
            let m = if n < 0 {
                n + a.len()
            } else {
                n
            };
            if 0 <= m < a.len() {
                Ok(ValV::Arr(a.update(m, nv)))
            } else if a.len() <= m < usize::MAX {
                Ok(
                    ValV::Arr(
                        a + Seq::new((m - a.len()) as nat, |j: int| ValV::Null) + seq![nv],
                    ),
                )
            } else if m >= usize::MAX {
                Err(ErrorV::Str("array index too large"@))
            } else {
                Err(ErrorV::Index(ValV::Arr(a), ValV::Int(n)))
            }
        },
        (x, y) => Err(ErrorV::Index(x, y)),
    }
}

/// Delete a key or index of a value; a missing key or index leaves the
/// value unchanged.
pub open spec fn del_idx(v: ValV, i: ValV) -> Result<ValV, ErrorV> {
    match (v, i) {
        (ValV::Null, ValV::Str(_)) => Ok(ValV::Null),
        (ValV::Null, ValV::Int(_)) => Ok(ValV::Null),
        (ValV::Obj(o), ValV::Str(k)) => Ok(ValV::Obj(obj_del(o, k))),
        (ValV::Arr(a), ValV::Int(n)) => {
            let m = if n < 0 {
                n + a.len()
            } else {
                n
            };
            if 0 <= m < a.len() {
                Ok(ValV::Arr(a.remove(m)))
            } else {
                Ok(ValV::Arr(a))
            }
        },
        (x, y) => Err(ErrorV::Index(x, y)),
    }
}

impl Val {
    /// Index this value with another value.
    pub fn index_with(&self, i: &Val) -> (r: ValR)
        ensures
            vr_view(r) == idx_get(self@, i@),
    {
        match (self, i) {
            (Val::Null, Val::Str(_)) => Ok(Val::Null),
            (Val::Null, Val::Int(_)) => Ok(Val::Null),
            (Val::Obj(o), Val::Str(k)) => {
                proof {
                    lemma_entries_view(o@);
                }
                match entries_get(o, k) {
                    Some(x) => Ok(x),
                    None => Ok(Val::Null),
                }
            },
            (Val::Arr(a), Val::Int(n)) => {
                proof {
                    lemma_elems_view(a@);
                }
                let len = a.len() as u64;
                let m: i128 = if *n < 0 {
                    *n as i128 + len as i128
                } else {
                    *n as i128
                };
                if 0 <= m && m < len as i128 {
                    let e = a[m as usize].clone();
                    Ok(e)
                } else {
                    Ok(Val::Null)
                }
            },
            _ => Err(Error::Index(self.clone(), i.clone())),
        }
    }

    /// Set a key or index of this value.
    #[verifier::loop_isolation(false)]
    pub fn set_index(self, i: &Val, nv: Val) -> (r: ValR)
        ensures
            vr_view(r) == set_idx(self@, i@, nv@),
    {
        match (self, i) {
            (Val::Null, Val::Str(k)) => {
                let mut o: Vec<(String, Val)> = Vec::new();
                o.push((k.clone(), nv));
                proof {
                    lemma_entries_view(o@);
                    assert(entries_view(o@) =~= seq![(k@, v_view(o@[0].1))]);
                }
                Ok(Val::Obj(o))
            },
            (Val::Obj(o), Val::Str(k)) => {
                let mut o = o;
                crate::ops::entries_set(&mut o, k.clone(), nv);
                Ok(Val::Obj(o))
            },
            (Val::Null, Val::Int(n)) => {
                if *n < 0 {
                    Err(Error::Index(Val::Null, Val::Int(*n)))
                } else if (*n as u64) >= (usize::MAX as u64) {
                    Err(Error::Str("array index too large".to_owned()))
                } else {
                    let count = *n as usize;
                    let mut a: Vec<Val> = Vec::new();
                    let mut j: usize = 0;
                    while j < count
                        invariant
                            0 <= j <= count,
                            a@.len() == j,
                            forall|t: int| 0 <= t < j ==> (#[trigger] a@[t]) == Val::Null,
                        decreases count - j,
                    {
                        a.push(Val::Null);
                        j = j + 1;
                    }
                    a.push(nv);
                    proof {
                        lemma_elems_view(a@);
                        assert forall|t: int| 0 <= t < a@.len() implies elems_view(a@)[t]
                            == Seq::new(count as nat, |u: int| ValV::Null).push(
                            v_view(a@[count as int]),
                        )[t] by {
                            assert(elems_view(a@)[t] == v_view(a@[t]));
                            if t < count {
                                assert(a@[t] == Val::Null);
                            }
                        }
                        assert(elems_view(a@) =~= Seq::new(count as nat, |t: int| ValV::Null).push(
                            v_view(a@[count as int]),
                        ));
                    }
                    Ok(Val::Arr(a))
                }
            },
            (Val::Arr(a), Val::Int(n)) => {
                proof {
                    lemma_elems_view(a@);
                }
                let len = a.len() as u64;
                let m: i128 = if *n < 0 {
                    *n as i128 + len as i128
                } else {
                    *n as i128
                };
                if 0 <= m && m < len as i128 {
                    let mut a = a;
                    let ghost a0 = a@;
                    a.set(m as usize, nv);
                    proof {
                        lemma_elems_view(a@);
                        assert forall|t: int| 0 <= t < a@.len() implies elems_view(a@)[t]
                            == elems_view(a0).update(m as int, v_view(a@[m as int]))[t] by {
                            assert(elems_view(a@)[t] == v_view(a@[t]));
                            if t != m {
                                assert(a@[t] == a0[t]);
                            }
                        }
                        assert(elems_view(a@) =~= elems_view(a0).update(
                            m as int,
                            v_view(a@[m as int]),
                        ));
                    }
                    Ok(Val::Arr(a))
                } else if m >= len as i128 {
                    if m >= usize::MAX as i128 {
                        return Err(Error::Str("array index too large".to_owned()));
                    }
                    let target = m as usize;
                    let mut a = a;
                    let ghost a0 = a@;
                    let mut j: usize = a.len();
                    while j < target
                        invariant
                            a0.len() <= j <= target,
                            a@.len() == j,
                            forall|t: int| 0 <= t < a0.len() ==> (#[trigger] a@[t]) == a0[t],
                            forall|t: int| a0.len() <= t < j ==> (#[trigger] a@[t]) == Val::Null,
                        decreases target - j,
                    {
                        a.push(Val::Null);
                        j = j + 1;
                    }
                    a.push(nv);
                    proof {
                        lemma_elems_view(a@);
                        lemma_elems_view(a0);
                        assert forall|t: int| 0 <= t < a@.len() implies elems_view(a@)[t] == (
                        elems_view(a0) + Seq::new((target - a0.len()) as nat, |u: int| ValV::Null)
                            + seq![v_view(a@[target as int])])[t] by {
                            assert(elems_view(a@)[t] == v_view(a@[t]));
                            if t < a0.len() {
                                assert(a@[t] == a0[t]);
                                assert(elems_view(a0)[t] == v_view(a0[t]));
                            } else if t < target {
                                assert(a@[t] == Val::Null);
                            }
                        }
                        assert(elems_view(a@) =~= elems_view(a0) + Seq::new(
                            (target - a0.len()) as nat,
                            |t: int| ValV::Null,
                        ) + seq![v_view(a@[target as int])]);
                    }
                    Ok(Val::Arr(a))
                } else {
                    let mut a = a;
                    Err(Error::Index(Val::Arr(a), Val::Int(*n)))
                }
            },
            (x, y) => Err(Error::Index(x, y.clone())),
        }
    }

    /// Delete a key or index of this value.
    #[verifier::loop_isolation(false)]
    pub fn del_index(self, i: &Val) -> (r: ValR)
        ensures
            vr_view(r) == del_idx(self@, i@),
    {
        match (self, i) {
            (Val::Null, Val::Str(_)) => Ok(Val::Null),
            (Val::Null, Val::Int(_)) => Ok(Val::Null),
            (Val::Obj(o), Val::Str(k)) => {
                proof {
                    lemma_entries_view(o@);
                }
                let ghost ov = entries_view(o@);
                let mut found = false;
                let mut i2: usize = 0;
                while i2 < o.len() && !found
                    invariant
                        0 <= i2 <= o@.len(),
                        forall|t: int| 0 <= t < i2 ==> (#[trigger] ov[t]).0 != k@,
                        found ==> i2 < o@.len() && ov[i2 as int].0 == k@,
                    decreases o@.len() - i2, if found {
                        0int
                    } else {
                        1int
                    },
                {
                    if o[i2].0 == *k {
                        proof {
                            assert(ov[i2 as int] == (o@[i2 as int].0@, v_view(o@[i2 as int].1)));
                        }
                        found = true;
                    } else {
                        proof {
                            assert(ov[i2 as int] == (o@[i2 as int].0@, v_view(o@[i2 as int].1)));
                        }
                        i2 = i2 + 1;
                    }
                }
                if found {
                    let mut o = o;
                    let ghost o0 = o@;
                    o.remove(i2);
                    proof {
                        lemma_obj_del_found(ov, k@, i2 as int);
                        lemma_entries_view(o@);
                        assert forall|t: int| 0 <= t < o@.len() implies entries_view(o@)[t]
                            == ov.remove(i2 as int)[t] by {
                            assert(entries_view(o@)[t] == (o@[t].0@, v_view(o@[t].1)));
                            if t < i2 {
                                assert(o@[t] == o0[t]);
                                assert(ov[t] == (o0[t].0@, v_view(o0[t].1)));
                            } else {
                                assert(o@[t] == o0[t + 1]);
                                assert(ov[t + 1] == (o0[t + 1].0@, v_view(o0[t + 1].1)));
                            }
                        }
                        assert(entries_view(o@) =~= ov.remove(i2 as int));
                    }
                    Ok(Val::Obj(o))
                } else {
                    proof {
                        lemma_obj_del_absent(ov, k@);
                    }
                    Ok(Val::Obj(o))
                }
            },
            (Val::Arr(a), Val::Int(n)) => {
                proof {
                    lemma_elems_view(a@);
                }
                let len = a.len() as u64;
                let m: i128 = if *n < 0 {
                    *n as i128 + len as i128
                } else {
                    *n as i128
                };
                if 0 <= m && m < len as i128 {
                    let mut a = a;
                    let ghost a0 = a@;
                    a.remove(m as usize);
                    proof {
                        lemma_elems_view(a@);
                        assert forall|t: int| 0 <= t < a@.len() implies elems_view(a@)[t]
                            == elems_view(a0).remove(m as int)[t] by {
                            assert(elems_view(a@)[t] == v_view(a@[t]));
                            if t < m {
                                assert(a@[t] == a0[t]);
                            } else {
                                assert(a@[t] == a0[t + 1]);
                            }
                        }
                        assert(elems_view(a@) =~= elems_view(a0).remove(m as int));
                    }
                    Ok(Val::Arr(a))
                } else {
                    Ok(Val::Arr(a))
                }
            },
            (x, y) => Err(Error::Index(x, y.clone())),
        }
    }
}

impl Val {
    /// The values this value iterates over: array elements or object
    /// entry values.
    #[verifier::loop_isolation(false)]
    pub fn iterate(&self) -> (r: Result<Vec<Val>, Error>)
        ensures
            match iter_vals(self@) {
                Ok(ws) => r matches Ok(rv) && elems_view(rv@) == ws,
                Err(e) => r matches Err(re) && re@ == e,
            },
    {
        match self {
            Val::Arr(a) => {
                proof {
                    lemma_elems_view(a@);
                }
                let mut out: Vec<Val> = Vec::new();
                let mut i: usize = 0;
                while i < a.len()
                    invariant
                        0 <= i <= a@.len(),
                        out@.len() == i,
                        forall|j: int| 0 <= j < i ==> (#[trigger] out@[j])@ == a@[j]@,
                    decreases a@.len() - i,
                {
                    let e = a[i].clone();
                    out.push(e);
                    i = i + 1;
                }
                proof {
                    lemma_elems_view(out@);
                    assert forall|j: int| 0 <= j < out@.len() implies elems_view(out@)[j]
                        == elems_view(a@)[j] by {
                        assert(elems_view(out@)[j] == v_view(out@[j]));
                        assert(elems_view(a@)[j] == v_view(a@[j]));
                    }
                    assert(elems_view(out@) =~= elems_view(a@));
                }
                Ok(out)
            },
            Val::Obj(o) => {
                proof {
                    lemma_entries_view(o@);
                }
                let mut out: Vec<Val> = Vec::new();
                let mut i: usize = 0;
                while i < o.len()
                    invariant
                        0 <= i <= o@.len(),
                        out@.len() == i,
                        forall|j: int| 0 <= j < i ==> (#[trigger] out@[j])@ == o@[j].1@,
                    decreases o@.len() - i,
                {
                    let e = o[i].1.clone();
                    out.push(e);
                    i = i + 1;
                }
                proof {
                    lemma_elems_view(out@);
                    assert forall|j: int| 0 <= j < out@.len() implies elems_view(out@)[j]
                        == Seq::new(entries_view(o@).len(), |t: int| entries_view(o@)[t].1)[j] by {
                        assert(elems_view(out@)[j] == v_view(out@[j]));
                        assert(entries_view(o@)[j] == (o@[j].0@, v_view(o@[j].1)));
                    }
                    assert(elems_view(out@) =~= Seq::new(
                        entries_view(o@).len(),
                        |t: int| entries_view(o@)[t].1,
                    ));
                }
                Ok(out)
            },
            _ => Err(Error::Typ(self.clone(), "array or object".to_owned())),
        }
    }

    /// Slice this value by optional integer bounds.
    #[verifier::loop_isolation(false)]
    pub fn slice_with(&self, from: Option<&Val>, until: Option<&Val>) -> (r: ValR)
        ensures
            vr_view(r) == slice_get(
                self@,
                match from {
                    Some(f) => Some(f@),
                    None => None,
                },
                match until {
                    Some(u) => Some(u@),
                    None => None,
                },
            ),
    {
        match self {
            Val::Null => Ok(Val::Null),
            Val::Arr(a) => {
                proof {
                    lemma_elems_view(a@);
                }
                let n = a.len();
                let f = match bound_exec(from, 0) {
                    Ok(f) => f,
                    Err(e) => {
                        return Err(e);
                    },
                };
                let u = match bound_exec_len(until, n) {
                    Ok(u) => u,
                    Err(e) => {
                        return Err(e);
                    },
                };
                let lo = clamp128(n, f as i128);
                let hi = clamp128(n, u);
                let mut out: Vec<Val> = Vec::new();
                if lo < hi {
                    let mut i: usize = lo;
                    while i < hi
                        invariant
                            lo <= i <= hi <= a@.len(),
                            out@.len() == i - lo,
                            forall|j: int| 0 <= j < i - lo ==> (#[trigger] out@[j])@ == a@[lo
                                + j]@,
                        decreases hi - i,
                    {
                        let e = a[i].clone();
                        out.push(e);
                        i = i + 1;
                    }
                    proof {
                        lemma_elems_view(out@);
                        assert forall|j: int| 0 <= j < out@.len() implies elems_view(out@)[j]
                            == elems_view(a@).subrange(lo as int, hi as int)[j] by {
                            assert(elems_view(out@)[j] == v_view(out@[j]));
                            assert(elems_view(a@)[lo + j] == v_view(a@[lo + j]));
                        }
                        assert(elems_view(out@) =~= elems_view(a@).subrange(lo as int, hi as int));
                    }
                    Ok(Val::Arr(out))
                } else {
                    proof {
                        lemma_elems_view(out@);
                        if slice_bound(elems_view(a@).len() as int, f as int) <= slice_bound(
                            elems_view(a@).len() as int,
                            u as int,
                        ) {
                            assert(elems_view(a@).subrange(lo as int, hi as int)
                                =~= Seq::<ValV>::empty());
                        }
                        assert(elems_view(out@) =~= Seq::<ValV>::empty());
                    }
                    Ok(Val::Arr(out))
                }
            },
            Val::Str(s) => {
                let cs = crate::intr::str_chars(s.as_str());
                let n = cs.len();
                let f = match bound_exec(from, 0) {
                    Ok(f) => f,
                    Err(e) => {
                        return Err(e);
                    },
                };
                let u = match bound_exec_len(until, n) {
                    Ok(u) => u,
                    Err(e) => {
                        return Err(e);
                    },
                };
                let lo = clamp128(n, f as i128);
                let hi = clamp128(n, u);
                let mut out: Vec<char> = Vec::new();
                if lo < hi {
                    let mut i: usize = lo;
                    while i < hi
                        invariant
                            lo <= i <= hi <= cs@.len(),
                            out@ == cs@.subrange(lo as int, i as int),
                        decreases hi - i,
                    {
                        let c = cs[i];
                        out.push(c);
                        proof {
                            assert(out@ =~= cs@.subrange(lo as int, i + 1));
                        }
                        i = i + 1;
                    }
                    Ok(Val::Str(crate::intr::string_from_chars(out)))
                } else {
                    proof {
                        if slice_bound(s@.len() as int, f as int) <= slice_bound(
                            s@.len() as int,
                            u as int,
                        ) {
                            assert(s@.subrange(lo as int, hi as int) =~= Seq::<char>::empty());
                        }
                        assert(out@ =~= Seq::<char>::empty());
                    }
                    Ok(Val::Str(crate::intr::string_from_chars(out)))
                }
            },
            _ => Err(Error::Typ(self.clone(), "array or string".to_owned())),
        }
    }
}

/// The integer of a slice bound, defaulting for `null` or absence.
fn bound_exec(b: Option<&Val>, dflt: i64) -> (r: Result<i64, Error>)
    ensures
        match bound_int(
            match b {
                Some(x) => Some(x@),
                None => None,
            },
            dflt as int,
        ) {
            Ok(f) => r matches Ok(rf) && rf as int == f,
            Err(e) => r matches Err(re) && re@ == e,
        },
{
    match b {
        None => Ok(dflt),
        Some(Val::Null) => Ok(dflt),
        Some(Val::Int(n)) => Ok(*n),
        Some(x) => Err(Error::Typ((*x).clone(), "number".to_owned())),
    }
}

/// The integer of a slice bound whose default is a length.
fn bound_exec_len(b: Option<&Val>, len: usize) -> (r: Result<i128, Error>)
    ensures
        match bound_int(
            match b {
                Some(x) => Some(x@),
                None => None,
            },
            len as int,
        ) {
            Ok(f) => r matches Ok(rf) && rf as int == f,
            Err(e) => r matches Err(re) && re@ == e,
        },
{
    match b {
        None => Ok(len as i128),
        Some(Val::Null) => Ok(len as i128),
        Some(Val::Int(n)) => Ok(*n as i128),
        Some(x) => Err(Error::Typ((*x).clone(), "number".to_owned())),
    }
}

/// Clamp a bound into a length.
fn clamp128(n: usize, w: i128) -> (r: usize)
    requires
        -0x8000_0000_0000_0000_0000 <= w <= 0x8000_0000_0000_0000_0000,
    ensures
        r as int == slice_bound(n as int, w as int),
{
    let j: i128 = if w < 0 {
        w + n as i128
    } else {
        w
    };
    if j < 0 {
        0
    } else if j > n as i128 {
        n
    } else {
        j as usize
    }
}

/// Deleting at the first match removes exactly that entry.
proof fn lemma_obj_del_found(o: Seq<(Seq<char>, ValV)>, k: Seq<char>, m: int)
    requires
        0 <= m < o.len(),
        o[m].0 == k,
        forall|j: int| 0 <= j < m ==> (#[trigger] o[j]).0 != k,
    ensures
        obj_del(o, k) =~= o.remove(m),
    decreases m,
{
    if m == 0 {
        assert(o.remove(0) =~= o.drop_first());
    } else {
        lemma_obj_del_found(o.drop_first(), k, m - 1);
        assert(obj_del(o, k) == seq![o[0]] + obj_del(o.drop_first(), k));
        assert(o.drop_first().remove(m - 1) =~= o.remove(m).drop_first());
    }
}

/// Deleting an absent key changes nothing.
proof fn lemma_obj_del_absent(o: Seq<(Seq<char>, ValV)>, k: Seq<char>)
    requires
        forall|j: int| 0 <= j < o.len() ==> (#[trigger] o[j]).0 != k,
    ensures
        obj_del(o, k) =~= o,
    decreases o.len(),
{
    if o.len() > 0 {
        lemma_obj_del_absent(o.drop_first(), k);
    }
}


/// Every path below a value paired with the value it reaches: the value
/// itself at its prefix first, then the children in preorder.
pub open spec fn pv_pairs(v: ValV, prefix: Seq<ValV>) -> Seq<(Seq<ValV>, ValV)>
    decreases v, 1nat, 0nat,
{
    seq![(prefix, v)] + pv_children(v, prefix)
}

/// The path-value pairs strictly below a value, in preorder.
pub open spec fn pv_children(v: ValV, prefix: Seq<ValV>) -> Seq<(Seq<ValV>, ValV)>
    decreases v, 0nat, 0nat,
{
    match v {
        ValV::Arr(a) => pv_elems(a, prefix, 0),
        ValV::Obj(o) => pv_ents(o, prefix),
        _ => Seq::empty(),
    }
}

/// The pairs below the elements of an array, indices from `idx`.
pub open spec fn pv_elems(a: Seq<ValV>, prefix: Seq<ValV>, idx: int) -> Seq<(Seq<ValV>, ValV)>
    decreases a, 1nat, 0nat,
{
    if a.len() == 0 {
        Seq::empty()
    } else {
        pv_pairs(a[0], prefix.push(ValV::Int(idx))) + pv_elems(a.drop_first(), prefix, idx + 1)
    }
}

/// The pairs below the entry values of an object.
pub open spec fn pv_ents(o: Seq<(Seq<char>, ValV)>, prefix: Seq<ValV>) -> Seq<(Seq<ValV>, ValV)>
    decreases o, 1nat, 0nat,
{
    if o.len() == 0 {
        Seq::empty()
    } else {
        pv_pairs(o[0].1, prefix.push(ValV::Str(o[0].0))) + pv_ents(o.drop_first(), prefix)
    }
}

/// Machine bound for path enumeration: every array below the value is
/// short enough for its indices to be machine integers.
pub open spec fn pv_small(v: ValV) -> bool
    decreases v, 1nat,
{
    match v {
        ValV::Arr(a) => a.len() <= i64::MAX && pv_small_elems(a),
        ValV::Obj(o) => pv_small_ents(o),
        _ => true,
    }
}

/// Machine bound below every element of an array.
pub open spec fn pv_small_elems(a: Seq<ValV>) -> bool
    decreases a, 0nat,
{
    if a.len() == 0 {
        true
    } else {
        pv_small(a[0]) && pv_small_elems(a.drop_first())
    }
}

/// Machine bound below every entry value of an object.
pub open spec fn pv_small_ents(o: Seq<(Seq<char>, ValV)>) -> bool
    decreases o, 0nat,
{
    if o.len() == 0 {
        true
    } else {
        pv_small(o[0].1) && pv_small_ents(o.drop_first())
    }
}

/// Below a small object every entry value is small.
proof fn lemma_pv_small_ent(o: Seq<(Seq<char>, ValV)>, i: int)
    requires
        pv_small_ents(o),
        0 <= i < o.len(),
    ensures
        pv_small(o[i].1),
    decreases i,
{
    if i > 0 {
        lemma_pv_small_ent(o.drop_first(), i - 1);
        assert(o.drop_first()[i - 1] == o[i]);
    }
}

/// Below a small array every element is small.
proof fn lemma_pv_small_elem(a: Seq<ValV>, i: int)
    requires
        pv_small_elems(a),
        0 <= i < a.len(),
    ensures
        pv_small(a[i]),
    decreases i,
{
    if i > 0 {
        lemma_pv_small_elem(a.drop_first(), i - 1);
        assert(a.drop_first()[i - 1] == a[i]);
    }
}

/// Whether an executable pair list carries exactly the modelled pairs,
/// each path as an array value.
pub open spec fn pv_match(r: Seq<(Val, Val)>, s: Seq<(Seq<ValV>, ValV)>) -> bool {
    r.len() == s.len() && (forall|i: int|
        0 <= i < r.len() ==> (#[trigger] r[i]).0@ == ValV::Arr(s[i].0) && r[i].1@ == s[i].1)
}

/// The pairs of one value and everything below it.
#[verifier::loop_isolation(false)]
fn pv_pairs_exec(v: &Val, prefix: &Vec<Val>) -> (r: Vec<(Val, Val)>)
    requires
        pv_small(v@),
    ensures
        pv_match(r@, pv_pairs(v@, elems_view(prefix@))),
    decreases *v, 1nat, 0nat,
{
    let pcopy = crate::sorting::clone_vals(prefix);
    let mut out: Vec<(Val, Val)> = Vec::new();
    out.push((Val::Arr(pcopy), v.clone()));
    let mut children = pv_children_exec(v, prefix);
    let ghost outg = out@;
    let ghost childg = children@;
    out.append(&mut children);
    proof {
        assert forall|i: int| 0 <= i < out@.len() implies (#[trigger] out@[i]).0@ == ValV::Arr(
            pv_pairs(v@, elems_view(prefix@))[i].0,
        ) && out@[i].1@ == pv_pairs(v@, elems_view(prefix@))[i].1 by {
            if i == 0 {
                assert(out@[0] == outg[0]);
            } else {
                assert(out@[i] == childg[i - 1]);
                assert(pv_pairs(v@, elems_view(prefix@))[i] == pv_children(
                    v@,
                    elems_view(prefix@),
                )[i - 1]);
            }
        }
    }
    out
}

/// The pairs strictly below one value.
#[verifier::loop_isolation(false)]
fn pv_children_exec(v: &Val, prefix: &Vec<Val>) -> (r: Vec<(Val, Val)>)
    requires
        pv_small(v@),
    ensures
        pv_match(r@, pv_children(v@, elems_view(prefix@))),
    decreases *v, 0nat, 0nat,
{
    let ghost pfx = elems_view(prefix@);
    match v {
        Val::Arr(a) => {
            proof {
                lemma_elems_view(a@);
            }
            let ghost av = elems_view(a@);
            let mut out: Vec<(Val, Val)> = Vec::new();
            let ghost emitted = Seq::<(Seq<ValV>, ValV)>::empty();
            let mut i: usize = 0;
            proof {
                assert(av.skip(0) =~= av);
                assert(emitted + pv_elems(av.skip(0), pfx, 0) =~= pv_elems(av, pfx, 0));
            }
            let ghost mut emitted_g = emitted;
            while i < a.len()
                invariant
                    0 <= i <= a@.len(),
                    pv_elems(av, pfx, 0) == emitted_g + pv_elems(av.skip(i as int), pfx, i as int),
                    pv_match(out@, emitted_g),
                decreases a@.len() - i,
            {
                proof {
                    assert(av.skip(i as int)[0] == av[i as int]);
                    assert(av[i as int] == v_view(a@[i as int]));
                    assert(av.skip(i as int).drop_first() =~= av.skip(i + 1));
                }
                let mut cp = crate::sorting::clone_vals(prefix);
                let ghost cpb = cp@;
                cp.push(Val::Int(i as i64));
                proof {
                    crate::val::lemma_elems_view_push(cpb, Val::Int(i as i64));
                    assert(elems_view(cp@) =~= pfx.push(ValV::Int(i as int)));
                    assert(v@ == ValV::Arr(av));
                    lemma_pv_small_elem(av, i as int);
                }
                let mut child = pv_pairs_exec(&a[i], &cp);
                let ghost outg = out@;
                let ghost childg = child@;
                let ghost childs = pv_pairs(av[i as int], pfx.push(ValV::Int(i as int)));
                out.append(&mut child);
                proof {
                    assert forall|t: int| 0 <= t < out@.len() implies (#[trigger] out@[t]).0@
                        == ValV::Arr((emitted_g + childs)[t].0) && out@[t].1@ == (emitted_g
                        + childs)[t].1 by {
                        if t < outg.len() {
                            assert(out@[t] == outg[t]);
                        } else {
                            assert(out@[t] == childg[t - outg.len()]);
                        }
                    }
                    emitted_g = emitted_g + childs;
                    assert(emitted_g + pv_elems(av.skip(i + 1), pfx, i + 1) =~= pv_elems(
                        av,
                        pfx,
                        0,
                    ));
                }
                i = i + 1;
            }
            proof {
                assert(pv_elems(av.skip(a@.len() as int), pfx, a@.len() as int) =~= Seq::<
                    (Seq<ValV>, ValV),
                >::empty());
                assert(emitted_g + Seq::<(Seq<ValV>, ValV)>::empty() =~= emitted_g);
            }
            out
        },
        Val::Obj(o) => {
            proof {
                lemma_entries_view(o@);
            }
            let ghost ov = entries_view(o@);
            let mut out: Vec<(Val, Val)> = Vec::new();
            let ghost emitted = Seq::<(Seq<ValV>, ValV)>::empty();
            let mut i: usize = 0;
            proof {
                assert(ov.skip(0) =~= ov);
                assert(emitted + pv_ents(ov.skip(0), pfx) =~= pv_ents(ov, pfx));
            }
            let ghost mut emitted_g = emitted;
            while i < o.len()
                invariant
                    0 <= i <= o@.len(),
                    pv_ents(ov, pfx) == emitted_g + pv_ents(ov.skip(i as int), pfx),
                    pv_match(out@, emitted_g),
                decreases o@.len() - i,
            {
                proof {
                    assert(ov.skip(i as int)[0] == ov[i as int]);
                    assert(ov[i as int] == (o@[i as int].0@, v_view(o@[i as int].1)));
                    assert(ov.skip(i as int).drop_first() =~= ov.skip(i + 1));
                }
                let mut cp = crate::sorting::clone_vals(prefix);
                let ghost cpb = cp@;
                let kc = o[i].0.clone();
                let ghost kcv = Val::Str(kc);
                cp.push(Val::Str(kc));
                proof {
                    crate::val::lemma_elems_view_push(cpb, kcv);
                    assert(elems_view(cp@) =~= pfx.push(ValV::Str(o@[i as int].0@)));
                    assert(v@ == ValV::Obj(ov));
                    lemma_pv_small_ent(ov, i as int);
                }
                let mut child = pv_pairs_exec(&o[i].1, &cp);
                let ghost outg = out@;
                let ghost childg = child@;
                let ghost childs = pv_pairs(
                    ov[i as int].1,
                    pfx.push(ValV::Str(ov[i as int].0)),
                );
                out.append(&mut child);
                proof {
                    assert forall|t: int| 0 <= t < out@.len() implies (#[trigger] out@[t]).0@
                        == ValV::Arr((emitted_g + childs)[t].0) && out@[t].1@ == (emitted_g
                        + childs)[t].1 by {
                        if t < outg.len() {
                            assert(out@[t] == outg[t]);
                        } else {
                            assert(out@[t] == childg[t - outg.len()]);
                        }
                    }
                    emitted_g = emitted_g + childs;
                    assert(emitted_g + pv_ents(ov.skip(i + 1), pfx) =~= pv_ents(ov, pfx));
                }
                i = i + 1;
            }
            proof {
                assert(pv_ents(ov.skip(o@.len() as int), pfx) =~= Seq::<
                    (Seq<ValV>, ValV),
                >::empty());
                assert(emitted_g + Seq::<(Seq<ValV>, ValV)>::empty() =~= emitted_g);
            }
            out
        },
        _ => Vec::new(),
    }
}

impl Val {
    /// All path-value pairs strictly below this value, in preorder: each
    /// path as an array of object keys and array indices, with the value
    /// it reaches.  The bound asks only that array indices fit machine
    /// integers.
    pub fn path_values(&self) -> (r: Vec<(Val, Val)>)
        requires
            pv_small(self@),
        ensures
            pv_match(r@, pv_children(self@, Seq::empty())),
    {
        let prefix: Vec<Val> = Vec::new();
        proof {
            assert(elems_view(prefix@) =~= Seq::<ValV>::empty());
        }
        pv_children_exec(self, &prefix)
    }

    /// All paths strictly below this value, in preorder, each as an
    /// array of object keys and array indices.
    #[verifier::loop_isolation(false)]
    pub fn paths(&self) -> (r: Vec<Val>)
        requires
            pv_small(self@),
        ensures
            r@.len() == pv_children(self@, Seq::empty()).len(),
            forall|i: int| 0 <= i < r@.len() ==> (#[trigger] r@[i])@ == ValV::Arr(
                pv_children(self@, Seq::empty())[i].0,
            ),
    {
        let pairs = self.path_values();
        let mut out: Vec<Val> = Vec::new();
        let mut i: usize = 0;
        while i < pairs.len()
            invariant
                0 <= i <= pairs@.len(),
                out@.len() == i,
                forall|j: int| 0 <= j < i ==> (#[trigger] out@[j])@ == ValV::Arr(
                    pv_children(self@, Seq::empty())[j].0,
                ),
            decreases pairs@.len() - i,
        {
            let p = pairs[i].0.clone();
            out.push(p);
            i = i + 1;
        }
        out
    }
}

} // verus!
