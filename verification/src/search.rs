//! Key lookup, membership (`has`), structural containment (`contains`)
//! and string splitting.

use vstd::prelude::*;

use crate::intr::{str_chars, string_from_chars};
use crate::ops::{Error, ErrorV, ValR, vr_view};
use crate::val::{
    elems_view, entries_view, lemma_elems_view, lemma_entries_view, v_view, val_eq, Val, ValV,
};

verus! {

/// The value at key `k`, scanning the entries from the front.
pub open spec fn obj_get(o: Seq<(Seq<char>, ValV)>, k: Seq<char>) -> Option<ValV>
    decreases o.len(),
{
    if o.len() == 0 {
        None
    } else if o[0].0 == k {
        Some(o[0].1)
    } else {
        obj_get(o.drop_first(), k)
    }
}

/// Look a key up in an object's entries.
#[verifier::loop_isolation(false)]
pub fn entries_get(o: &Vec<(String, Val)>, k: &String) -> (r: Option<Val>)
    ensures
        match obj_get(entries_view(o@), k@) {
            Some(v) => r matches Some(rv) && rv@ == v,
            None => r is None,
        },
{
    proof {
        lemma_entries_view(o@);
    }
    let ghost ev = entries_view(o@);
    proof {
        assert(ev.skip(0) =~= ev);
    }
    let mut i: usize = 0;
    while i < o.len()
        invariant
            0 <= i <= o@.len(),
            obj_get(ev, k@) == obj_get(ev.skip(i as int), k@),
        decreases o@.len() - i,
    {
        proof {
            assert(ev.skip(i as int)[0] == ev[i as int]);
            assert(ev[i as int] == (o@[i as int].0@, v_view(o@[i as int].1)));
            assert(ev.skip(i as int).drop_first() =~= ev.skip(i + 1));
        }
        if o[i].0 == *k {
            let v = o[i].1.clone();
            return Some(v);
        }
        i = i + 1;
    }
    None
}

/// `has`: whether an object has the key, or an array the index.
pub open spec fn has_spec(v: ValV, k: ValV) -> Result<ValV, ErrorV> {
    match (v, k) {
        (ValV::Obj(o), ValV::Str(s)) => Ok(ValV::Bool(obj_get(o, s) is Some)),
        (ValV::Arr(a), ValV::Int(i)) => Ok(ValV::Bool(0 <= i < a.len())),
        (x, y) => Err(ErrorV::Index(x, y)),
    }
}

/// Whether `b` occurs in `a` as a contiguous subsequence.
pub open spec fn is_substr(a: Seq<char>, b: Seq<char>) -> bool {
    exists|i: int| 0 <= i <= a.len() - b.len() && #[trigger] a.subrange(i, i + b.len()) == b
}

/// Structural containment: objects contain objects with contained values
/// under the same keys, arrays contain arrays whose elements are each
/// contained in some element, strings contain substrings, and any other
/// value contains only its equals.
pub open spec fn contains_spec(a: ValV, b: ValV) -> bool
    decreases b, 0nat,
{
    match (a, b) {
        (ValV::Obj(oa), ValV::Obj(ob)) => obj_contains(oa, ob),
        (ValV::Arr(xa), ValV::Arr(xb)) => arr_contains(xa, xb),
        (ValV::Str(sa), ValV::Str(sb)) => is_substr(sa, sb),
        (x, y) => val_eq(x, y),
    }
}

/// Every entry of `ob` is contained in `oa` under its key.
pub open spec fn obj_contains(oa: Seq<(Seq<char>, ValV)>, ob: Seq<(Seq<char>, ValV)>) -> bool
    decreases ob, 1nat,
{
    if ob.len() == 0 {
        true
    } else {
        key_contains(oa, ob[0]) && obj_contains(oa, ob.drop_first())
    }
}

/// Some entry of `oa` has the key of `e` and contains its value.
pub open spec fn key_contains(oa: Seq<(Seq<char>, ValV)>, e: (Seq<char>, ValV)) -> bool
    decreases e, oa.len(),
{
    if oa.len() == 0 {
        false
    } else if oa[0].0 == e.0 {
        contains_spec(oa[0].1, e.1)
    } else {
        key_contains(oa.drop_first(), e)
    }
}

/// Every element of `xb` is contained in some element of `xa`.
pub open spec fn arr_contains(xa: Seq<ValV>, xb: Seq<ValV>) -> bool
    decreases xb, 1nat,
{
    if xb.len() == 0 {
        true
    } else {
        elem_contains(xa, xb[0]) && arr_contains(xa, xb.drop_first())
    }
}

/// Some element of `xa` contains `e`.
pub open spec fn elem_contains(xa: Seq<ValV>, e: ValV) -> bool
    decreases e, xa.len(),
{
    if xa.len() == 0 {
        false
    } else {
        contains_spec(xa[0], e) || elem_contains(xa.drop_first(), e)
    }
}

/// Split a string at every occurrence of the separator, scanning left to
/// right; `acc` is the piece being built.
pub open spec fn split_go(s: Seq<char>, sep: Seq<char>, acc: Seq<char>) -> Seq<Seq<char>>
    decreases s.len(),
{
    if s.len() < sep.len() || sep.len() == 0 {
        seq![acc + s]
    } else if s.take(sep.len() as int) == sep {
        seq![acc] + split_go(s.skip(sep.len() as int), sep, Seq::empty())
    } else {
        split_go(s.drop_first(), sep, acc.push(s[0]))
    }
}

/// `split`: a string split by a non-empty string separator.
pub open spec fn split_spec(v: ValV, sep: ValV) -> Result<ValV, ErrorV> {
    match (v, sep) {
        (ValV::Str(s), ValV::Str(p)) => if p.len() == 0 {
            Err(ErrorV::Str("empty separator"@))
        } else {
            Ok(
                ValV::Arr(
                    Seq::new(
                        split_go(s, p, Seq::empty()).len(),
                        |i: int| ValV::Str(split_go(s, p, Seq::empty())[i]),
                    ),
                ),
            )
        },
        (ValV::Str(_), y) => Err(ErrorV::Typ(y, "string"@)),
        (x, _) => Err(ErrorV::Typ(x, "string"@)),
    }
}

/// Whether the characters of `p` stand in `s` at position `i`.
#[verifier::loop_isolation(false)]
fn chars_match(s: &Vec<char>, i: usize, p: &Vec<char>) -> (r: bool)
    requires
        i + p@.len() <= s@.len(),
    ensures
        r == (s@.subrange(i as int, i + p@.len()) == p@),
{
    let n = s.len();
    let m = p.len();
    let mut j: usize = 0;
    while j < m
        invariant
            0 <= j <= p@.len(),
            n == s@.len(),
            m == p@.len(),
            forall|t: int| 0 <= t < j ==> s@[i + t] == p@[t],
        decreases p@.len() - j,
    {
        proof {
            assert(i + j < s@.len());
        }
        if s[i + j] != p[j] {
            proof {
                assert(s@.subrange(i as int, i + p@.len())[j as int] == s@[i + j]);
            }
            return false;
        }
        j = j + 1;
    }
    proof {
        assert(s@.subrange(i as int, i + p@.len()) =~= p@);
    }
    true
}

impl Val {
    /// Whether this value has the given key or index.
    pub fn has_key(&self, k: &Val) -> (r: ValR)
        ensures
            vr_view(r) == has_spec(self@, k@),
    {
        match (self, k) {
            (Val::Obj(o), Val::Str(s)) => {
                match entries_get(o, s) {
                    Some(_) => Ok(Val::Bool(true)),
                    None => Ok(Val::Bool(false)),
                }
            },
            (Val::Arr(a), Val::Int(i)) => {
                proof {
                    lemma_elems_view(a@);
                }
                Ok(Val::Bool(0 <= *i && (*i as u64) < a.len() as u64))
            },
            _ => Err(Error::Index(self.clone(), k.clone())),
        }
    }

    /// Whether this value structurally contains the other.
    #[verifier::loop_isolation(false)]
    pub fn contains_val(&self, b: &Val) -> (r: bool)
        ensures
            r == contains_spec(self@, b@),
        decreases *b,
    {
        match (self, b) {
            (Val::Obj(oa), Val::Obj(ob)) => {
                proof {
                    lemma_entries_view(oa@);
                    lemma_entries_view(ob@);
                }
                let ghost av = entries_view(oa@);
                let ghost bv = entries_view(ob@);
                proof {
                    assert(bv.skip(0) =~= bv);
                }
                let mut i: usize = 0;
                while i < ob.len()
                    invariant
                        0 <= i <= ob@.len(),
                        obj_contains(av, bv) == obj_contains(av, bv.skip(i as int)),
                    decreases ob@.len() - i,
                {
                    proof {
                        assert(bv.skip(i as int)[0] == bv[i as int]);
                        assert(bv[i as int] == (ob@[i as int].0@, v_view(ob@[i as int].1)));
                        assert(bv.skip(i as int).drop_first() =~= bv.skip(i + 1));
                        assert(av.skip(0) =~= av);
                    }
                    let ghost e = bv[i as int];
                    let mut j: usize = 0;
                    let mut found = false;
                    while j < oa.len()
                        invariant
                            0 <= j <= oa@.len(),
                            !found,
                            key_contains(av, e) == key_contains(av.skip(j as int), e),
                            e == bv[i as int],
                            i < ob@.len(),
                        decreases oa@.len() - j,
                    {
                        proof {
                            assert(av.skip(j as int)[0] == av[j as int]);
                            assert(av[j as int] == (oa@[j as int].0@, v_view(oa@[j as int].1)));
                            assert(av.skip(j as int).drop_first() =~= av.skip(j + 1));
                        }
                        if oa[j].0 == ob[i].0 {
                            if oa[j].1.contains_val(&ob[i].1) {
                                found = true;
                                break ;
                            } else {
                                return false;
                            }
                        }
                        j = j + 1;
                    }
                    if !found {
                        proof {
                            assert(av.skip(oa@.len() as int).len() == 0);
                        }
                        return false;
                    }
                    i = i + 1;
                }
                proof {
                    assert(bv.skip(ob@.len() as int).len() == 0);
                }
                true
            },
            (Val::Arr(xa), Val::Arr(xb)) => {
                proof {
                    lemma_elems_view(xa@);
                    lemma_elems_view(xb@);
                }
                let ghost av = elems_view(xa@);
                let ghost bv = elems_view(xb@);
                proof {
                    assert(bv.skip(0) =~= bv);
                }
                let mut i: usize = 0;
                while i < xb.len()
                    invariant
                        0 <= i <= xb@.len(),
                        arr_contains(av, bv) == arr_contains(av, bv.skip(i as int)),
                    decreases xb@.len() - i,
                {
                    proof {
                        assert(bv.skip(i as int)[0] == bv[i as int]);
                        assert(bv[i as int] == v_view(xb@[i as int]));
                        assert(bv.skip(i as int).drop_first() =~= bv.skip(i + 1));
                        assert(av.skip(0) =~= av);
                    }
                    let ghost e = bv[i as int];
                    let mut j: usize = 0;
                    let mut found = false;
                    while j < xa.len()
                        invariant
                            0 <= j <= xa@.len(),
                            !found,
                            elem_contains(av, e) == elem_contains(av.skip(j as int), e),
                            e == bv[i as int],
                            i < xb@.len(),
                        decreases xa@.len() - j,
                    {
                        proof {
                            assert(av.skip(j as int)[0] == av[j as int]);
                            assert(av[j as int] == v_view(xa@[j as int]));
                            assert(av.skip(j as int).drop_first() =~= av.skip(j + 1));
                        }
                        if xa[j].contains_val(&xb[i]) {
                            found = true;
                            break ;
                        }
                        j = j + 1;
                    }
                    if !found {
                        proof {
                            assert(av.skip(xa@.len() as int).len() == 0);
                        }
                        return false;
                    }
                    i = i + 1;
                }
                proof {
                    assert(bv.skip(xb@.len() as int).len() == 0);
                }
                true
            },
            (Val::Str(sa), Val::Str(sb)) => {
                let ca = str_chars(sa.as_str());
                let cb = str_chars(sb.as_str());
                if cb.len() == 0 {
                    proof {
                        assert(ca@.subrange(0, 0 + cb@.len() as int) =~= cb@);
                        assert(is_substr(ca@, cb@));
                    }
                    return true;
                }
                if cb.len() > ca.len() {
                    return false;
                }
                let mut i: usize = 0;
                while i <= ca.len() - cb.len()
                    invariant
                        0 <= i <= ca@.len() - cb@.len() + 1,
                        1 <= cb@.len() <= ca@.len(),
                        forall|t: int|
                            0 <= t < i ==> #[trigger] ca@.subrange(t, t + cb@.len()) != cb@,
                    decreases ca@.len() - cb@.len() + 1 - i,
                {
                    if chars_match(&ca, i, &cb) {
                        return true;
                    }
                    i = i + 1;
                }
                false
            },
            _ => self.eq_val(b),
        }
    }

    /// Split a string value by a string separator.
    #[verifier::loop_isolation(false)]
    pub fn split_with(&self, sep: &Val) -> (r: ValR)
        ensures
            vr_view(r) == split_spec(self@, sep@),
    {
        match (self, sep) {
            (Val::Str(s), Val::Str(p)) => {
                if p.as_str().is_empty() {
                    return Err(Error::Str("empty separator".to_owned()));
                }
                let cs = str_chars(s.as_str());
                let ps = str_chars(p.as_str());
                let plen = ps.len();
                let ghost full = split_go(s@, p@, Seq::empty());
                let ghost emitted = Seq::<Seq<char>>::empty();
                let mut out: Vec<Val> = Vec::new();
                let mut cur: Vec<char> = Vec::new();
                let mut i: usize = 0;
                proof {
                    assert(s@.skip(0) =~= s@);
                    assert(emitted + split_go(s@.skip(0), p@, cur@) =~= full);
                }
                let ghost mut emitted_g = emitted;
                while cs.len() >= plen && i <= cs.len() - plen
                    invariant
                        0 < plen == p@.len(),
                        cs@ == s@,
                        ps@ == p@,
                        0 <= i <= cs@.len(),
                        full == emitted_g + split_go(s@.skip(i as int), p@, cur@),
                        out@.len() == emitted_g.len(),
                        forall|t: int| 0 <= t < out@.len() ==> (#[trigger] out@[t])@ == ValV::Str(
                            emitted_g[t],
                        ),
                    decreases cs@.len() - i,
                {
                    proof {
                        assert(s@.skip(i as int).len() == s@.len() - i);
                        assert(s@.skip(i as int).take(plen as int) =~= s@.subrange(
                            i as int,
                            i + plen,
                        ));
                    }
                    if chars_match(&cs, i, &ps) {
                        proof {
                            assert(s@.skip(i as int).take(plen as int) == p@);
                            assert(s@.skip(i as int).skip(plen as int) =~= s@.skip(i + plen));
                            assert(split_go(s@.skip(i as int), p@, cur@) == seq![cur@] + split_go(
                                s@.skip(i + plen),
                                p@,
                                Seq::empty(),
                            ));
                            assert(emitted_g + (seq![cur@] + split_go(s@.skip(i + plen), p@, Seq::empty()))
                                =~= emitted_g.push(cur@) + split_go(s@.skip(i + plen), p@, Seq::empty()));
                        }
                        let ghost curv = cur@;
                        let piece = string_from_chars(cur);
                        out.push(Val::Str(piece));
                        proof {
                            emitted_g = emitted_g.push(curv);
                        }
                        cur = Vec::new();
                        i = i + plen;
                    } else {
                        proof {
                            assert(s@.skip(i as int).take(plen as int) != p@);
                            assert(s@.skip(i as int)[0] == s@[i as int]);
                            assert(s@.skip(i as int).drop_first() =~= s@.skip(i + 1));
                            assert(split_go(s@.skip(i as int), p@, cur@) == split_go(
                                s@.skip(i + 1),
                                p@,
                                cur@.push(s@[i as int]),
                            ));
                        }
                        let c = cs[i];
                        cur.push(c);
                        i = i + 1;
                    }
                }
                proof {
                    assert(s@.skip(i as int).len() < plen);
                    assert(split_go(s@.skip(i as int), p@, cur@) == seq![cur@ + s@.skip(i as int)]);
                }
                let ghost cur0 = cur@;
                let ghost istart = i as int;
                let mut j: usize = i;
                while j < cs.len()
                    invariant
                        istart <= j <= cs@.len(),
                        cs@ == s@,
                        cur@ == cur0 + s@.subrange(istart, j as int),
                    decreases cs@.len() - j,
                {
                    let c = cs[j];
                    cur.push(c);
                    proof {
                        assert(cur@ =~= cur0 + s@.subrange(istart, j + 1));
                    }
                    j = j + 1;
                }
                proof {
                    assert(s@.subrange(istart, s@.len() as int) =~= s@.skip(istart));
                }
                let ghost lastv = cur@;
                let piece = string_from_chars(cur);
                out.push(Val::Str(piece));
                proof {
                    assert(lastv == cur0 + s@.skip(istart));
                    assert(full == emitted_g.push(lastv));
                    lemma_elems_view(out@);
                    assert forall|t: int| 0 <= t < out@.len() implies elems_view(out@)[t]
                        == ValV::Str(full[t]) by {
                        assert(elems_view(out@)[t] == v_view(out@[t]));
                        if t < out@.len() - 1 {
                            assert(out@[t]@ == ValV::Str(emitted_g[t]));
                        }
                    }
                    assert(elems_view(out@) =~= Seq::new(full.len(), |t: int| ValV::Str(full[t])));
                }
                Ok(Val::Arr(out))
            },
            (Val::Str(_), y) => Err(Error::Typ(y.clone(), "string".to_owned())),
            (x, _) => Err(Error::Typ(x.clone(), "string".to_owned())),
        }
    }
}

} // verus!
