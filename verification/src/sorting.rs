//! Stable insertion sort over values and over key-value pairs, used by
//! `sort`, `sort_by`, `group_by` and `keys`.

use vstd::prelude::*;

use crate::ops::{Error, ValR, vr_view};
use crate::val::{
    arr_cmp, elems_view, entries_view, lemma_elems_view, lemma_entries_view, v_view, val_cmp, Cmp,
    Val, ValV,
};

verus! {

/// Insert `x` into a sorted sequence, before the first element that is
/// not smaller: a stable insertion.
pub open spec fn insert_val(s: Seq<ValV>, x: ValV) -> Seq<ValV>
    decreases s.len(),
{
    if s.len() == 0 {
        seq![x]
    } else if val_cmp(x, s[0]) == Cmp::Greater {
        seq![s[0]] + insert_val(s.drop_first(), x)
    } else {
        seq![x] + s
    }
}

/// Sort a sequence of values by the total order, stably.
pub open spec fn sort_vals(s: Seq<ValV>) -> Seq<ValV>
    decreases s.len(),
{
    if s.len() == 0 {
        Seq::empty()
    } else {
        insert_val(sort_vals(s.drop_first()), s[0])
    }
}

/// Model of a sort key: the outputs of the key filter on one element,
/// paired with the element.
pub type PairV = (Seq<ValV>, ValV);

/// Model of a list of keyed elements.
pub open spec fn pairs_view(s: Seq<(Vec<Val>, Val)>) -> Seq<PairV>
    decreases s,
{
    if s.len() == 0 {
        Seq::empty()
    } else {
        seq![(elems_view(s[0].0@), v_view(s[0].1))] + pairs_view(s.drop_first())
    }
}

/// The model of a keyed list is the list of the models.
pub proof fn lemma_pairs_view(s: Seq<(Vec<Val>, Val)>)
    ensures
        pairs_view(s).len() == s.len(),
        forall|i: int| 0 <= i < s.len() ==> pairs_view(s)[i] == (elems_view(
            (#[trigger] s[i]).0@,
        ), v_view(s[i].1)),
    decreases s.len(),
{
    if s.len() > 0 {
        lemma_pairs_view(s.drop_first());
        assert forall|i: int| 0 <= i < s.len() implies pairs_view(s)[i] == (elems_view(
            (#[trigger] s[i]).0@,
        ), v_view(s[i].1)) by {
            if i > 0 {
                assert(pairs_view(s)[i] == pairs_view(s.drop_first())[i - 1]);
                assert(s.drop_first()[i - 1] == s[i]);
            }
        }
    }
}

/// Insert a keyed element before the first one whose key is not smaller.
pub open spec fn insert_pair(s: Seq<PairV>, x: PairV) -> Seq<PairV>
    decreases s.len(),
{
    if s.len() == 0 {
        seq![x]
    } else if arr_cmp(x.0, s[0].0) == Cmp::Greater {
        seq![s[0]] + insert_pair(s.drop_first(), x)
    } else {
        seq![x] + s
    }
}

/// Sort keyed elements by their keys, stably.
pub open spec fn sort_pairs(s: Seq<PairV>) -> Seq<PairV>
    decreases s.len(),
{
    if s.len() == 0 {
        Seq::empty()
    } else {
        insert_pair(sort_pairs(s.drop_first()), s[0])
    }
}

/// Inserting at the position of the first not-smaller element is what
/// [`insert_val`] computes.
proof fn lemma_insert_val_at(s: Seq<ValV>, x: ValV, m: int)
    requires
        0 <= m <= s.len(),
        forall|j: int| 0 <= j < m ==> val_cmp(x, #[trigger] s[j]) == Cmp::Greater,
        m < s.len() ==> val_cmp(x, s[m]) != Cmp::Greater,
    ensures
        insert_val(s, x) =~= s.take(m) + seq![x] + s.skip(m),
    decreases m,
{
    if m == 0 {
        if s.len() == 0 {
            assert(insert_val(s, x) == seq![x]);
        }
        assert(s.take(0) + seq![x] + s.skip(0) =~= seq![x] + s);
    } else {
        lemma_insert_val_at(s.drop_first(), x, m - 1);
        assert(insert_val(s, x) == seq![s[0]] + insert_val(s.drop_first(), x));
        assert(s.drop_first().take(m - 1) =~= s.take(m).drop_first());
        assert(s.drop_first().skip(m - 1) =~= s.skip(m));
    }
}

/// Inserting at the position of the first not-smaller key is what
/// [`insert_pair`] computes.
proof fn lemma_insert_pair_at(s: Seq<PairV>, x: PairV, m: int)
    requires
        0 <= m <= s.len(),
        forall|j: int| 0 <= j < m ==> arr_cmp(x.0, (#[trigger] s[j]).0) == Cmp::Greater,
        m < s.len() ==> arr_cmp(x.0, s[m].0) != Cmp::Greater,
    ensures
        insert_pair(s, x) =~= s.take(m) + seq![x] + s.skip(m),
    decreases m,
{
    if m == 0 {
        if s.len() == 0 {
            assert(insert_pair(s, x) == seq![x]);
        }
        assert(s.take(0) + seq![x] + s.skip(0) =~= seq![x] + s);
    } else {
        lemma_insert_pair_at(s.drop_first(), x, m - 1);
        assert(insert_pair(s, x) == seq![s[0]] + insert_pair(s.drop_first(), x));
        assert(s.drop_first().take(m - 1) =~= s.take(m).drop_first());
        assert(s.drop_first().skip(m - 1) =~= s.skip(m));
    }
}

/// Insert a value into a sorted vector, stably.
#[verifier::loop_isolation(false)]
fn insert_val_exec(acc: &mut Vec<Val>, x: Val)
    ensures
        elems_view(final(acc)@) == insert_val(elems_view(old(acc)@), x@),
{
    proof {
        lemma_elems_view(acc@);
    }
    let ghost s0 = acc@;
    let ghost sv = elems_view(s0);
    let mut m: usize = 0;
    while m < acc.len()
        invariant
            acc@ == s0,
            0 <= m <= s0.len(),
            forall|j: int| 0 <= j < m ==> val_cmp(x@, #[trigger] sv[j]) == Cmp::Greater,
        decreases s0.len() - m,
    {
        let c = x.cmp_with(&acc[m]);
        proof {
            assert(sv[m as int] == v_view(s0[m as int]));
        }
        match c {
            Cmp::Greater => {
                m = m + 1;
            },
            _ => {
                break ;
            },
        }
    }
    proof {
        lemma_insert_val_at(sv, x@, m as int);
    }
    acc.insert(m, x);
    proof {
        lemma_elems_view(acc@);
        assert forall|j: int| 0 <= j < acc@.len() implies elems_view(acc@)[j] == (sv.take(m as int)
            + seq![x@] + sv.skip(m as int))[j] by {
            assert(elems_view(acc@)[j] == v_view(acc@[j]));
            if j < m {
                assert(acc@[j] == s0[j]);
            } else if j > m {
                assert(acc@[j] == s0[j - 1]);
            }
        }
        assert(elems_view(acc@) =~= sv.take(m as int) + seq![x@] + sv.skip(m as int));
    }
}

/// Sort a vector of values by the total order, stably.
#[verifier::loop_isolation(false)]
pub fn sort_vals_exec(xs: &Vec<Val>) -> (r: Vec<Val>)
    ensures
        elems_view(r@) == sort_vals(elems_view(xs@)),
{
    proof {
        lemma_elems_view(xs@);
    }
    let ghost sv = elems_view(xs@);
    let mut acc: Vec<Val> = Vec::new();
    let mut i: usize = xs.len();
    proof {
        assert(sv.skip(xs@.len() as int) =~= Seq::<ValV>::empty());
        assert(elems_view(acc@) == sort_vals(sv.skip(xs@.len() as int)));
    }
    while i > 0
        invariant
            0 <= i <= xs@.len(),
            elems_view(acc@) == sort_vals(sv.skip(i as int)),
        decreases i,
    {
        i = i - 1;
        let x = xs[i].clone();
        proof {
            assert(sv.skip(i as int)[0] == sv[i as int]);
            assert(sv[i as int] == v_view(xs@[i as int]));
            assert(sv.skip(i as int).drop_first() =~= sv.skip(i + 1));
        }
        insert_val_exec(&mut acc, x);
    }
    proof {
        assert(sv.skip(0) =~= sv);
    }
    acc
}

/// Insert a keyed element into a key-sorted vector, stably.
#[verifier::loop_isolation(false)]
fn insert_pair_exec(acc: &mut Vec<(Vec<Val>, Val)>, x: (Vec<Val>, Val))
    ensures
        pairs_view(final(acc)@) == insert_pair(pairs_view(old(acc)@), (elems_view(x.0@), x.1@)),
{
    proof {
        lemma_pairs_view(acc@);
    }
    let ghost s0 = acc@;
    let ghost sv = pairs_view(s0);
    let ghost xv = (elems_view(x.0@), x.1@);
    let mut m: usize = 0;
    while m < acc.len()
        invariant
            acc@ == s0,
            0 <= m <= s0.len(),
            forall|j: int| 0 <= j < m ==> arr_cmp(xv.0, (#[trigger] sv[j]).0) == Cmp::Greater,
        decreases s0.len() - m,
    {
        let c = cmp_val_lists(&x.0, &acc[m].0);
        proof {
            assert(sv[m as int] == (elems_view(s0[m as int].0@), v_view(s0[m as int].1)));
        }
        match c {
            Cmp::Greater => {
                m = m + 1;
            },
            _ => {
                break ;
            },
        }
    }
    proof {
        lemma_insert_pair_at(sv, xv, m as int);
    }
    acc.insert(m, x);
    proof {
        lemma_pairs_view(acc@);
        assert forall|j: int| 0 <= j < acc@.len() implies pairs_view(acc@)[j] == (sv.take(m as int)
            + seq![xv] + sv.skip(m as int))[j] by {
            assert(pairs_view(acc@)[j] == (elems_view(acc@[j].0@), v_view(acc@[j].1)));
            if j < m {
                assert(acc@[j] == s0[j]);
                assert(sv[j] == (elems_view(s0[j].0@), v_view(s0[j].1)));
            } else if j > m {
                assert(acc@[j] == s0[j - 1]);
                assert(sv[j - 1] == (elems_view(s0[j - 1].0@), v_view(s0[j - 1].1)));
            }
        }
        assert(pairs_view(acc@) =~= sv.take(m as int) + seq![xv] + sv.skip(m as int));
    }
}

/// Sort keyed elements by their keys, stably.
#[verifier::loop_isolation(false)]
pub fn sort_pairs_exec(mut xs: Vec<(Vec<Val>, Val)>) -> (r: Vec<(Vec<Val>, Val)>)
    ensures
        pairs_view(r@) == sort_pairs(pairs_view(xs@)),
{
    proof {
        lemma_pairs_view(xs@);
    }
    let ghost s0 = xs@;
    let ghost sv = pairs_view(s0);
    let mut acc: Vec<(Vec<Val>, Val)> = Vec::new();
    let mut i: usize = xs.len();
    proof {
        assert(sv.skip(s0.len() as int) =~= Seq::<PairV>::empty());
    }
    while i > 0
        invariant
            0 <= i <= s0.len(),
            xs@ == s0,
            pairs_view(acc@) == sort_pairs(sv.skip(i as int)),
        decreases i,
    {
        i = i - 1;
        let ks = clone_vals(&xs[i].0);
        let v = xs[i].1.clone();
        proof {
            assert(sv.skip(i as int)[0] == sv[i as int]);
            assert(sv[i as int] == (elems_view(s0[i as int].0@), v_view(s0[i as int].1)));
            assert(sv.skip(i as int).drop_first() =~= sv.skip(i + 1));
        }
        insert_pair_exec(&mut acc, (ks, v));
    }
    proof {
        assert(sv.skip(0) =~= sv);
    }
    acc
}

/// Clone a vector of values; the model is kept.
pub fn clone_vals(xs: &Vec<Val>) -> (r: Vec<Val>)
    ensures
        elems_view(r@) == elems_view(xs@),
        r@.len() == xs@.len(),
{
    let mut out: Vec<Val> = Vec::new();
    let mut i: usize = 0;
    while i < xs.len()
        invariant
            0 <= i <= xs@.len(),
            out@.len() == i,
            forall|j: int| 0 <= j < i ==> (#[trigger] out@[j])@ == xs@[j]@,
        decreases xs@.len() - i,
    {
        let e = xs[i].clone();
        out.push(e);
        i = i + 1;
    }
    proof {
        lemma_elems_view(out@);
        lemma_elems_view(xs@);
        assert forall|j: int| 0 <= j < out@.len() implies elems_view(out@)[j] == elems_view(
            xs@,
        )[j] by {
            assert(elems_view(out@)[j] == v_view(out@[j]));
            assert(elems_view(xs@)[j] == v_view(xs@[j]));
        }
        assert(elems_view(out@) =~= elems_view(xs@));
    }
    out
}

/// Compare two value lists lexicographically.
#[verifier::loop_isolation(false)]
pub fn cmp_val_lists(a: &Vec<Val>, b: &Vec<Val>) -> (r: Cmp)
    ensures
        r == arr_cmp(elems_view(a@), elems_view(b@)),
{
    proof {
        lemma_elems_view(a@);
        lemma_elems_view(b@);
    }
    let ghost xa = elems_view(a@);
    let ghost ya = elems_view(b@);
    proof {
        assert(xa.skip(0) =~= xa);
        assert(ya.skip(0) =~= ya);
    }
    let n = if a.len() < b.len() {
        a.len()
    } else {
        b.len()
    };
    let mut i: usize = 0;
    while i < n
        invariant
            0 <= i <= n,
            n == if a@.len() < b@.len() {
                a@.len()
            } else {
                b@.len()
            },
            arr_cmp(xa, ya) == arr_cmp(xa.skip(i as int), ya.skip(i as int)),
        decreases n - i,
    {
        let c = a[i].cmp_with(&b[i]);
        proof {
            assert(xa.skip(i as int)[0] == xa[i as int]);
            assert(ya.skip(i as int)[0] == ya[i as int]);
            assert(xa[i as int] == v_view(a@[i as int]));
            assert(ya[i as int] == v_view(b@[i as int]));
            assert(xa.skip(i as int).drop_first() =~= xa.skip(i + 1));
            assert(ya.skip(i as int).drop_first() =~= ya.skip(i + 1));
        }
        match c {
            Cmp::Equal => {
                i = i + 1;
            },
            _ => {
                return c;
            },
        }
    }
    proof {
        assert(xa.skip(i as int).len() == xa.len() - i);
        assert(ya.skip(i as int).len() == ya.len() - i);
    }
    if a.len() < b.len() {
        Cmp::Less
    } else if b.len() < a.len() {
        Cmp::Greater
    } else {
        Cmp::Equal
    }
}

/// The keys of an object as sorted strings; the indices of an array.
pub open spec fn keys_spec(v: ValV) -> Result<ValV, crate::ops::ErrorV> {
    match v {
        ValV::Obj(o) => Ok(
            ValV::Arr(sort_vals(Seq::new(o.len(), |i: int| ValV::Str(o[i].0)))),
        ),
        ValV::Arr(a) => if a.len() <= i64::MAX {
            Ok(ValV::Arr(Seq::new(a.len(), |i: int| ValV::Int(i))))
        } else {
            Err(crate::ops::ErrorV::Str("integer overflow"@))
        },
        x => Err(crate::ops::ErrorV::Typ(x, "array or object"@)),
    }
}

impl Val {
    /// The sorted keys of an object, or the indices of an array.
    #[verifier::loop_isolation(false)]
    pub fn keys(&self) -> (r: ValR)
        ensures
            vr_view(r) == keys_spec(self@),
    {
        match self {
            Val::Obj(o) => {
                proof {
                    lemma_entries_view(o@);
                }
                let ghost ks = Seq::new(entries_view(o@).len(), |i: int| ValV::Str(
                    entries_view(o@)[i].0,
                ));
                let mut keys: Vec<Val> = Vec::new();
                let mut i: usize = 0;
                while i < o.len()
                    invariant
                        0 <= i <= o@.len(),
                        keys@.len() == i,
                        forall|j: int| 0 <= j < i ==> (#[trigger] keys@[j]) == Val::Str(o@[j].0),
                    decreases o@.len() - i,
                {
                    let k = o[i].0.clone();
                    keys.push(Val::Str(k));
                    i = i + 1;
                }
                proof {
                    lemma_elems_view(keys@);
                    assert forall|j: int| 0 <= j < keys@.len() implies elems_view(keys@)[j]
                        == ks[j] by {
                        assert(elems_view(keys@)[j] == v_view(keys@[j]));
                        assert(entries_view(o@)[j] == (o@[j].0@, v_view(o@[j].1)));
                    }
                    assert(elems_view(keys@) =~= ks);
                }
                let sorted = sort_vals_exec(&keys);
                Ok(Val::Arr(sorted))
            },
            Val::Arr(a) => {
                proof {
                    lemma_elems_view(a@);
                }
                if a.len() as u64 > i64::MAX as u64 {
                    return Err(Error::Str("integer overflow".to_owned()));
                }
                let mut out: Vec<Val> = Vec::new();
                let mut i: usize = 0;
                while i < a.len()
                    invariant
                        0 <= i <= a@.len(),
                        a@.len() <= i64::MAX,
                        out@.len() == i,
                        forall|j: int| 0 <= j < i ==> (#[trigger] out@[j]) == Val::Int(j as i64),
                    decreases a@.len() - i,
                {
                    out.push(Val::Int(i as i64));
                    i = i + 1;
                }
                proof {
                    lemma_elems_view(out@);
                    assert forall|j: int| 0 <= j < out@.len() implies elems_view(out@)[j]
                        == ValV::Int(j) by {
                        assert(elems_view(out@)[j] == v_view(out@[j]));
                    }
                    assert(elems_view(out@) =~= Seq::new(
                        elems_view(a@).len(),
                        |i: int| ValV::Int(i),
                    ));
                }
                Ok(Val::Arr(out))
            },
            _ => Err(Error::Typ(self.clone(), "array or object".to_owned())),
        }
    }
}


/// Group adjacent elements with equal keys, given the current group.
pub open spec fn group_go(s: Seq<PairV>, curkey: Seq<ValV>, curgrp: Seq<ValV>) -> Seq<ValV>
    decreases s.len(),
{
    if s.len() == 0 {
        seq![ValV::Arr(curgrp)]
    } else if arr_cmp(s[0].0, curkey) == Cmp::Equal {
        group_go(s.drop_first(), s[0].0, curgrp.push(s[0].1))
    } else {
        seq![ValV::Arr(curgrp)] + group_go(s.drop_first(), s[0].0, seq![s[0].1])
    }
}

/// The groups of a key-sorted element list: one array per run of equal
/// keys.
pub open spec fn group_spec(s: Seq<PairV>) -> Seq<ValV> {
    if s.len() == 0 {
        Seq::empty()
    } else {
        group_go(s.drop_first(), s[0].0, seq![s[0].1])
    }
}

/// The element whose key is least (or, with the flag, greatest, taking
/// the last of equals).
pub open spec fn cmp_go(s: Seq<PairV>, bestk: Seq<ValV>, bestv: ValV, take_ge: bool) -> ValV
    decreases s.len(),
{
    if s.len() == 0 {
        bestv
    } else {
        let replace = if take_ge {
            arr_cmp(s[0].0, bestk) != Cmp::Less
        } else {
            arr_cmp(s[0].0, bestk) == Cmp::Less
        };
        if replace {
            cmp_go(s.drop_first(), s[0].0, s[0].1, take_ge)
        } else {
            cmp_go(s.drop_first(), bestk, bestv, take_ge)
        }
    }
}

/// The extremal element of a keyed list, if any.
pub open spec fn cmp_by_spec(s: Seq<PairV>, take_ge: bool) -> Option<ValV> {
    if s.len() == 0 {
        None
    } else {
        Some(cmp_go(s.drop_first(), s[0].0, s[0].1, take_ge))
    }
}

/// Group keyed elements: sort by key, then collect one array per run of
/// equal keys.
pub fn group_by(pairs: Vec<(Vec<Val>, Val)>) -> (r: Val)
    ensures
        r@ == ValV::Arr(group_spec(sort_pairs(pairs_view(pairs@)))),
{
    let sorted = sort_pairs_exec(pairs);
    proof {
        lemma_pairs_view(sorted@);
    }
    if sorted.len() == 0 {
        proof {
            lemma_elems_view(Seq::<Val>::empty());
        }
        Val::Arr(Vec::new())
    } else {
        let first = sorted[0].1.clone();
        let ghost firstk = pairs_view(sorted@)[0].0;
        let mut grp: Vec<Val> = Vec::new();
        grp.push(first);
        proof {
            lemma_elems_view(grp@);
            assert(elems_view(grp@) =~= seq![pairs_view(sorted@)[0].1]);
        }
        let out = group_runs_exec(&sorted, 1, Ghost(firstk), grp);
        Val::Arr(out)
    }
}

/// Walk the sorted pairs, closing a group at each key change.
#[verifier::loop_isolation(false)]
fn group_runs_exec(
    sorted: &Vec<(Vec<Val>, Val)>,
    i: usize,
    Ghost(curkey): Ghost<Seq<ValV>>,
    grp: Vec<Val>,
) -> (r: Vec<Val>)
    requires
        1 <= i <= sorted@.len(),
        elems_view((sorted@[i as int - 1].0)@) == curkey,
    ensures
        elems_view(r@) == group_go(pairs_view(sorted@).skip(i as int), curkey, elems_view(grp@)),
    decreases sorted@.len() - i,
{
    proof {
        lemma_pairs_view(sorted@);
    }
    if i == sorted.len() {
        proof {
            assert(pairs_view(sorted@).skip(i as int).len() == 0);
        }
        let mut out: Vec<Val> = Vec::new();
        out.push(Val::Arr(grp));
        proof {
            lemma_elems_view(out@);
            assert(elems_view(out@) =~= seq![v_view(out@[0])]);
        }
        out
    } else {
        proof {
            assert(pairs_view(sorted@).skip(i as int)[0] == pairs_view(sorted@)[i as int]);
            assert(pairs_view(sorted@)[i as int] == (elems_view(sorted@[i as int].0@), v_view(
                sorted@[i as int].1,
            )));
            assert(pairs_view(sorted@).skip(i as int).drop_first() =~= pairs_view(sorted@).skip(
                i + 1,
            ));
        }
        let c = cmp_val_lists(&sorted[i].0, &sorted[i - 1].0);
        proof {
            assert(elems_view(sorted@[i as int - 1].0@) == curkey);
        }
        match c {
            Cmp::Equal => {
                let mut grp = grp;
                let ghost grpg = grp@;
                let e = sorted[i].1.clone();
                let ghost ev = e;
                grp.push(e);
                proof {
                    crate::val::lemma_elems_view_push(grpg, ev);
                }
                group_runs_exec(sorted, i + 1, Ghost(elems_view(sorted@[i as int].0@)), grp)
            },
            _ => {
                let mut newgrp: Vec<Val> = Vec::new();
                let e = sorted[i].1.clone();
                newgrp.push(e);
                proof {
                    lemma_elems_view(newgrp@);
                    assert(elems_view(newgrp@) =~= seq![pairs_view(sorted@)[i as int].1]);
                }
                let rest = group_runs_exec(
                    sorted,
                    i + 1,
                    Ghost(elems_view(sorted@[i as int].0@)),
                    newgrp,
                );
                let mut out: Vec<Val> = Vec::new();
                out.push(Val::Arr(grp));
                let mut rest = rest;
                let ghost outg = out@;
                let ghost restg = rest@;
                out.append(&mut rest);
                proof {
                    crate::val::lemma_elems_view_concat(outg, restg);
                    lemma_elems_view(outg);
                    assert(elems_view(outg) =~= seq![v_view(outg[0])]);
                }
                out
            },
        }
    }
}

/// The element whose keys are least or greatest, if the list is not
/// empty.
pub fn cmp_by(pairs: &Vec<(Vec<Val>, Val)>, take_ge: bool) -> (r: Option<Val>)
    ensures
        match cmp_by_spec(pairs_view(pairs@), take_ge) {
            Some(w) => r matches Some(rv) && rv@ == w,
            None => r is None,
        },
{
    proof {
        lemma_pairs_view(pairs@);
    }
    if pairs.len() == 0 {
        None
    } else {
        let best = pairs[0].1.clone();
        let bestk = clone_vals(&pairs[0].0);
        Some(cmp_go_exec(pairs, 1, bestk, best, take_ge))
    }
}

/// Scan for the extremal element.
#[verifier::loop_isolation(false)]
fn cmp_go_exec(
    pairs: &Vec<(Vec<Val>, Val)>,
    i: usize,
    bestk: Vec<Val>,
    best: Val,
    take_ge: bool,
) -> (r: Val)
    requires
        1 <= i <= pairs@.len(),
    ensures
        r@ == cmp_go(pairs_view(pairs@).skip(i as int), elems_view(bestk@), best@, take_ge),
    decreases pairs@.len() - i,
{
    proof {
        lemma_pairs_view(pairs@);
    }
    if i == pairs.len() {
        proof {
            assert(pairs_view(pairs@).skip(i as int).len() == 0);
        }
        best
    } else {
        proof {
            assert(pairs_view(pairs@).skip(i as int)[0] == pairs_view(pairs@)[i as int]);
            assert(pairs_view(pairs@)[i as int] == (elems_view(pairs@[i as int].0@), v_view(
                pairs@[i as int].1,
            )));
            assert(pairs_view(pairs@).skip(i as int).drop_first() =~= pairs_view(pairs@).skip(
                i + 1,
            ));
        }
        let c = cmp_val_lists(&pairs[i].0, &bestk);
        let replace = if take_ge {
            !matches!(c, Cmp::Less)
        } else {
            matches!(c, Cmp::Less)
        };
        if replace {
            let nb = pairs[i].1.clone();
            let nk = clone_vals(&pairs[i].0);
            cmp_go_exec(pairs, i + 1, nk, nb, take_ge)
        } else {
            cmp_go_exec(pairs, i + 1, bestk, best, take_ge)
        }
    }
}




/// The keys of an object in insertion order; the indices of an array.
pub open spec fn keys_unsorted_spec(v: ValV) -> Result<ValV, crate::ops::ErrorV> {
    match v {
        ValV::Obj(o) => Ok(ValV::Arr(Seq::new(o.len(), |i: int| ValV::Str(o[i].0)))),
        ValV::Arr(a) => if a.len() <= i64::MAX {
            Ok(ValV::Arr(Seq::new(a.len(), |i: int| ValV::Int(i))))
        } else {
            Err(crate::ops::ErrorV::Str("integer overflow"@))
        },
        x => Err(crate::ops::ErrorV::Typ(x, "array or object"@)),
    }
}

impl Val {
    /// The keys of an object in insertion order, or the indices of an
    /// array.
    #[verifier::loop_isolation(false)]
    pub fn keys_unsorted(&self) -> (r: ValR)
        ensures
            vr_view(r) == keys_unsorted_spec(self@),
    {
        match self {
            Val::Obj(o) => {
                proof {
                    lemma_entries_view(o@);
                }
                let mut keys: Vec<Val> = Vec::new();
                let mut i: usize = 0;
                while i < o.len()
                    invariant
                        0 <= i <= o@.len(),
                        keys@.len() == i,
                        forall|j: int| 0 <= j < i ==> (#[trigger] keys@[j]) == Val::Str(o@[j].0),
                    decreases o@.len() - i,
                {
                    let k = o[i].0.clone();
                    keys.push(Val::Str(k));
                    i = i + 1;
                }
                proof {
                    lemma_elems_view(keys@);
                    assert forall|j: int| 0 <= j < keys@.len() implies elems_view(keys@)[j]
                        == ValV::Str(entries_view(o@)[j].0) by {
                        assert(elems_view(keys@)[j] == v_view(keys@[j]));
                        assert(entries_view(o@)[j] == (o@[j].0@, v_view(o@[j].1)));
                    }
                    assert(elems_view(keys@) =~= Seq::new(
                        entries_view(o@).len(),
                        |j: int| ValV::Str(entries_view(o@)[j].0),
                    ));
                }
                Ok(Val::Arr(keys))
            },
            Val::Arr(a) => {
                proof {
                    lemma_elems_view(a@);
                }
                if a.len() as u64 > i64::MAX as u64 {
                    return Err(Error::Str("integer overflow".to_owned()));
                }
                let mut out: Vec<Val> = Vec::new();
                let mut i: usize = 0;
                while i < a.len()
                    invariant
                        0 <= i <= a@.len(),
                        a@.len() <= i64::MAX,
                        out@.len() == i,
                        forall|j: int| 0 <= j < i ==> (#[trigger] out@[j]) == Val::Int(j as i64),
                    decreases a@.len() - i,
                {
                    out.push(Val::Int(i as i64));
                    i = i + 1;
                }
                proof {
                    lemma_elems_view(out@);
                    assert forall|j: int| 0 <= j < out@.len() implies elems_view(out@)[j]
                        == ValV::Int(j) by {
                        assert(elems_view(out@)[j] == v_view(out@[j]));
                    }
                    assert(elems_view(out@) =~= Seq::new(
                        elems_view(a@).len(),
                        |i: int| ValV::Int(i),
                    ));
                }
                Ok(Val::Arr(out))
            },
            _ => Err(Error::Typ(self.clone(), "array or object".to_owned())),
        }
    }
}

} // verus!
