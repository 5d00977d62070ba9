//! The executable evaluator: it returns exactly the stream that the
//! semantics in [`crate::sem`] describes, or `None` when the fuel bound
//! is reached.

use vstd::prelude::*;

use crate::filter::{fsize, plsize, ptsize, partsize, Filter, Opt, PairList, Part, PartList};
use crate::ops::{outs_view, vr_view, Error, ErrorV, MathOp, OrdOp, RV, ValR};
use crate::path::{part_view, parts_view, lemma_parts_view, PartV, PartVals};
use crate::rc_list::{ctx_view, Ctx};
use crate::sem::{
    alt_keep, apply_repl, assign_go, bind_go, catch_go, cm_l, cm_r, co_l, co_r, collect_ok,
    eval, eval_ite, eval_obj, idx_fold, if_go, keep_ok, last_scan, limit_go,
    logic_go, mat_part, mat_parts, oc_k, oc_one, oc_rest, oc_v, path_go, path_upd, pipe_go,
    range_vals, rec_go, reduce_go, reduce_step, rg_l, rg_one, rg_r, sort_arr_spec, sortby_go,
    take_n, upd, upd_bind_go, upd_if_go, upd_ite, upd_pipe_go, EntriesV, OutsV, ReplV,
    pairs_payload, as_int_sp, bool_map, objs_map, idx_all, bnds, sl_u, sl_f, part_apply,
    part_apply_all, rsize, rec_upd_go, idx_cur, slot_apply, set_each, elems_go, ents_go,
    elem_combine, elem_tail, ent_combine, ent_tail,
};
use crate::sorting::{pairs_view, lemma_pairs_view, sort_pairs_exec};
use crate::val::{
    elems_view, entries_view, lemma_elems_view, lemma_elems_view_push, lemma_entries_view, v_view,
    Val, ValV,
};

verus! {

/// An output stream under construction.
pub type Outs = Vec<ValR>;

/// Model of an optional output stream.
pub open spec fn outs_opt(r: Option<Vec<ValR>>) -> Option<OutsV> {
    match r {
        Some(v) => Some(outs_view(v@)),
        None => None,
    }
}

/// A stream of one element.
fn singleton(x: ValR) -> (r: Vec<ValR>)
    ensures
        outs_view(r@) == seq![vr_view(x)],
{
    let mut out: Vec<ValR> = Vec::new();
    let ghost xv = vr_view(x);
    out.push(x);
    proof {
        assert(outs_view(out@) =~= seq![xv]);
    }
    out
}

/// Concatenating streams concatenates their models.
pub proof fn lemma_outs_concat(a: Seq<ValR>, b: Seq<ValR>)
    ensures
        outs_view(a + b) == outs_view(a) + outs_view(b),
{
    assert(outs_view(a + b) =~= outs_view(a) + outs_view(b));
}

/// The model of a suffix: head and tail.
proof fn lemma_outs_suffix(ys: Seq<ValR>, i: int)
    requires
        0 <= i < ys.len(),
    ensures
        outs_view(ys).skip(i)[0] == vr_view(ys[i]),
        outs_view(ys).skip(i).drop_first() =~= outs_view(ys).skip(i + 1),
        outs_view(ys).skip(i).len() == ys.len() - i,
{
    assert(outs_view(ys).skip(i)[0] == outs_view(ys)[i]);
}

/// Collect a stream into its values; the first error aborts.
fn collect_exec(ys: &Vec<ValR>, i: usize) -> (r: Result<Vec<Val>, Error>)
    requires
        i <= ys@.len(),
    ensures
        match collect_ok(outs_view(ys@).skip(i as int)) {
            Ok(vs) => r matches Ok(rv) && elems_view(rv@) == vs,
            Err(e) => r matches Err(re) && re@ == e,
        },
    decreases ys@.len() - i,
{
    if i == ys.len() {
        proof {
            assert(outs_view(ys@).skip(i as int).len() == 0);
            assert(elems_view(Seq::<Val>::empty()) =~= Seq::<ValV>::empty());
        }
        Ok(Vec::new())
    } else {
        proof {
            lemma_outs_suffix(ys@, i as int);
        }
        match &ys[i] {
            Err(e) => Err(e.clone()),
            Ok(v) => match collect_exec(ys, i + 1) {
                Err(e) => Err(e),
                Ok(rest) => {
                    let mut rest = rest;
                    let ghost restg = rest@;
                    let vc = v.clone();
                    let ghost vv = vc@;
                    rest.insert(0, vc);
                    proof {
                        lemma_elems_view(rest@);
                        lemma_elems_view(restg);
                        assert forall|t: int| 0 <= t < rest@.len() implies elems_view(rest@)[t] == (
                        seq![vv] + elems_view(restg))[t] by {
                            assert(elems_view(rest@)[t] == v_view(rest@[t]));
                            if t > 0 {
                                assert(rest@[t] == restg[t - 1]);
                                assert(elems_view(restg)[t - 1] == v_view(restg[t - 1]));
                            }
                        }
                        assert(elems_view(rest@) =~= seq![vv] + elems_view(restg));
                    }
                    Ok(rest)
                },
            },
        }
    }
}

/// The successful elements of a stream.
fn keep_ok_exec(ys: &Vec<ValR>, i: usize) -> (r: Vec<ValR>)
    requires
        i <= ys@.len(),
    ensures
        outs_view(r@) == keep_ok(outs_view(ys@).skip(i as int)),
    decreases ys@.len() - i,
{
    if i == ys.len() {
        proof {
            assert(outs_view(ys@).skip(i as int).len() == 0);
            assert(outs_view(Seq::<ValR>::empty()) =~= Seq::<RV>::empty());
        }
        Vec::new()
    } else {
        proof {
            lemma_outs_suffix(ys@, i as int);
        }
        let mut rest = keep_ok_exec(ys, i + 1);
        match &ys[i] {
            Ok(v) => {
                let ghost restg = rest@;
                rest.insert(0, Ok(v.clone()));
                proof {
                    assert(outs_view(rest@) =~= seq![RV::Ok(v@)] + outs_view(restg));
                }
                rest
            },
            Err(_) => {
                proof {
                    assert(Seq::<RV>::empty() + keep_ok(outs_view(ys@).skip(i + 1)) =~= keep_ok(
                        outs_view(ys@).skip(i + 1),
                    ));
                }
                rest
            },
        }
    }
}

/// The elements an alternative keeps: errors and truthy values.
fn alt_keep_exec(ys: &Vec<ValR>, i: usize) -> (r: Vec<ValR>)
    requires
        i <= ys@.len(),
    ensures
        outs_view(r@) == alt_keep(outs_view(ys@).skip(i as int)),
    decreases ys@.len() - i,
{
    if i == ys.len() {
        proof {
            assert(outs_view(ys@).skip(i as int).len() == 0);
            assert(outs_view(Seq::<ValR>::empty()) =~= Seq::<RV>::empty());
        }
        Vec::new()
    } else {
        proof {
            lemma_outs_suffix(ys@, i as int);
        }
        let mut rest = alt_keep_exec(ys, i + 1);
        let ghost restg = rest@;
        match &ys[i] {
            Err(e) => {
                rest.insert(0, Err(e.clone()));
                proof {
                    assert(outs_view(rest@) =~= seq![RV::Err(e@)] + outs_view(restg));
                }
                rest
            },
            Ok(v) => {
                if v.as_bool() {
                    rest.insert(0, Ok(v.clone()));
                    proof {
                        assert(outs_view(rest@) =~= seq![RV::Ok(v@)] + outs_view(restg));
                    }
                    rest
                } else {
                    proof {
                        assert(Seq::<RV>::empty() + alt_keep(outs_view(ys@).skip(i + 1))
                            =~= alt_keep(outs_view(ys@).skip(i + 1)));
                    }
                    rest
                }
            },
        }
    }
}

/// The last element of a stream; an error anywhere aborts.
fn last_exec(ys: &Vec<ValR>, i: usize) -> (r: Vec<ValR>)
    requires
        i <= ys@.len(),
    ensures
        outs_view(r@) == last_scan(outs_view(ys@).skip(i as int)),
    decreases ys@.len() - i,
{
    if i == ys.len() {
        proof {
            assert(outs_view(ys@).skip(i as int).len() == 0);
            assert(outs_view(Seq::<ValR>::empty()) =~= Seq::<RV>::empty());
        }
        Vec::new()
    } else {
        proof {
            lemma_outs_suffix(ys@, i as int);
        }
        match &ys[i] {
            Err(e) => singleton(Err(e.clone())),
            Ok(v) => {
                if i + 1 == ys.len() {
                    singleton(Ok(v.clone()))
                } else {
                    last_exec(ys, i + 1)
                }
            },
        }
    }
}

/// At most `n` elements of a stream.
fn take_exec(ys: Vec<ValR>, n: i64) -> (r: Vec<ValR>)
    ensures
        outs_view(r@) == take_n(outs_view(ys@), n as int),
{
    if n <= 0 {
        proof {
            assert(outs_view(Seq::<ValR>::empty()) =~= Seq::<RV>::empty());
        }
        Vec::new()
    } else if n as u64 >= ys.len() as u64 {
        ys
    } else {
        let mut out: Vec<ValR> = Vec::new();
        let mut i: usize = 0;
        let k = n as usize;
        while i < k
            invariant
                0 <= i <= k,
                k < ys@.len(),
                out@.len() == i,
                forall|j: int| 0 <= j < i ==> vr_view(#[trigger] out@[j]) == vr_view(ys@[j]),
            decreases k - i,
        {
            let e = clone_valr(&ys[i]);
            out.push(e);
            i = i + 1;
        }
        proof {
            assert forall|j: int| 0 <= j < out@.len() implies outs_view(out@)[j] == outs_view(
                ys@,
            ).take(n as int)[j] by {
                assert(outs_view(out@)[j] == vr_view(out@[j]));
                assert(outs_view(ys@)[j] == vr_view(ys@[j]));
            }
            assert(outs_view(out@) =~= outs_view(ys@).take(n as int));
        }
        out
    }
}

/// Clone one stream element; the model is kept.
fn clone_valr(y: &ValR) -> (r: ValR)
    ensures
        vr_view(r) == vr_view(*y),
{
    match y {
        Ok(v) => Ok(v.clone()),
        Err(e) => Err(e.clone()),
    }
}

/// The integers from `l` up to but excluding `u`, as a stream.
#[verifier::loop_isolation(false)]
fn range_exec(l: i64, u: i64) -> (r: Vec<ValR>)
    ensures
        outs_view(r@) == range_vals(l as int, u as int),
{
    let mut out: Vec<ValR> = Vec::new();
    if l < u {
        let mut c = l;
        while c < u
            invariant
                l <= c <= u,
                out@.len() == c - l,
                forall|j: int| 0 <= j < out@.len() ==> #[trigger] out@[j] == ValR::Ok(
                    Val::Int((l + j) as i64),
                ),
            decreases u - c,
        {
            out.push(Ok(Val::Int(c)));
            c = c + 1;
        }
    }
    proof {
        assert forall|j: int| 0 <= j < out@.len() implies outs_view(out@)[j] == range_vals(
            l as int,
            u as int,
        )[j] by {
            assert(outs_view(out@)[j] == vr_view(out@[j]));
        }
        assert(outs_view(out@) =~= range_vals(l as int, u as int));
    }
    out
}

/// One row of the arithmetic cartesian product.
fn cm_r_exec(op: MathOp, y: &ValR, rs: &Vec<ValR>, j: usize) -> (r: Vec<ValR>)
    requires
        j <= rs@.len(),
    ensures
        outs_view(r@) == cm_r(op, vr_view(*y), outs_view(rs@).skip(j as int)),
    decreases rs@.len() - j,
{
    if j == rs.len() {
        proof {
            assert(outs_view(rs@).skip(j as int).len() == 0);
            assert(outs_view(Seq::<ValR>::empty()) =~= Seq::<RV>::empty());
        }
        Vec::new()
    } else {
        proof {
            lemma_outs_suffix(rs@, j as int);
        }
        let head: ValR = match y {
            Err(e) => Err(e.clone()),
            Ok(a) => match &rs[j] {
                Err(e) => Err(e.clone()),
                Ok(b) => op.run(a.clone(), b.clone()),
            },
        };
        let ghost hv = vr_view(head);
        let mut rest = cm_r_exec(op, y, rs, j + 1);
        let ghost restg = rest@;
        rest.insert(0, head);
        proof {
            assert(outs_view(rest@) =~= seq![hv] + outs_view(restg));
        }
        rest
    }
}

/// The arithmetic cartesian product, left outputs outermost.
fn cm_l_exec(op: MathOp, ls: &Vec<ValR>, i: usize, rs: &Vec<ValR>) -> (r: Vec<ValR>)
    requires
        i <= ls@.len(),
    ensures
        outs_view(r@) == cm_l(op, outs_view(ls@).skip(i as int), outs_view(rs@)),
    decreases ls@.len() - i,
{
    if i == ls.len() {
        proof {
            assert(outs_view(ls@).skip(i as int).len() == 0);
            assert(outs_view(Seq::<ValR>::empty()) =~= Seq::<RV>::empty());
        }
        Vec::new()
    } else {
        proof {
            lemma_outs_suffix(ls@, i as int);
        }
        let mut row = cm_r_exec(op, &ls[i], rs, 0);
        let mut rest = cm_l_exec(op, ls, i + 1, rs);
        let ghost rowg = row@;
        let ghost restg = rest@;
        proof {
            assert(outs_view(rs@).skip(0) =~= outs_view(rs@));
        }
        row.append(&mut rest);
        proof {
            lemma_outs_concat(rowg, restg);
        }
        row
    }
}

/// One row of the ordering cartesian product.
fn co_r_exec(op: OrdOp, y: &ValR, rs: &Vec<ValR>, j: usize) -> (r: Vec<ValR>)
    requires
        j <= rs@.len(),
    ensures
        outs_view(r@) == co_r(op, vr_view(*y), outs_view(rs@).skip(j as int)),
    decreases rs@.len() - j,
{
    if j == rs.len() {
        proof {
            assert(outs_view(rs@).skip(j as int).len() == 0);
            assert(outs_view(Seq::<ValR>::empty()) =~= Seq::<RV>::empty());
        }
        Vec::new()
    } else {
        proof {
            lemma_outs_suffix(rs@, j as int);
        }
        let head: ValR = match y {
            Err(e) => Err(e.clone()),
            Ok(a) => match &rs[j] {
                Err(e) => Err(e.clone()),
                Ok(b) => Ok(Val::Bool(op.run(a, b))),
            },
        };
        let ghost hv = vr_view(head);
        let mut rest = co_r_exec(op, y, rs, j + 1);
        let ghost restg = rest@;
        rest.insert(0, head);
        proof {
            assert(outs_view(rest@) =~= seq![hv] + outs_view(restg));
        }
        rest
    }
}

/// The ordering cartesian product, left outputs outermost.
fn co_l_exec(op: OrdOp, ls: &Vec<ValR>, i: usize, rs: &Vec<ValR>) -> (r: Vec<ValR>)
    requires
        i <= ls@.len(),
    ensures
        outs_view(r@) == co_l(op, outs_view(ls@).skip(i as int), outs_view(rs@)),
    decreases ls@.len() - i,
{
    if i == ls.len() {
        proof {
            assert(outs_view(ls@).skip(i as int).len() == 0);
            assert(outs_view(Seq::<ValR>::empty()) =~= Seq::<RV>::empty());
        }
        Vec::new()
    } else {
        proof {
            lemma_outs_suffix(ls@, i as int);
        }
        let mut row = co_r_exec(op, &ls[i], rs, 0);
        let mut rest = co_l_exec(op, ls, i + 1, rs);
        let ghost rowg = row@;
        let ghost restg = rest@;
        proof {
            assert(outs_view(rs@).skip(0) =~= outs_view(rs@));
        }
        row.append(&mut rest);
        proof {
            lemma_outs_concat(rowg, restg);
        }
        row
    }
}

/// One row of the range cartesian product.
fn rg_r_exec(y: &ValR, rs: &Vec<ValR>, j: usize) -> (r: Vec<ValR>)
    requires
        j <= rs@.len(),
    ensures
        outs_view(r@) == rg_r(vr_view(*y), outs_view(rs@).skip(j as int)),
    decreases rs@.len() - j,
{
    if j == rs.len() {
        proof {
            assert(outs_view(rs@).skip(j as int).len() == 0);
            assert(outs_view(Seq::<ValR>::empty()) =~= Seq::<RV>::empty());
        }
        Vec::new()
    } else {
        proof {
            lemma_outs_suffix(rs@, j as int);
        }
        let mut head: Vec<ValR> = match y {
            Err(e) => singleton(Err(e.clone())),
            Ok(a) => match &rs[j] {
                Err(e) => singleton(Err(e.clone())),
                Ok(b) => match (a, b) {
                    (Val::Int(l), Val::Int(u)) => range_exec(*l, *u),
                    (Val::Int(_), other) => singleton(
                        Err(Error::Typ(other.clone(), "number".to_owned())),
                    ),
                    (other, _) => singleton(Err(Error::Typ(other.clone(), "number".to_owned()))),
                },
            },
        };
        let mut rest = rg_r_exec(y, rs, j + 1);
        let ghost headg = head@;
        let ghost restg = rest@;
        head.append(&mut rest);
        proof {
            lemma_outs_concat(headg, restg);
        }
        head
    }
}

/// The range cartesian product, left outputs outermost.
fn rg_l_exec(ls: &Vec<ValR>, i: usize, rs: &Vec<ValR>) -> (r: Vec<ValR>)
    requires
        i <= ls@.len(),
    ensures
        outs_view(r@) == rg_l(outs_view(ls@).skip(i as int), outs_view(rs@)),
    decreases ls@.len() - i,
{
    if i == ls.len() {
        proof {
            assert(outs_view(ls@).skip(i as int).len() == 0);
            assert(outs_view(Seq::<ValR>::empty()) =~= Seq::<RV>::empty());
        }
        Vec::new()
    } else {
        proof {
            lemma_outs_suffix(ls@, i as int);
        }
        let mut row = rg_r_exec(&ls[i], rs, 0);
        let mut rest = rg_l_exec(ls, i + 1, rs);
        let ghost rowg = row@;
        let ghost restg = rest@;
        proof {
            assert(outs_view(rs@).skip(0) =~= outs_view(rs@));
        }
        row.append(&mut rest);
        proof {
            lemma_outs_concat(rowg, restg);
        }
        row
    }
}


/// A replacement continuation, executably: what to do with the value at
/// an addressed slot.
pub enum Repl {
    /// Replace the slot by this one value.
    ConstOne(Val),
    /// Run a filter on the old value; its first output replaces the
    /// slot, and an empty output deletes it.
    Run(Filter, Ctx),
    /// Follow a path inside the slot, applying the inner continuation at
    /// its ends.
    PathR(PartList, Ctx, Box<Repl>),
    /// Descend through a filter in update mode; the first output wins.
    Desc(Filter, Ctx, Box<Repl>),
}

/// Model of a continuation.
pub open spec fn repl_view(rp: Repl) -> ReplV
    decreases rp,
{
    match rp {
        Repl::ConstOne(v) => ReplV::ConstOne(v_view(v)),
        Repl::Run(g, c) => ReplV::Run(g, ctx_view(c)),
        Repl::PathR(pl, c, inner) => ReplV::PathR(pl, ctx_view(c), Box::new(repl_view(*inner))),
        Repl::Desc(g, c, inner) => ReplV::Desc(g, ctx_view(c), Box::new(repl_view(*inner))),
    }
}

impl Clone for Repl {
    /// A clone has the same model.
    fn clone(&self) -> (res: Self)
        ensures
            repl_view(res) == repl_view(*self),
        decreases *self,
    {
        match self {
            Repl::ConstOne(v) => Repl::ConstOne(v.clone()),
            Repl::Run(g, c) => Repl::Run(g.clone(), c.clone()),
            Repl::PathR(pl, c, inner) => Repl::PathR(
                pl.clone(),
                c.clone(),
                Box::new((**inner).clone()),
            ),
            Repl::Desc(g, c, inner) => Repl::Desc(
                g.clone(),
                c.clone(),
                Box::new((**inner).clone()),
            ),
        }
    }
}

/// Model of combined entry-list results.
pub open spec fn objrs_view(s: Seq<Result<Vec<(String, Val)>, Error>>) -> Seq<
    Result<EntriesV, ErrorV>,
> {
    s.map_values(
        |r: Result<Vec<(String, Val)>, Error>|
            match r {
                Ok(es) => Result::<EntriesV, ErrorV>::Ok(entries_view(es@)),
                Err(e) => Result::<EntriesV, ErrorV>::Err(e@),
            },
    )
}

/// Clone an entry list; the model is kept.
fn clone_entries(es: &Vec<(String, Val)>) -> (r: Vec<(String, Val)>)
    ensures
        entries_view(r@) == entries_view(es@),
{
    proof {
        lemma_entries_view(es@);
    }
    let mut out: Vec<(String, Val)> = Vec::new();
    let mut i: usize = 0;
    while i < es.len()
        invariant
            0 <= i <= es@.len(),
            out@.len() == i,
            forall|j: int| 0 <= j < i ==> (#[trigger] out@[j]).0@ == es@[j].0@ && out@[j].1@
                == es@[j].1@,
        decreases es@.len() - i,
    {
        let k = es[i].0.clone();
        let v = es[i].1.clone();
        out.push((k, v));
        i = i + 1;
    }
    proof {
        lemma_entries_view(out@);
        assert forall|j: int| 0 <= j < out@.len() implies entries_view(out@)[j] == entries_view(
            es@,
        )[j] by {
            assert(entries_view(out@)[j] == (out@[j].0@, v_view(out@[j].1)));
            assert(entries_view(es@)[j] == (es@[j].0@, v_view(es@[j].1)));
        }
        assert(entries_view(out@) =~= entries_view(es@));
    }
    out
}

/// One object of a key choice, a value choice and a tail object.
#[verifier::loop_isolation(false)]
fn oc_one_exec(k: &ValR, v: &ValR, robj: &Result<Vec<(String, Val)>, Error>) -> (r: Result<
    Vec<(String, Val)>,
    Error,
>)
    ensures
        match oc_one(
            vr_view(*k),
            vr_view(*v),
            match robj {
                Ok(es) => Result::<EntriesV, ErrorV>::Ok(entries_view(es@)),
                Err(e) => Result::<EntriesV, ErrorV>::Err(e@),
            },
        ) {
            Ok(es) => r matches Ok(res) && entries_view(res@) == es,
            Err(e) => r matches Err(re) && re@ == e,
        },
{
    match k {
        Err(e) => Err(e.clone()),
        Ok(Val::Str(ks)) => match v {
            Err(e) => Err(e.clone()),
            Ok(vv) => match robj {
                Err(e) => Err(e.clone()),
                Ok(entries) => {
                    let mut out: Vec<(String, Val)> = Vec::new();
                    out.push((ks.clone(), vv.clone()));
                    let ghost first = entries_view(out@);
                    proof {
                        lemma_entries_view(out@);
                        assert(first =~= seq![(ks@, vv@)]);
                        lemma_entries_view(entries@);
                    }
                    let ghost ev = entries_view(entries@);
                    let mut i: usize = 0;
                    proof {
                        assert(ev.skip(0) =~= ev);
                    }
                    while i < entries.len()
                        invariant
                            0 <= i <= entries@.len(),
                            crate::ops::obj_merge(first, ev) == crate::ops::obj_merge(
                                entries_view(out@),
                                ev.skip(i as int),
                            ),
                        decreases entries@.len() - i,
                    {
                        proof {
                            assert(ev.skip(i as int)[0] == ev[i as int]);
                            assert(ev[i as int] == (entries@[i as int].0@, v_view(
                                entries@[i as int].1,
                            )));
                            assert(ev.skip(i as int).drop_first() =~= ev.skip(i + 1));
                        }
                        let kk = entries[i].0.clone();
                        let vv2 = entries[i].1.clone();
                        crate::ops::entries_set(&mut out, kk, vv2);
                        i = i + 1;
                    }
                    proof {
                        assert(ev.skip(entries@.len() as int).len() == 0);
                    }
                    Ok(out)
                },
            },
        },
        Ok(other) => Err(Error::Typ(other.clone(), "string".to_owned())),
    }
}

/// Combine one key-value choice with every tail object.
fn oc_rest_exec(
    k: &ValR,
    v: &ValR,
    rest: &Vec<Result<Vec<(String, Val)>, Error>>,
    j: usize,
) -> (r: Vec<Result<Vec<(String, Val)>, Error>>)
    requires
        j <= rest@.len(),
    ensures
        objrs_view(r@) == oc_rest(vr_view(*k), vr_view(*v), objrs_view(rest@).skip(j as int)),
    decreases rest@.len() - j,
{
    if j == rest.len() {
        proof {
            assert(objrs_view(rest@).skip(j as int).len() == 0);
            assert(objrs_view(Seq::empty()) =~= Seq::<Result<EntriesV, ErrorV>>::empty());
        }
        Vec::new()
    } else {
        proof {
            assert(objrs_view(rest@).skip(j as int)[0] == objrs_view(rest@)[j as int]);
            assert(objrs_view(rest@).skip(j as int).drop_first() =~= objrs_view(rest@).skip(
                j + 1,
            ));
        }
        let head = oc_one_exec(k, v, &rest[j]);
        let ghost hv = match head {
            Ok(ref es) => Result::<EntriesV, ErrorV>::Ok(entries_view(es@)),
            Err(ref e) => Result::<EntriesV, ErrorV>::Err(e@),
        };
        let mut more = oc_rest_exec(k, v, rest, j + 1);
        let ghost moreg = more@;
        more.insert(0, head);
        proof {
            assert(objrs_view(more@) =~= seq![hv] + objrs_view(moreg));
        }
        more
    }
}

/// Combine one key choice with every value choice.
fn oc_v_exec(
    k: &ValR,
    vys: &Vec<ValR>,
    j: usize,
    rest: &Vec<Result<Vec<(String, Val)>, Error>>,
) -> (r: Vec<Result<Vec<(String, Val)>, Error>>)
    requires
        j <= vys@.len(),
    ensures
        objrs_view(r@) == oc_v(vr_view(*k), outs_view(vys@).skip(j as int), objrs_view(rest@)),
    decreases vys@.len() - j,
{
    if j == vys.len() {
        proof {
            assert(outs_view(vys@).skip(j as int).len() == 0);
            assert(objrs_view(Seq::empty()) =~= Seq::<Result<EntriesV, ErrorV>>::empty());
        }
        Vec::new()
    } else {
        proof {
            lemma_outs_suffix(vys@, j as int);
            assert(objrs_view(rest@).skip(0) =~= objrs_view(rest@));
        }
        let mut head = oc_rest_exec(k, &vys[j], rest, 0);
        let mut more = oc_v_exec(k, vys, j + 1, rest);
        let ghost headg = head@;
        let ghost moreg = more@;
        head.append(&mut more);
        proof {
            assert(objrs_view(headg + moreg) =~= objrs_view(headg) + objrs_view(moreg));
        }
        head
    }
}

/// Combine every key choice with every value choice and tail object.
fn oc_k_exec(
    kys: &Vec<ValR>,
    i: usize,
    vys: &Vec<ValR>,
    rest: &Vec<Result<Vec<(String, Val)>, Error>>,
) -> (r: Vec<Result<Vec<(String, Val)>, Error>>)
    requires
        i <= kys@.len(),
    ensures
        objrs_view(r@) == oc_k(outs_view(kys@).skip(i as int), outs_view(vys@), objrs_view(rest@)),
    decreases kys@.len() - i,
{
    if i == kys.len() {
        proof {
            assert(outs_view(kys@).skip(i as int).len() == 0);
            assert(objrs_view(Seq::empty()) =~= Seq::<Result<EntriesV, ErrorV>>::empty());
        }
        Vec::new()
    } else {
        proof {
            lemma_outs_suffix(kys@, i as int);
            assert(outs_view(vys@).skip(0) =~= outs_view(vys@));
        }
        let mut head = oc_v_exec(&kys[i], vys, 0, rest);
        let mut more = oc_k_exec(kys, i + 1, vys, rest);
        let ghost headg = head@;
        let ghost moreg = more@;
        head.append(&mut more);
        proof {
            assert(objrs_view(headg + moreg) =~= objrs_view(headg) + objrs_view(moreg));
        }
        head
    }
}

/// Apply an index part to one value, one index at a time.
fn idx_all_exec(ivals: &Vec<Val>, j: usize, opt: Opt, v: &Val) -> (r: Result<Vec<Val>, Error>)
    requires
        j <= ivals@.len(),
    ensures
        match idx_all(elems_view(ivals@).skip(j as int), opt, v@) {
            Ok(ws) => r matches Ok(rv) && elems_view(rv@) == ws,
            Err(e) => r matches Err(re) && re@ == e,
        },
    decreases ivals@.len() - j,
{
    proof {
        lemma_elems_view(ivals@);
    }
    if j == ivals.len() {
        proof {
            assert(elems_view(ivals@).skip(j as int).len() == 0);
            assert(elems_view(Seq::<Val>::empty()) =~= Seq::<ValV>::empty());
        }
        Ok(Vec::new())
    } else {
        proof {
            assert(elems_view(ivals@).skip(j as int)[0] == elems_view(ivals@)[j as int]);
            assert(elems_view(ivals@)[j as int] == v_view(ivals@[j as int]));
            assert(elems_view(ivals@).skip(j as int).drop_first() =~= elems_view(ivals@).skip(
                j + 1,
            ));
        }
        match v.index_with(&ivals[j]) {
            Err(e) => {
                if matches!(opt, Opt::Optional) {
                    idx_all_exec(ivals, j + 1, opt, v)
                } else {
                    Err(e)
                }
            },
            Ok(w) => match idx_all_exec(ivals, j + 1, opt, v) {
                Err(e) => Err(e),
                Ok(rest) => {
                    let mut rest = rest;
                    let ghost restg = rest@;
                    let ghost wv = w@;
                    rest.insert(0, w);
                    proof {
                        lemma_elems_view(rest@);
                        lemma_elems_view(restg);
                        assert forall|t: int| 0 <= t < rest@.len() implies elems_view(rest@)[t] == (
                        seq![wv] + elems_view(restg))[t] by {
                            assert(elems_view(rest@)[t] == v_view(rest@[t]));
                            if t > 0 {
                                assert(rest@[t] == restg[t - 1]);
                                assert(elems_view(restg)[t - 1] == v_view(restg[t - 1]));
                            }
                        }
                        assert(elems_view(rest@) =~= seq![wv] + elems_view(restg));
                    }
                    Ok(rest)
                },
            },
        }
    }
}

/// Model of optional bound values.
pub open spec fn opts_view(s: Seq<Option<Val>>) -> Seq<Option<ValV>> {
    s.map_values(
        |o: Option<Val>|
            match o {
                Some(v) => Some(v_view(v)),
                None => None,
            },
    )
}

/// The candidate values of one slice bound.
fn bnds_exec(o: &Option<Vec<Val>>) -> (r: Vec<Option<Val>>)
    ensures
        opts_view(r@) == bnds(
            match o {
                Some(vs) => Some(elems_view(vs@)),
                None => None,
            },
        ),
{
    match o {
        None => {
            let mut out: Vec<Option<Val>> = Vec::new();
            out.push(None);
            proof {
                assert(opts_view(out@) =~= seq![Option::<ValV>::None]);
            }
            out
        },
        Some(vs) => {
            proof {
                lemma_elems_view(vs@);
            }
            let mut out: Vec<Option<Val>> = Vec::new();
            let mut i: usize = 0;
            while i < vs.len()
                invariant
                    0 <= i <= vs@.len(),
                    out@.len() == i,
                    forall|j: int| 0 <= j < i ==> ((#[trigger] out@[j]) matches Some(w) && w@
                        == vs@[j]@),
                decreases vs@.len() - i,
            {
                let e = vs[i].clone();
                out.push(Some(e));
                i = i + 1;
            }
            proof {
                assert forall|j: int| 0 <= j < out@.len() implies opts_view(out@)[j] == bnds(
                    Some(elems_view(vs@)),
                )[j] by {
                    assert(opts_view(out@)[j] == (match out@[j] {
                        Some(v) => Some(v_view(v)),
                        None => None,
                    }));
                    assert(elems_view(vs@)[j] == v_view(vs@[j]));
                }
                assert(opts_view(out@) =~= bnds(Some(elems_view(vs@))));
            }
            out
        },
    }
}

/// The view of one optional bound.
pub open spec fn opt_bound_view(o: Option<Val>) -> Option<ValV> {
    match o {
        Some(v) => Some(v_view(v)),
        None => None,
    }
}

/// Apply the slice combinations of one `from` bound.
fn sl_u_exec(f: &Option<Val>, us: &Vec<Option<Val>>, j: usize, opt: Opt, v: &Val) -> (r: Result<
    Vec<Val>,
    Error,
>)
    requires
        j <= us@.len(),
    ensures
        match sl_u(opt_bound_view(*f), opts_view(us@).skip(j as int), opt, v@) {
            Ok(ws) => r matches Ok(rv) && elems_view(rv@) == ws,
            Err(e) => r matches Err(re) && re@ == e,
        },
    decreases us@.len() - j,
{
    if j == us.len() {
        proof {
            assert(opts_view(us@).skip(j as int).len() == 0);
            assert(elems_view(Seq::<Val>::empty()) =~= Seq::<ValV>::empty());
        }
        Ok(Vec::new())
    } else {
        proof {
            assert(opts_view(us@).skip(j as int)[0] == opts_view(us@)[j as int]);
            assert(opts_view(us@).skip(j as int).drop_first() =~= opts_view(us@).skip(j + 1));
        }
        let fr: Option<&Val> = match f {
            Some(x) => Some(x),
            None => None,
        };
        let ur: Option<&Val> = match &us[j] {
            Some(x) => Some(x),
            None => None,
        };
        match v.slice_with(fr, ur) {
            Err(e) => {
                if matches!(opt, Opt::Optional) {
                    sl_u_exec(f, us, j + 1, opt, v)
                } else {
                    Err(e)
                }
            },
            Ok(w) => match sl_u_exec(f, us, j + 1, opt, v) {
                Err(e) => Err(e),
                Ok(rest) => {
                    let mut rest = rest;
                    let ghost restg = rest@;
                    let ghost wv = w@;
                    rest.insert(0, w);
                    proof {
                        lemma_elems_view(rest@);
                        lemma_elems_view(restg);
                        assert forall|t: int| 0 <= t < rest@.len() implies elems_view(rest@)[t] == (
                        seq![wv] + elems_view(restg))[t] by {
                            assert(elems_view(rest@)[t] == v_view(rest@[t]));
                            if t > 0 {
                                assert(rest@[t] == restg[t - 1]);
                                assert(elems_view(restg)[t - 1] == v_view(restg[t - 1]));
                            }
                        }
                        assert(elems_view(rest@) =~= seq![wv] + elems_view(restg));
                    }
                    Ok(rest)
                },
            },
        }
    }
}

/// Apply every slice combination to one value.
fn sl_f_exec(fs: &Vec<Option<Val>>, i: usize, us: &Vec<Option<Val>>, opt: Opt, v: &Val) -> (r:
    Result<Vec<Val>, Error>)
    requires
        i <= fs@.len(),
    ensures
        match sl_f(opts_view(fs@).skip(i as int), opts_view(us@), opt, v@) {
            Ok(ws) => r matches Ok(rv) && elems_view(rv@) == ws,
            Err(e) => r matches Err(re) && re@ == e,
        },
    decreases fs@.len() - i,
{
    if i == fs.len() {
        proof {
            assert(opts_view(fs@).skip(i as int).len() == 0);
            assert(elems_view(Seq::<Val>::empty()) =~= Seq::<ValV>::empty());
        }
        Ok(Vec::new())
    } else {
        proof {
            assert(opts_view(fs@).skip(i as int)[0] == opts_view(fs@)[i as int]);
            assert(opts_view(fs@).skip(i as int).drop_first() =~= opts_view(fs@).skip(i + 1));
            assert(opts_view(us@).skip(0) =~= opts_view(us@));
        }
        match sl_u_exec(&fs[i], us, 0, opt, v) {
            Err(e) => Err(e),
            Ok(ws) => match sl_f_exec(fs, i + 1, us, opt, v) {
                Err(e) => Err(e),
                Ok(rest) => {
                    let mut ws = ws;
                    let mut rest = rest;
                    let ghost wsg = ws@;
                    let ghost restg = rest@;
                    ws.append(&mut rest);
                    proof {
                        crate::val::lemma_elems_view_concat(wsg, restg);
                    }
                    Ok(ws)
                },
            },
        }
    }
}

/// Apply one materialized part to one value.
fn part_apply_exec(p: &PartVals, opt: Opt, v: &Val) -> (r: Result<Vec<Val>, Error>)
    ensures
        match crate::sem::part_apply(part_view(*p), opt, v@) {
            Ok(ws) => r matches Ok(rv) && elems_view(rv@) == ws,
            Err(e) => r matches Err(re) && re@ == e,
        },
{
    match p {
        PartVals::Index(ivals) => {
            proof {
                lemma_elems_view(ivals@);
                assert(elems_view(ivals@).skip(0) =~= elems_view(ivals@));
            }
            idx_all_exec(ivals, 0, opt, v)
        },
        PartVals::Slice(None, None) => match v.iterate() {
            Ok(ws) => Ok(ws),
            Err(e) => {
                if matches!(opt, Opt::Optional) {
                    proof {
                        assert(elems_view(Seq::<Val>::empty()) =~= Seq::<ValV>::empty());
                    }
                    Ok(Vec::new())
                } else {
                    Err(e)
                }
            },
        },
        PartVals::Slice(a, b) => {
            let fs = bnds_exec(a);
            let us = bnds_exec(b);
            proof {
                assert(opts_view(fs@).skip(0) =~= opts_view(fs@));
            }
            sl_f_exec(&fs, 0, &us, opt, v)
        },
    }
}

/// Apply one materialized part to every value of a working set.
fn part_apply_all_exec(p: &PartVals, opt: Opt, vals: &Vec<Val>, i: usize) -> (r: Result<
    Vec<Val>,
    Error,
>)
    requires
        i <= vals@.len(),
    ensures
        match crate::sem::part_apply_all(part_view(*p), opt, elems_view(vals@).skip(i as int)) {
            Ok(ws) => r matches Ok(rv) && elems_view(rv@) == ws,
            Err(e) => r matches Err(re) && re@ == e,
        },
    decreases vals@.len() - i,
{
    proof {
        lemma_elems_view(vals@);
    }
    if i == vals.len() {
        proof {
            assert(elems_view(vals@).skip(i as int).len() == 0);
            assert(elems_view(Seq::<Val>::empty()) =~= Seq::<ValV>::empty());
        }
        Ok(Vec::new())
    } else {
        proof {
            assert(elems_view(vals@).skip(i as int)[0] == elems_view(vals@)[i as int]);
            assert(elems_view(vals@)[i as int] == v_view(vals@[i as int]));
            assert(elems_view(vals@).skip(i as int).drop_first() =~= elems_view(vals@).skip(
                i + 1,
            ));
        }
        match part_apply_exec(p, opt, &vals[i]) {
            Err(e) => Err(e),
            Ok(ws) => match part_apply_all_exec(p, opt, vals, i + 1) {
                Err(e) => Err(e),
                Ok(rest) => {
                    let mut ws = ws;
                    let mut rest = rest;
                    let ghost wsg = ws@;
                    let ghost restg = rest@;
                    ws.append(&mut rest);
                    proof {
                        crate::val::lemma_elems_view_concat(wsg, restg);
                    }
                    Ok(ws)
                },
            },
        }
    }
}


/// Each value replaced by its truthiness.
fn bool_map_exec(ys: &Vec<ValR>) -> (r: Vec<ValR>)
    ensures
        outs_view(r@) == bool_map(outs_view(ys@)),
{
    let mut out: Vec<ValR> = Vec::new();
    let mut i: usize = 0;
    while i < ys.len()
        invariant
            0 <= i <= ys@.len(),
            out@.len() == i,
            forall|j: int| 0 <= j < i ==> vr_view(#[trigger] out@[j]) == bool_map(
                outs_view(ys@),
            )[j],
        decreases ys@.len() - i,
    {
        match &ys[i] {
            Err(e) => out.push(Err(e.clone())),
            Ok(v) => out.push(Ok(Val::Bool(v.as_bool()))),
        }
        i = i + 1;
    }
    proof {
        assert forall|j: int| 0 <= j < out@.len() implies outs_view(out@)[j] == bool_map(
            outs_view(ys@),
        )[j] by {
            assert(outs_view(out@)[j] == vr_view(out@[j]));
        }
        assert(outs_view(out@) =~= bool_map(outs_view(ys@)));
    }
    out
}

/// Successful values wrapped back into a stream.
fn ok_wrap_exec(vals: &Vec<Val>) -> (r: Vec<ValR>)
    ensures
        outs_view(r@) == elems_view(vals@).map_values(|w: ValV| RV::Ok(w)),
{
    proof {
        lemma_elems_view(vals@);
    }
    let mut out: Vec<ValR> = Vec::new();
    let mut i: usize = 0;
    while i < vals.len()
        invariant
            0 <= i <= vals@.len(),
            out@.len() == i,
            forall|j: int| 0 <= j < i ==> vr_view(#[trigger] out@[j]) == RV::Ok(vals@[j]@),
        decreases vals@.len() - i,
    {
        let e = vals[i].clone();
        out.push(Ok(e));
        i = i + 1;
    }
    proof {
        assert forall|j: int| 0 <= j < out@.len() implies outs_view(out@)[j] == elems_view(
            vals@,
        ).map_values(|w: ValV| RV::Ok(w))[j] by {
            assert(outs_view(out@)[j] == vr_view(out@[j]));
            assert(elems_view(vals@)[j] == v_view(vals@[j]));
        }
        assert(outs_view(out@) =~= elems_view(vals@).map_values(|w: ValV| RV::Ok(w)));
    }
    out
}

/// Materialize one path part.
fn mat_part_exec(part: &Part, ctx: &Ctx, v: &Val, fuel: u64) -> (r: Option<
    Result<PartVals, Error>,
>)
    ensures
        match mat_part(*part, ctx_view(*ctx), v@, fuel as nat) {
            None => r is None,
            Some(Err(e)) => r matches Some(rr) && rr matches Err(re) && re@ == e,
            Some(Ok(pv)) => r matches Some(rr) && rr matches Ok(rp) && part_view(rp) == pv,
        },
    decreases fuel, partsize(*part), 0nat, 0nat,
{
    match part {
        Part::Index(g) => match g.run(ctx, v, fuel) {
            None => None,
            Some(ys) => match collect_exec(&ys, 0) {
                Err(e) => {
                    proof {
                        assert(outs_view(ys@).skip(0) =~= outs_view(ys@));
                    }
                    Some(Err(e))
                },
                Ok(vs) => {
                    proof {
                        assert(outs_view(ys@).skip(0) =~= outs_view(ys@));
                    }
                    Some(Ok(PartVals::Index(vs)))
                },
            },
        },
        Part::Range(a, b) => {
            let fa: Option<Vec<Val>> = match a {
                None => None,
                Some(g) => match g.run(ctx, v, fuel) {
                    None => {
                        return None;
                    },
                    Some(ys) => {
                        proof {
                            assert(outs_view(ys@).skip(0) =~= outs_view(ys@));
                        }
                        match collect_exec(&ys, 0) {
                            Err(e) => {
                                return Some(Err(e));
                            },
                            Ok(vs) => Some(vs),
                        }
                    },
                },
            };
            let fb: Option<Vec<Val>> = match b {
                None => None,
                Some(g) => match g.run(ctx, v, fuel) {
                    None => {
                        return None;
                    },
                    Some(ys) => {
                        proof {
                            assert(outs_view(ys@).skip(0) =~= outs_view(ys@));
                        }
                        match collect_exec(&ys, 0) {
                            Err(e) => {
                                return Some(Err(e));
                            },
                            Ok(vs) => Some(vs),
                        }
                    },
                },
            };
            Some(Ok(PartVals::Slice(fa, fb)))
        },
    }
}

/// Materialize every part of a path.
fn mat_parts_exec(pl: &PartList, ctx: &Ctx, v: &Val, fuel: u64) -> (r: Option<
    Result<Vec<(PartVals, Opt)>, Error>,
>)
    ensures
        match mat_parts(*pl, ctx_view(*ctx), v@, fuel as nat) {
            None => r is None,
            Some(Err(e)) => r matches Some(rr) && rr matches Err(re) && re@ == e,
            Some(Ok(ps)) => r matches Some(rr) && rr matches Ok(rp) && parts_view(rp@) == ps,
        },
    decreases fuel, ptsize(*pl), 0nat, 0nat,
{
    match pl {
        PartList::Nil => {
            proof {
                assert(parts_view(Seq::empty()) =~= Seq::<(PartV, Opt)>::empty());
            }
            Some(Ok(Vec::new()))
        },
        PartList::Cons(part, opt, rest) => match mat_part_exec(part, ctx, v, fuel) {
            None => None,
            Some(Err(e)) => Some(Err(e)),
            Some(Ok(pv)) => match mat_parts_exec(rest, ctx, v, fuel) {
                None => None,
                Some(Err(e)) => Some(Err(e)),
                Some(Ok(ps)) => {
                    let mut ps = ps;
                    let ghost psg = ps@;
                    let ghost pvv = part_view(pv);
                    ps.insert(0, (pv, *opt));
                    proof {
                        lemma_parts_view(ps@);
                        lemma_parts_view(psg);
                        assert forall|t: int| 0 <= t < ps@.len() implies parts_view(ps@)[t] == (
                        seq![(pvv, *opt)] + parts_view(psg))[t] by {
                            assert(parts_view(ps@)[t] == (part_view(ps@[t].0), ps@[t].1));
                            if t > 0 {
                                assert(ps@[t] == psg[t - 1]);
                                assert(parts_view(psg)[t - 1] == (part_view(psg[t - 1].0), psg[t
                                    - 1].1));
                            }
                        }
                        assert(parts_view(ps@) =~= seq![(pvv, *opt)] + parts_view(psg));
                    }
                    Some(Ok(ps))
                },
            },
        },
    }
}

/// Follow the parts of a path over a working set of values.
fn path_go_exec(pl: &PartList, ctx: &Ctx, v: &Val, vals: Vec<Val>, fuel: u64) -> (r: Option<
    Vec<ValR>,
>)
    ensures
        outs_opt(r) == path_go(*pl, ctx_view(*ctx), v@, elems_view(vals@), fuel as nat),
    decreases fuel, ptsize(*pl), 0nat, 0nat,
{
    match pl {
        PartList::Nil => Some(ok_wrap_exec(&vals)),
        PartList::Cons(part, opt, rest) => match mat_part_exec(part, ctx, v, fuel) {
            None => None,
            Some(Err(e)) => Some(singleton(Err(e))),
            Some(Ok(pv)) => {
                proof {
                    lemma_elems_view(vals@);
                    assert(elems_view(vals@).skip(0) =~= elems_view(vals@));
                }
                match part_apply_all_exec(&pv, *opt, &vals, 0) {
                    Err(e) => Some(singleton(Err(e))),
                    Ok(vals2) => path_go_exec(rest, ctx, v, vals2, fuel),
                }
            },
        },
    }
}

impl Filter {
    /// Evaluate this filter on a value under a context: the stream of
    /// outcomes the semantics prescribes, or `None` when the fuel bound
    /// is reached.  Only `recurse` consumes fuel.
    pub fn run(&self, ctx: &Ctx, v: &Val, fuel: u64) -> (r: Option<Vec<ValR>>)
        ensures
            outs_opt(r) == eval(*self, ctx_view(*ctx), v@, fuel as nat),
        decreases fuel, fsize(*self), 0nat, 0nat,
    {
        match self {
            Filter::Id => Some(singleton(Ok(v.clone()))),
            Filter::Int(i) => Some(singleton(Ok(Val::Int(*i)))),
            Filter::Str(s) => Some(singleton(Ok(Val::Str(s.clone())))),
            Filter::Array(inner) => match inner {
                None => {
                    let out = singleton(Ok(Val::Arr(Vec::new())));
                    proof {
                        assert(elems_view(Seq::<Val>::empty()) =~= Seq::<ValV>::empty());
                    }
                    Some(out)
                },
                Some(g) => match g.run(ctx, v, fuel) {
                    None => None,
                    Some(ys) => {
                        proof {
                            assert(outs_view(ys@).skip(0) =~= outs_view(ys@));
                        }
                        match collect_exec(&ys, 0) {
                            Ok(vs) => Some(singleton(Ok(Val::Arr(vs)))),
                            Err(e) => Some(singleton(Err(e))),
                        }
                    },
                },
            },
            Filter::Object(o) => match eval_obj_exec(o, ctx, v, fuel) {
                None => None,
                Some(objs) => {
                    let mut out: Vec<ValR> = Vec::new();
                    let mut i: usize = 0;
                    while i < objs.len()
                        invariant
                            0 <= i <= objs@.len(),
                            out@.len() == i,
                            forall|j: int| 0 <= j < i ==> vr_view(#[trigger] out@[j]) == objs_map(
                                objrs_view(objs@),
                            )[j],
                        decreases objs@.len() - i,
                    {
                        match &objs[i] {
                            Ok(es) => {
                                let es2 = clone_entries(es);
                                out.push(Ok(Val::Obj(es2)));
                            },
                            Err(e) => out.push(Err(e.clone())),
                        }
                        proof {
                            assert(objrs_view(objs@)[i as int] == (match objs@[i as int] {
                                Ok(es) => Result::<EntriesV, ErrorV>::Ok(entries_view(es@)),
                                Err(e) => Result::<EntriesV, ErrorV>::Err(e@),
                            }));
                        }
                        i = i + 1;
                    }
                    proof {
                        assert forall|j: int| 0 <= j < out@.len() implies outs_view(out@)[j]
                            == objs_map(objrs_view(objs@))[j] by {
                            assert(outs_view(out@)[j] == vr_view(out@[j]));
                        }
                        assert(outs_view(out@) =~= objs_map(objrs_view(objs@)));
                    }
                    Some(out)
                },
            },
            Filter::Try(g) => match g.run(ctx, v, fuel) {
                None => None,
                Some(ys) => {
                    proof {
                        assert(outs_view(ys@).skip(0) =~= outs_view(ys@));
                    }
                    Some(keep_ok_exec(&ys, 0))
                },
            },
            Filter::Catch(g, h) => match g.run(ctx, v, fuel) {
                None => None,
                Some(ys) => {
                    proof {
                        assert(outs_view(ys@).skip(0) =~= outs_view(ys@));
                    }
                    catch_go_exec(h, ctx, &ys, 0, fuel)
                },
            },
            Filter::Neg(g) => match g.run(ctx, v, fuel) {
                None => None,
                Some(ys) => {
                    let mut out: Vec<ValR> = Vec::new();
                    let mut i: usize = 0;
                    while i < ys.len()
                        invariant
                            0 <= i <= ys@.len(),
                            out@.len() == i,
                            forall|j: int| 0 <= j < i ==> vr_view(#[trigger] out@[j]) == (match
                                outs_view(ys@)[j] {
                                Err(e) => RV::Err(e),
                                Ok(a) => crate::ops::neg_spec(a),
                            }),
                        decreases ys@.len() - i,
                    {
                        match &ys[i] {
                            Err(e) => out.push(Err(e.clone())),
                            Ok(a) => out.push(crate::ops::neg_val(a.clone())),
                        }
                        i = i + 1;
                    }
                    proof {
                        assert forall|j: int| 0 <= j < out@.len() implies outs_view(out@)[j]
                            == outs_view(ys@).map_values(
                            |y: RV|
                                match y {
                                    Err(e) => RV::Err(e),
                                    Ok(a) => crate::ops::neg_spec(a),
                                },
                        )[j] by {
                            assert(outs_view(out@)[j] == vr_view(out@[j]));
                        }
                        assert(outs_view(out@) =~= outs_view(ys@).map_values(
                            |y: RV|
                                match y {
                                    Err(e) => RV::Err(e),
                                    Ok(a) => crate::ops::neg_spec(a),
                                },
                        ));
                    }
                    Some(out)
                },
            },
            Filter::Pipe(l, bind, r) => match l.run(ctx, v, fuel) {
                None => None,
                Some(ys) => {
                    proof {
                        assert(outs_view(ys@).skip(0) =~= outs_view(ys@));
                    }
                    if *bind {
                        bind_go_exec(r, ctx, v, &ys, 0, fuel)
                    } else {
                        pipe_go_exec(r, ctx, &ys, 0, fuel)
                    }
                },
            },
            Filter::Comma(l, r) => match l.run(ctx, v, fuel) {
                None => None,
                Some(ls) => match r.run(ctx, v, fuel) {
                    None => None,
                    Some(rs) => {
                        let mut ls = ls;
                        let mut rs = rs;
                        let ghost lsg = ls@;
                        let ghost rsg = rs@;
                        ls.append(&mut rs);
                        proof {
                            lemma_outs_concat(lsg, rsg);
                        }
                        Some(ls)
                    },
                },
            },
            Filter::Alt(l, r) => match l.run(ctx, v, fuel) {
                None => None,
                Some(ys) => {
                    proof {
                        assert(outs_view(ys@).skip(0) =~= outs_view(ys@));
                    }
                    let kept = alt_keep_exec(&ys, 0);
                    if kept.len() > 0 {
                        Some(kept)
                    } else {
                        r.run(ctx, v, fuel)
                    }
                },
            },
            Filter::IfThenElse(cs, e) => eval_ite_exec(cs, e, ctx, v, fuel),
            Filter::Reduce(xs, init, g) => match xs.run(ctx, v, fuel) {
                None => None,
                Some(ys) => match init.run(ctx, v, fuel) {
                    None => None,
                    Some(inits) => {
                        proof {
                            assert(outs_view(inits@).skip(0) =~= outs_view(inits@));
                            assert(outs_view(ys@).skip(0) =~= outs_view(ys@));
                        }
                        match collect_exec(&inits, 0) {
                            Err(e) => Some(singleton(Err(e))),
                            Ok(acc) => match reduce_go_exec(g, ctx, &ys, 0, acc, fuel) {
                                None => None,
                                Some(Err(e)) => Some(singleton(Err(e))),
                                Some(Ok(vs)) => Some(ok_wrap_exec(&vs)),
                            },
                        }
                    },
                },
            },
            Filter::Path(l, pl) => match l.run(ctx, v, fuel) {
                None => None,
                Some(ys) => {
                    proof {
                        assert(outs_view(ys@).skip(0) =~= outs_view(ys@));
                    }
                    match collect_exec(&ys, 0) {
                        Err(e) => Some(singleton(Err(e))),
                        Ok(vals) => path_go_exec(pl, ctx, v, vals, fuel),
                    }
                },
            },
            Filter::Assign(pf, g) => match g.run(ctx, v, fuel) {
                None => None,
                Some(ys) => {
                    proof {
                        assert(outs_view(ys@).skip(0) =~= outs_view(ys@));
                    }
                    assign_go_exec(pf, ctx, v, &ys, 0, fuel)
                },
            },
            Filter::Update(pf, g) => {
                let rp = Repl::Run((**g).clone(), ctx.clone());
                upd_exec(pf, ctx, v, &rp, fuel)
            },
            Filter::Logic(l, stop, r) => match l.run(ctx, v, fuel) {
                None => None,
                Some(ys) => {
                    proof {
                        assert(outs_view(ys@).skip(0) =~= outs_view(ys@));
                    }
                    logic_go_exec(r, *stop, ctx, v, &ys, 0, fuel)
                },
            },
            Filter::Math(l, op, r) => match l.run(ctx, v, fuel) {
                None => None,
                Some(ls) => match r.run(ctx, v, fuel) {
                    None => None,
                    Some(rs) => {
                        proof {
                            assert(outs_view(ls@).skip(0) =~= outs_view(ls@));
                        }
                        Some(cm_l_exec(*op, &ls, 0, &rs))
                    },
                },
            },
            Filter::Ord(l, op, r) => match l.run(ctx, v, fuel) {
                None => None,
                Some(ls) => match r.run(ctx, v, fuel) {
                    None => None,
                    Some(rs) => {
                        proof {
                            assert(outs_view(ls@).skip(0) =~= outs_view(ls@));
                        }
                        Some(co_l_exec(*op, &ls, 0, &rs))
                    },
                },
            },
            Filter::Empty => {
                proof {
                    assert(outs_view(Seq::<ValR>::empty()) =~= Seq::<RV>::empty());
                }
                Some(Vec::new())
            },
            Filter::Error => Some(singleton(Err(Error::Val(v.clone())))),
            Filter::Length => Some(singleton(v.length())),
            Filter::Keys => Some(singleton(v.keys())),
            Filter::Floor => Some(singleton(v.round_int())),
            Filter::Round => Some(singleton(v.round_int())),
            Filter::Ceil => Some(singleton(v.round_int())),
            Filter::FromJson => Some(singleton(v.from_json())),
            Filter::ToJson => Some(singleton(Ok(Val::Str(v.to_json())))),
            Filter::Explode => Some(singleton(v.explode())),
            Filter::Implode => Some(singleton(v.implode())),
            Filter::AsciiDowncase => Some(singleton(v.ascii_downcase())),
            Filter::AsciiUpcase => Some(singleton(v.ascii_upcase())),
            Filter::Reverse => Some(singleton(v.reverse())),
            Filter::Sort => match v {
                Val::Arr(a) => {
                    let sorted = crate::sorting::sort_vals_exec(a);
                    Some(singleton(Ok(Val::Arr(sorted))))
                },
                _ => Some(singleton(Err(Error::Typ(v.clone(), "array".to_owned())))),
            },
            Filter::SortBy(g) => match v {
                Val::Arr(a) => {
                    proof {
                        lemma_elems_view(a@);
                        assert(elems_view(a@).skip(0) =~= elems_view(a@));
                    }
                    match sortby_go_exec(g, ctx, a, 0, fuel) {
                        None => None,
                        Some(Err(e)) => Some(singleton(Err(e))),
                        Some(Ok(pairs)) => {
                            let sorted = sort_pairs_exec(pairs);
                            proof {
                                lemma_pairs_view(sorted@);
                            }
                            let mut out: Vec<Val> = Vec::new();
                            let mut i: usize = 0;
                            while i < sorted.len()
                                invariant
                                    0 <= i <= sorted@.len(),
                                    out@.len() == i,
                                    forall|j: int| 0 <= j < i ==> (#[trigger] out@[j])@
                                        == pairs_view(sorted@)[j].1,
                                decreases sorted@.len() - i,
                            {
                                proof {
                                    lemma_pairs_view(sorted@);
                                    assert(pairs_view(sorted@)[i as int] == (elems_view(
                                        sorted@[i as int].0@,
                                    ), v_view(sorted@[i as int].1)));
                                }
                                let e = sorted[i].1.clone();
                                out.push(e);
                                i = i + 1;
                            }
                            proof {
                                lemma_elems_view(out@);
                                lemma_pairs_view(sorted@);
                                assert forall|j: int| 0 <= j < out@.len() implies elems_view(
                                    out@,
                                )[j] == pairs_payload(pairs_view(sorted@))[j] by {
                                    assert(elems_view(out@)[j] == v_view(out@[j]));
                                }
                                assert(elems_view(out@) =~= pairs_payload(pairs_view(sorted@)));
                            }
                            Some(singleton(Ok(Val::Arr(out))))
                        },
                    }
                },
                _ => Some(singleton(Err(Error::Typ(v.clone(), "array".to_owned())))),
            },
            Filter::Has(g) => match g.run(ctx, v, fuel) {
                None => None,
                Some(ys) => {
                    let mut out: Vec<ValR> = Vec::new();
                    let mut i: usize = 0;
                    while i < ys.len()
                        invariant
                            0 <= i <= ys@.len(),
                            out@.len() == i,
                            forall|j: int| 0 <= j < i ==> vr_view(#[trigger] out@[j]) == (match
                                outs_view(ys@)[j] {
                                Err(e) => RV::Err(e),
                                Ok(k) => crate::search::has_spec(v@, k),
                            }),
                        decreases ys@.len() - i,
                    {
                        match &ys[i] {
                            Err(e) => out.push(Err(e.clone())),
                            Ok(k) => out.push(v.has_key(k)),
                        }
                        i = i + 1;
                    }
                    proof {
                        assert forall|j: int| 0 <= j < out@.len() implies outs_view(out@)[j]
                            == outs_view(ys@).map_values(
                            |y: RV|
                                match y {
                                    Err(e) => RV::Err(e),
                                    Ok(k) => crate::search::has_spec(v@, k),
                                },
                        )[j] by {
                            assert(outs_view(out@)[j] == vr_view(out@[j]));
                        }
                        assert(outs_view(out@) =~= outs_view(ys@).map_values(
                            |y: RV|
                                match y {
                                    Err(e) => RV::Err(e),
                                    Ok(k) => crate::search::has_spec(v@, k),
                                },
                        ));
                    }
                    Some(out)
                },
            },
            Filter::Split(g) => match g.run(ctx, v, fuel) {
                None => None,
                Some(ys) => {
                    let mut out: Vec<ValR> = Vec::new();
                    let mut i: usize = 0;
                    while i < ys.len()
                        invariant
                            0 <= i <= ys@.len(),
                            out@.len() == i,
                            forall|j: int| 0 <= j < i ==> vr_view(#[trigger] out@[j]) == (match
                                outs_view(ys@)[j] {
                                Err(e) => RV::Err(e),
                                Ok(sep) => crate::search::split_spec(v@, sep),
                            }),
                        decreases ys@.len() - i,
                    {
                        match &ys[i] {
                            Err(e) => out.push(Err(e.clone())),
                            Ok(sep) => out.push(v.split_with(sep)),
                        }
                        i = i + 1;
                    }
                    proof {
                        assert forall|j: int| 0 <= j < out@.len() implies outs_view(out@)[j]
                            == outs_view(ys@).map_values(
                            |y: RV|
                                match y {
                                    Err(e) => RV::Err(e),
                                    Ok(sep) => crate::search::split_spec(v@, sep),
                                },
                        )[j] by {
                            assert(outs_view(out@)[j] == vr_view(out@[j]));
                        }
                        assert(outs_view(out@) =~= outs_view(ys@).map_values(
                            |y: RV|
                                match y {
                                    Err(e) => RV::Err(e),
                                    Ok(sep) => crate::search::split_spec(v@, sep),
                                },
                        ));
                    }
                    Some(out)
                },
            },
            Filter::Contains(g) => match g.run(ctx, v, fuel) {
                None => None,
                Some(ys) => {
                    let mut out: Vec<ValR> = Vec::new();
                    let mut i: usize = 0;
                    while i < ys.len()
                        invariant
                            0 <= i <= ys@.len(),
                            out@.len() == i,
                            forall|j: int| 0 <= j < i ==> vr_view(#[trigger] out@[j]) == (match
                                outs_view(ys@)[j] {
                                Err(e) => RV::Err(e),
                                Ok(w) => RV::Ok(ValV::Bool(crate::search::contains_spec(v@, w))),
                            }),
                        decreases ys@.len() - i,
                    {
                        match &ys[i] {
                            Err(e) => out.push(Err(e.clone())),
                            Ok(w) => out.push(Ok(Val::Bool(v.contains_val(w)))),
                        }
                        i = i + 1;
                    }
                    proof {
                        assert forall|j: int| 0 <= j < out@.len() implies outs_view(out@)[j]
                            == outs_view(ys@).map_values(
                            |y: RV|
                                match y {
                                    Err(e) => RV::Err(e),
                                    Ok(w) => RV::Ok(
                                        ValV::Bool(crate::search::contains_spec(v@, w)),
                                    ),
                                },
                        )[j] by {
                            assert(outs_view(out@)[j] == vr_view(out@[j]));
                        }
                        assert(outs_view(out@) =~= outs_view(ys@).map_values(
                            |y: RV|
                                match y {
                                    Err(e) => RV::Err(e),
                                    Ok(w) => RV::Ok(
                                        ValV::Bool(crate::search::contains_spec(v@, w)),
                                    ),
                                },
                        ));
                    }
                    Some(out)
                },
            },
            Filter::First(g) => match g.run(ctx, v, fuel) {
                None => None,
                Some(ys) => Some(take_exec(ys, 1)),
            },
            Filter::Last(g) => match g.run(ctx, v, fuel) {
                None => None,
                Some(ys) => {
                    proof {
                        assert(outs_view(ys@).skip(0) =~= outs_view(ys@));
                    }
                    Some(last_exec(&ys, 0))
                },
            },
            Filter::Limit(n, g) => match n.run(ctx, v, fuel) {
                None => None,
                Some(ns) => {
                    proof {
                        assert(outs_view(ns@).skip(0) =~= outs_view(ns@));
                    }
                    limit_go_exec(g, ctx, v, &ns, 0, fuel)
                },
            },
            Filter::Range(l, u) => match l.run(ctx, v, fuel) {
                None => None,
                Some(ls) => match u.run(ctx, v, fuel) {
                    None => None,
                    Some(us) => {
                        proof {
                            assert(outs_view(ls@).skip(0) =~= outs_view(ls@));
                        }
                        Some(rg_l_exec(&ls, 0, &us))
                    },
                },
            },
            Filter::Recurse(g) => {
                if fuel == 0 {
                    None
                } else {
                    match g.run(ctx, v, fuel) {
                        None => None,
                        Some(ys) => {
                            proof {
                                assert(outs_view(ys@).skip(0) =~= outs_view(ys@));
                            }
                            match rec_go_exec(self, ctx, &ys, 0, fuel - 1) {
                                None => None,
                                Some(rest) => {
                                    let mut out = singleton(Ok(v.clone()));
                                    let mut rest = rest;
                                    let ghost outg = out@;
                                    let ghost restg = rest@;
                                    out.append(&mut rest);
                                    proof {
                                        lemma_outs_concat(outg, restg);
                                    }
                                    Some(out)
                                },
                            }
                        },
                    }
                }
            },
            Filter::SkipCtx(n, g) => {
                let c2 = ctx.skip(*n);
                proof {
                    crate::val::lemma_elems_view_skip(ctx.elems(), *n as nat);
                }
                g.run(c2, v, fuel)
            },
            Filter::Var(n) => {
                proof {
                    lemma_elems_view(ctx.elems());
                }
                match ctx.get(*n) {
                    Some(x) => Some(singleton(Ok(x.clone()))),
                    None => Some(
                        singleton(Err(Error::Str("unbound variable".to_owned()))),
                    ),
                }
            },
            Filter::Arg(_) => Some(
                singleton(Err(Error::Str("unsubstituted argument".to_owned()))),
            ),
        }
    }
}

/// Compose: run `r` on every successful output.
fn pipe_go_exec(r: &Filter, ctx: &Ctx, ys: &Vec<ValR>, i: usize, fuel: u64) -> (res: Option<
    Vec<ValR>,
>)
    requires
        i <= ys@.len(),
    ensures
        outs_opt(res) == pipe_go(*r, ctx_view(*ctx), outs_view(ys@).skip(i as int), fuel as nat),
    decreases fuel, fsize(*r), ys@.len() - i, 0nat,
{
    if i == ys.len() {
        proof {
            assert(outs_view(ys@).skip(i as int).len() == 0);
            assert(outs_view(Seq::<ValR>::empty()) =~= Seq::<RV>::empty());
        }
        Some(Vec::new())
    } else {
        proof {
            lemma_outs_suffix(ys@, i as int);
        }
        let head: Option<Vec<ValR>> = match &ys[i] {
            Err(e) => Some(singleton(Err(e.clone()))),
            Ok(y) => r.run(ctx, y, fuel),
        };
        match head {
            None => None,
            Some(hs) => match pipe_go_exec(r, ctx, ys, i + 1, fuel) {
                None => None,
                Some(rest) => {
                    let mut hs = hs;
                    let mut rest = rest;
                    let ghost hsg = hs@;
                    let ghost restg = rest@;
                    hs.append(&mut rest);
                    proof {
                        lemma_outs_concat(hsg, restg);
                    }
                    Some(hs)
                },
            },
        }
    }
}

/// Compose with binding.
fn bind_go_exec(r: &Filter, ctx: &Ctx, v: &Val, ys: &Vec<ValR>, i: usize, fuel: u64) -> (res:
    Option<Vec<ValR>>)
    requires
        i <= ys@.len(),
    ensures
        outs_opt(res) == bind_go(
            *r,
            ctx_view(*ctx),
            v@,
            outs_view(ys@).skip(i as int),
            fuel as nat,
        ),
    decreases fuel, fsize(*r), ys@.len() - i, 0nat,
{
    if i == ys.len() {
        proof {
            assert(outs_view(ys@).skip(i as int).len() == 0);
            assert(outs_view(Seq::<ValR>::empty()) =~= Seq::<RV>::empty());
        }
        Some(Vec::new())
    } else {
        proof {
            lemma_outs_suffix(ys@, i as int);
        }
        let head: Option<Vec<ValR>> = match &ys[i] {
            Err(e) => Some(singleton(Err(e.clone()))),
            Ok(y) => {
                let yc = y.clone();
                let ghost ycv = yc;
                let c2 = ctx.clone().cons(yc);
                proof {
                    crate::val::lemma_elems_view_concat(seq![ycv], ctx.elems());
                    lemma_elems_view(seq![ycv]);
                    assert(elems_view(seq![ycv]) =~= seq![v_view(ycv)]);
                    assert(ctx_view(c2) =~= seq![y@] + ctx_view(*ctx));
                }
                r.run(&c2, v, fuel)
            },
        };
        match head {
            None => None,
            Some(hs) => match bind_go_exec(r, ctx, v, ys, i + 1, fuel) {
                None => None,
                Some(rest) => {
                    let mut hs = hs;
                    let mut rest = rest;
                    let ghost hsg = hs@;
                    let ghost restg = rest@;
                    hs.append(&mut rest);
                    proof {
                        lemma_outs_concat(hsg, restg);
                    }
                    Some(hs)
                },
            },
        }
    }
}

/// Run the handler on every error's value.
fn catch_go_exec(h: &Filter, ctx: &Ctx, ys: &Vec<ValR>, i: usize, fuel: u64) -> (res: Option<
    Vec<ValR>,
>)
    requires
        i <= ys@.len(),
    ensures
        outs_opt(res) == catch_go(*h, ctx_view(*ctx), outs_view(ys@).skip(i as int), fuel as nat),
    decreases fuel, fsize(*h), ys@.len() - i, 0nat,
{
    if i == ys.len() {
        proof {
            assert(outs_view(ys@).skip(i as int).len() == 0);
            assert(outs_view(Seq::<ValR>::empty()) =~= Seq::<RV>::empty());
        }
        Some(Vec::new())
    } else {
        proof {
            lemma_outs_suffix(ys@, i as int);
        }
        let head: Option<Vec<ValR>> = match &ys[i] {
            Ok(y) => Some(singleton(Ok(y.clone()))),
            Err(e) => {
                let ev = e.into_value();
                h.run(ctx, &ev, fuel)
            },
        };
        match head {
            None => None,
            Some(hs) => match catch_go_exec(h, ctx, ys, i + 1, fuel) {
                None => None,
                Some(rest) => {
                    let mut hs = hs;
                    let mut rest = rest;
                    let ghost hsg = hs@;
                    let ghost restg = rest@;
                    hs.append(&mut rest);
                    proof {
                        lemma_outs_concat(hsg, restg);
                    }
                    Some(hs)
                },
            },
        }
    }
}

/// Short-circuit logic over the left outputs.
fn logic_go_exec(
    r: &Filter,
    stop: bool,
    ctx: &Ctx,
    v: &Val,
    ys: &Vec<ValR>,
    i: usize,
    fuel: u64,
) -> (res: Option<Vec<ValR>>)
    requires
        i <= ys@.len(),
    ensures
        outs_opt(res) == logic_go(
            *r,
            stop,
            ctx_view(*ctx),
            v@,
            outs_view(ys@).skip(i as int),
            fuel as nat,
        ),
    decreases fuel, fsize(*r), ys@.len() - i, 0nat,
{
    if i == ys.len() {
        proof {
            assert(outs_view(ys@).skip(i as int).len() == 0);
            assert(outs_view(Seq::<ValR>::empty()) =~= Seq::<RV>::empty());
        }
        Some(Vec::new())
    } else {
        proof {
            lemma_outs_suffix(ys@, i as int);
        }
        let head: Option<Vec<ValR>> = match &ys[i] {
            Err(e) => Some(singleton(Err(e.clone()))),
            Ok(a) => {
                if a.as_bool() == stop {
                    Some(singleton(Ok(Val::Bool(stop))))
                } else {
                    match r.run(ctx, v, fuel) {
                        None => None,
                        Some(zs) => Some(bool_map_exec(&zs)),
                    }
                }
            },
        };
        match head {
            None => None,
            Some(hs) => match logic_go_exec(r, stop, ctx, v, ys, i + 1, fuel) {
                None => None,
                Some(rest) => {
                    let mut hs = hs;
                    let mut rest = rest;
                    let ghost hsg = hs@;
                    let ghost restg = rest@;
                    hs.append(&mut rest);
                    proof {
                        lemma_outs_concat(hsg, restg);
                    }
                    Some(hs)
                },
            },
        }
    }
}

/// At most `n` outputs of `g`, for each produced `n`.
fn limit_go_exec(g: &Filter, ctx: &Ctx, v: &Val, ns: &Vec<ValR>, i: usize, fuel: u64) -> (res:
    Option<Vec<ValR>>)
    requires
        i <= ns@.len(),
    ensures
        outs_opt(res) == limit_go(
            *g,
            ctx_view(*ctx),
            v@,
            outs_view(ns@).skip(i as int),
            fuel as nat,
        ),
    decreases fuel, fsize(*g), ns@.len() - i, 0nat,
{
    if i == ns.len() {
        proof {
            assert(outs_view(ns@).skip(i as int).len() == 0);
            assert(outs_view(Seq::<ValR>::empty()) =~= Seq::<RV>::empty());
        }
        Some(Vec::new())
    } else {
        proof {
            lemma_outs_suffix(ns@, i as int);
        }
        let head: Option<Vec<ValR>> = match &ns[i] {
            Err(e) => Some(singleton(Err(e.clone()))),
            Ok(nv) => match nv {
                Val::Int(k) => {
                    if *k <= 0 {
                        proof {
                            assert(outs_view(Seq::<ValR>::empty()) =~= Seq::<RV>::empty());
                        }
                        Some(Vec::new())
                    } else {
                        match g.run(ctx, v, fuel) {
                            None => None,
                            Some(zs) => Some(take_exec(zs, *k)),
                        }
                    }
                },
                other => Some(
                    singleton(Err(Error::Typ(other.clone(), "number".to_owned()))),
                ),
            },
        };
        match head {
            None => None,
            Some(hs) => match limit_go_exec(g, ctx, v, ns, i + 1, fuel) {
                None => None,
                Some(rest) => {
                    let mut hs = hs;
                    let mut rest = rest;
                    let ghost hsg = hs@;
                    let ghost restg = rest@;
                    hs.append(&mut rest);
                    proof {
                        lemma_outs_concat(hsg, restg);
                    }
                    Some(hs)
                },
            },
        }
    }
}

/// Expand every successful child in preorder.
fn rec_go_exec(f: &Filter, ctx: &Ctx, ys: &Vec<ValR>, i: usize, fuel: u64) -> (res: Option<
    Vec<ValR>,
>)
    requires
        i <= ys@.len(),
    ensures
        outs_opt(res) == rec_go(*f, ctx_view(*ctx), outs_view(ys@).skip(i as int), fuel as nat),
    decreases fuel, fsize(*f), ys@.len() - i, 0nat,
{
    if i == ys.len() {
        proof {
            assert(outs_view(ys@).skip(i as int).len() == 0);
            assert(outs_view(Seq::<ValR>::empty()) =~= Seq::<RV>::empty());
        }
        Some(Vec::new())
    } else {
        proof {
            lemma_outs_suffix(ys@, i as int);
        }
        let head: Option<Vec<ValR>> = match &ys[i] {
            Err(e) => Some(singleton(Err(e.clone()))),
            Ok(c) => f.run(ctx, c, fuel),
        };
        match head {
            None => None,
            Some(hs) => match rec_go_exec(f, ctx, ys, i + 1, fuel) {
                None => None,
                Some(rest) => {
                    let mut hs = hs;
                    let mut rest = rest;
                    let ghost hsg = hs@;
                    let ghost restg = rest@;
                    hs.append(&mut rest);
                    proof {
                        lemma_outs_concat(hsg, restg);
                    }
                    Some(hs)
                },
            },
        }
    }
}

/// The `if`-cascade.
fn eval_ite_exec(cs: &PairList, e: &Filter, ctx: &Ctx, v: &Val, fuel: u64) -> (res: Option<
    Vec<ValR>,
>)
    ensures
        outs_opt(res) == eval_ite(*cs, *e, ctx_view(*ctx), v@, fuel as nat),
    decreases fuel, plsize(*cs) + fsize(*e) + 1, 0nat, 0nat,
{
    match cs {
        PairList::Nil => e.run(ctx, v, fuel),
        PairList::Cons(c, t, rest) => match c.run(ctx, v, fuel) {
            None => None,
            Some(ys) => {
                proof {
                    assert(outs_view(ys@).skip(0) =~= outs_view(ys@));
                }
                if_go_exec(&ys, 0, t, rest, e, ctx, v, fuel)
            },
        },
    }
}

/// Dispatch on one condition's outputs.
fn if_go_exec(
    ys: &Vec<ValR>,
    i: usize,
    t: &Filter,
    rest: &PairList,
    e: &Filter,
    ctx: &Ctx,
    v: &Val,
    fuel: u64,
) -> (res: Option<Vec<ValR>>)
    requires
        i <= ys@.len(),
    ensures
        outs_opt(res) == if_go(
            outs_view(ys@).skip(i as int),
            *t,
            *rest,
            *e,
            ctx_view(*ctx),
            v@,
            fuel as nat,
        ),
    decreases fuel, fsize(*t) + plsize(*rest) + fsize(*e) + 1, ys@.len() - i, 0nat,
{
    if i == ys.len() {
        proof {
            assert(outs_view(ys@).skip(i as int).len() == 0);
            assert(outs_view(Seq::<ValR>::empty()) =~= Seq::<RV>::empty());
        }
        Some(Vec::new())
    } else {
        proof {
            lemma_outs_suffix(ys@, i as int);
        }
        let head: Option<Vec<ValR>> = match &ys[i] {
            Err(e2) => Some(singleton(Err(e2.clone()))),
            Ok(y) => {
                if y.as_bool() {
                    t.run(ctx, v, fuel)
                } else {
                    eval_ite_exec(rest, e, ctx, v, fuel)
                }
            },
        };
        match head {
            None => None,
            Some(hs) => match if_go_exec(ys, i + 1, t, rest, e, ctx, v, fuel) {
                None => None,
                Some(more) => {
                    let mut hs = hs;
                    let mut more = more;
                    let ghost hsg = hs@;
                    let ghost moreg = more@;
                    hs.append(&mut more);
                    proof {
                        lemma_outs_concat(hsg, moreg);
                    }
                    Some(hs)
                },
            },
        }
    }
}

/// Build the combined entry lists of an object construction.
fn eval_obj_exec(o: &PairList, ctx: &Ctx, v: &Val, fuel: u64) -> (res: Option<
    Vec<Result<Vec<(String, Val)>, Error>>,
>)
    ensures
        match eval_obj(*o, ctx_view(*ctx), v@, fuel as nat) {
            None => res is None,
            Some(objs) => res matches Some(rv) && objrs_view(rv@) == objs,
        },
    decreases fuel, plsize(*o) + 1, 0nat, 0nat,
{
    match o {
        PairList::Nil => {
            let mut out: Vec<Result<Vec<(String, Val)>, Error>> = Vec::new();
            out.push(Ok(Vec::new()));
            proof {
                assert(entries_view(Seq::<(String, Val)>::empty()) =~= Seq::<
                    (Seq<char>, ValV),
                >::empty());
                assert(objrs_view(out@) =~= seq![
                    Result::<EntriesV, ErrorV>::Ok(Seq::empty()),
                ]);
            }
            Some(out)
        },
        PairList::Cons(kf, vf, rest) => match kf.run(ctx, v, fuel) {
            None => None,
            Some(kys) => match vf.run(ctx, v, fuel) {
                None => None,
                Some(vys) => match eval_obj_exec(rest, ctx, v, fuel) {
                    None => None,
                    Some(rs) => {
                        proof {
                            assert(outs_view(kys@).skip(0) =~= outs_view(kys@));
                        }
                        Some(oc_k_exec(&kys, 0, &vys, &rs))
                    },
                },
            },
        },
    }
}

/// Fold the stream through the step filter.
fn reduce_go_exec(
    g: &Filter,
    ctx: &Ctx,
    ys: &Vec<ValR>,
    i: usize,
    acc: Vec<Val>,
    fuel: u64,
) -> (res: Option<Result<Vec<Val>, Error>>)
    requires
        i <= ys@.len(),
    ensures
        match reduce_go(
            *g,
            ctx_view(*ctx),
            outs_view(ys@).skip(i as int),
            elems_view(acc@),
            fuel as nat,
        ) {
            None => res is None,
            Some(Err(e)) => res matches Some(rr) && rr matches Err(re) && re@ == e,
            Some(Ok(vs)) => res matches Some(rr) && rr matches Ok(rv) && elems_view(rv@) == vs,
        },
    decreases fuel, fsize(*g) + 1, ys@.len() - i, 0nat,
{
    if i == ys.len() {
        proof {
            assert(outs_view(ys@).skip(i as int).len() == 0);
        }
        Some(Ok(acc))
    } else {
        proof {
            lemma_outs_suffix(ys@, i as int);
        }
        match &ys[i] {
            Err(e) => Some(Err(e.clone())),
            Ok(x) => {
                let xc = x.clone();
                let ghost xcv = xc;
                let c2 = ctx.clone().cons(xc);
                proof {
                    crate::val::lemma_elems_view_concat(seq![xcv], ctx.elems());
                    lemma_elems_view(seq![xcv]);
                    assert(elems_view(seq![xcv]) =~= seq![v_view(xcv)]);
                    assert(ctx_view(c2) =~= seq![x@] + ctx_view(*ctx));
                    lemma_elems_view(acc@);
                    assert(elems_view(acc@).skip(0) =~= elems_view(acc@));
                }
                match reduce_step_exec(g, &c2, &acc, 0, fuel) {
                    None => None,
                    Some(Err(e)) => Some(Err(e)),
                    Some(Ok(acc2)) => reduce_go_exec(g, ctx, ys, i + 1, acc2, fuel),
                }
            },
        }
    }
}

/// One fold step.
fn reduce_step_exec(g: &Filter, bctx: &Ctx, acc: &Vec<Val>, j: usize, fuel: u64) -> (res: Option<
    Result<Vec<Val>, Error>,
>)
    requires
        j <= acc@.len(),
    ensures
        match reduce_step(
            *g,
            ctx_view(*bctx),
            elems_view(acc@).skip(j as int),
            fuel as nat,
        ) {
            None => res is None,
            Some(Err(e)) => res matches Some(rr) && rr matches Err(re) && re@ == e,
            Some(Ok(vs)) => res matches Some(rr) && rr matches Ok(rv) && elems_view(rv@) == vs,
        },
    decreases fuel, fsize(*g), acc@.len() - j, 0nat,
{
    proof {
        lemma_elems_view(acc@);
    }
    if j == acc.len() {
        proof {
            assert(elems_view(acc@).skip(j as int).len() == 0);
            assert(elems_view(Seq::<Val>::empty()) =~= Seq::<ValV>::empty());
        }
        Some(Ok(Vec::new()))
    } else {
        proof {
            assert(elems_view(acc@).skip(j as int)[0] == elems_view(acc@)[j as int]);
            assert(elems_view(acc@)[j as int] == v_view(acc@[j as int]));
            assert(elems_view(acc@).skip(j as int).drop_first() =~= elems_view(acc@).skip(j + 1));
        }
        match g.run(bctx, &acc[j], fuel) {
            None => None,
            Some(zs) => {
                proof {
                    assert(outs_view(zs@).skip(0) =~= outs_view(zs@));
                }
                match collect_exec(&zs, 0) {
                    Err(e) => Some(Err(e)),
                    Ok(ws) => match reduce_step_exec(g, bctx, acc, j + 1, fuel) {
                        None => None,
                        Some(Err(e)) => Some(Err(e)),
                        Some(Ok(rest)) => {
                            let mut ws = ws;
                            let mut rest = rest;
                            let ghost wsg = ws@;
                            let ghost restg = rest@;
                            ws.append(&mut rest);
                            proof {
                                crate::val::lemma_elems_view_concat(wsg, restg);
                            }
                            Some(Ok(ws))
                        },
                    },
                }
            },
        }
    }
}

/// Evaluate the outputs of a key filter on every element.
fn sortby_go_exec(g: &Filter, ctx: &Ctx, elems: &Vec<Val>, j: usize, fuel: u64) -> (res: Option<
    Result<Vec<(Vec<Val>, Val)>, Error>,
>)
    requires
        j <= elems@.len(),
    ensures
        match sortby_go(*g, ctx_view(*ctx), elems_view(elems@).skip(j as int), fuel as nat) {
            None => res is None,
            Some(Err(e)) => res matches Some(rr) && rr matches Err(re) && re@ == e,
            Some(Ok(ps)) => res matches Some(rr) && rr matches Ok(rp) && pairs_view(rp@) == ps,
        },
    decreases fuel, fsize(*g) + 1, elems@.len() - j, 0nat,
{
    proof {
        lemma_elems_view(elems@);
    }
    if j == elems.len() {
        proof {
            assert(elems_view(elems@).skip(j as int).len() == 0);
            assert(pairs_view(Seq::empty()) =~= Seq::<crate::sorting::PairV>::empty());
        }
        Some(Ok(Vec::new()))
    } else {
        proof {
            assert(elems_view(elems@).skip(j as int)[0] == elems_view(elems@)[j as int]);
            assert(elems_view(elems@)[j as int] == v_view(elems@[j as int]));
            assert(elems_view(elems@).skip(j as int).drop_first() =~= elems_view(elems@).skip(
                j + 1,
            ));
        }
        match g.run(ctx, &elems[j], fuel) {
            None => None,
            Some(ys) => {
                proof {
                    assert(outs_view(ys@).skip(0) =~= outs_view(ys@));
                }
                match collect_exec(&ys, 0) {
                    Err(e) => Some(Err(e)),
                    Ok(ks) => match sortby_go_exec(g, ctx, elems, j + 1, fuel) {
                        None => None,
                        Some(Err(e)) => Some(Err(e)),
                        Some(Ok(rest)) => {
                            let mut rest = rest;
                            let ghost restg = rest@;
                            let ghost ksv = elems_view(ks@);
                            let ev = elems[j].clone();
                            let ghost evv = ev@;
                            rest.insert(0, (ks, ev));
                            proof {
                                lemma_pairs_view(rest@);
                                lemma_pairs_view(restg);
                                assert forall|t: int| 0 <= t < rest@.len() implies pairs_view(
                                    rest@,
                                )[t] == (seq![(ksv, evv)] + pairs_view(restg))[t] by {
                                    assert(pairs_view(rest@)[t] == (elems_view(rest@[t].0@),
                                    v_view(rest@[t].1)));
                                    if t > 0 {
                                        assert(rest@[t] == restg[t - 1]);
                                        assert(pairs_view(restg)[t - 1] == (elems_view(
                                            restg[t - 1].0@,
                                        ), v_view(restg[t - 1].1)));
                                    }
                                }
                                assert(pairs_view(rest@) =~= seq![(ksv, evv)] + pairs_view(restg));
                            }
                            Some(Ok(rest))
                        },
                    },
                }
            },
        }
    }
}

/// Set the slots of the path filter to each given value in turn.
fn assign_go_exec(pf: &Filter, ctx: &Ctx, v: &Val, ys: &Vec<ValR>, i: usize, fuel: u64) -> (res:
    Option<Vec<ValR>>)
    requires
        i <= ys@.len(),
    ensures
        outs_opt(res) == assign_go(
            *pf,
            ctx_view(*ctx),
            v@,
            outs_view(ys@).skip(i as int),
            fuel as nat,
        ),
    decreases fuel, fsize(*pf) + 1, ys@.len() - i, 0nat,
{
    if i == ys.len() {
        proof {
            assert(outs_view(ys@).skip(i as int).len() == 0);
            assert(outs_view(Seq::<ValR>::empty()) =~= Seq::<RV>::empty());
        }
        Some(Vec::new())
    } else {
        proof {
            lemma_outs_suffix(ys@, i as int);
        }
        let head: Option<Vec<ValR>> = match &ys[i] {
            Err(e) => Some(singleton(Err(e.clone()))),
            Ok(y) => {
                let rp = Repl::ConstOne(y.clone());
                upd_exec(pf, ctx, v, &rp, fuel)
            },
        };
        match head {
            None => None,
            Some(hs) => match assign_go_exec(pf, ctx, v, ys, i + 1, fuel) {
                None => None,
                Some(rest) => {
                    let mut hs = hs;
                    let mut rest = rest;
                    let ghost hsg = hs@;
                    let ghost restg = rest@;
                    hs.append(&mut rest);
                    proof {
                        lemma_outs_concat(hsg, restg);
                    }
                    Some(hs)
                },
            },
        }
    }
}

/// The update evaluator.
fn upd_exec(f: &Filter, ctx: &Ctx, v: &Val, rp: &Repl, fuel: u64) -> (res: Option<Vec<ValR>>)
    ensures
        outs_opt(res) == upd(*f, ctx_view(*ctx), v@, repl_view(*rp), fuel as nat),
    decreases fuel, fsize(*f) + rsize(repl_view(*rp)), 0nat, 0nat,
{
    match f {
        Filter::Id => apply_repl_exec(rp, v, fuel),
        Filter::Path(l, pl) => {
            let rp2 = Repl::PathR((**pl).clone(), ctx.clone(), Box::new(rp.clone()));
            upd_exec(l, ctx, v, &rp2, fuel)
        },
        Filter::Pipe(l, bind, r) => {
            if *bind {
                match l.run(ctx, v, fuel) {
                    None => None,
                    Some(ys) => {
                        proof {
                            assert(outs_view(ys@).skip(0) =~= outs_view(ys@));
                        }
                        upd_bind_go_exec(r, ctx, v, &ys, 0, rp, fuel)
                    },
                }
            } else {
                let rp2 = Repl::Desc((**r).clone(), ctx.clone(), Box::new(rp.clone()));
                upd_exec(l, ctx, v, &rp2, fuel)
            }
        },
        Filter::Comma(l, r) => match upd_exec(l, ctx, v, rp, fuel) {
            None => None,
            Some(ls) => {
                proof {
                    assert(outs_view(ls@).skip(0) =~= outs_view(ls@));
                }
                upd_pipe_go_exec(r, ctx, &ls, 0, rp, fuel)
            },
        },
        Filter::IfThenElse(cs, e) => upd_ite_exec(cs, e, ctx, v, rp, fuel),
        Filter::Recurse(l) => {
            if fuel == 0 {
                None
            } else {
                match apply_repl_exec(rp, v, fuel) {
                    None => None,
                    Some(ys) => {
                        proof {
                            assert(outs_view(ys@).skip(0) =~= outs_view(ys@));
                        }
                        rec_upd_go_exec(l, f, ctx, &ys, 0, rp, fuel - 1)
                    },
                }
            }
        },
        Filter::Empty => Some(singleton(Ok(v.clone()))),
        _ => Some(singleton(Err(Error::Str("invalid path expression".to_owned())))),
    }
}

/// Update through a binding pipe.
fn upd_bind_go_exec(
    r: &Filter,
    ctx: &Ctx,
    v: &Val,
    ys: &Vec<ValR>,
    i: usize,
    rp: &Repl,
    fuel: u64,
) -> (res: Option<Vec<ValR>>)
    requires
        i <= ys@.len(),
    ensures
        outs_opt(res) == upd_bind_go(
            *r,
            ctx_view(*ctx),
            v@,
            outs_view(ys@).skip(i as int),
            repl_view(*rp),
            fuel as nat,
        ),
    decreases fuel, fsize(*r) + rsize(repl_view(*rp)), ys@.len() - i, 0nat,
{
    if i == ys.len() {
        proof {
            assert(outs_view(ys@).skip(i as int).len() == 0);
            assert(outs_view(Seq::<ValR>::empty()) =~= Seq::<RV>::empty());
        }
        Some(Vec::new())
    } else {
        proof {
            lemma_outs_suffix(ys@, i as int);
        }
        let head: Option<Vec<ValR>> = match &ys[i] {
            Err(e) => Some(singleton(Err(e.clone()))),
            Ok(y) => {
                let yc = y.clone();
                let ghost ycv = yc;
                let c2 = ctx.clone().cons(yc);
                proof {
                    crate::val::lemma_elems_view_concat(seq![ycv], ctx.elems());
                    lemma_elems_view(seq![ycv]);
                    assert(elems_view(seq![ycv]) =~= seq![v_view(ycv)]);
                    assert(ctx_view(c2) =~= seq![y@] + ctx_view(*ctx));
                }
                upd_exec(r, &c2, v, rp, fuel)
            },
        };
        match head {
            None => None,
            Some(hs) => match upd_bind_go_exec(r, ctx, v, ys, i + 1, rp, fuel) {
                None => None,
                Some(rest) => {
                    let mut hs = hs;
                    let mut rest = rest;
                    let ghost hsg = hs@;
                    let ghost restg = rest@;
                    hs.append(&mut rest);
                    proof {
                        lemma_outs_concat(hsg, restg);
                    }
                    Some(hs)
                },
            },
        }
    }
}

/// Update the right side of a comma on every output of the left.
fn upd_pipe_go_exec(
    r: &Filter,
    ctx: &Ctx,
    ys: &Vec<ValR>,
    i: usize,
    rp: &Repl,
    fuel: u64,
) -> (res: Option<Vec<ValR>>)
    requires
        i <= ys@.len(),
    ensures
        outs_opt(res) == upd_pipe_go(
            *r,
            ctx_view(*ctx),
            outs_view(ys@).skip(i as int),
            repl_view(*rp),
            fuel as nat,
        ),
    decreases fuel, fsize(*r) + rsize(repl_view(*rp)), ys@.len() - i, 0nat,
{
    if i == ys.len() {
        proof {
            assert(outs_view(ys@).skip(i as int).len() == 0);
            assert(outs_view(Seq::<ValR>::empty()) =~= Seq::<RV>::empty());
        }
        Some(Vec::new())
    } else {
        proof {
            lemma_outs_suffix(ys@, i as int);
        }
        let head: Option<Vec<ValR>> = match &ys[i] {
            Err(e) => Some(singleton(Err(e.clone()))),
            Ok(w) => upd_exec(r, ctx, w, rp, fuel),
        };
        match head {
            None => None,
            Some(hs) => match upd_pipe_go_exec(r, ctx, ys, i + 1, rp, fuel) {
                None => None,
                Some(rest) => {
                    let mut hs = hs;
                    let mut rest = rest;
                    let ghost hsg = hs@;
                    let ghost restg = rest@;
                    hs.append(&mut rest);
                    proof {
                        lemma_outs_concat(hsg, restg);
                    }
                    Some(hs)
                },
            },
        }
    }
}

/// The `if`-cascade in update mode.
fn upd_ite_exec(cs: &PairList, e: &Filter, ctx: &Ctx, v: &Val, rp: &Repl, fuel: u64) -> (res:
    Option<Vec<ValR>>)
    ensures
        outs_opt(res) == upd_ite(*cs, *e, ctx_view(*ctx), v@, repl_view(*rp), fuel as nat),
    decreases fuel, plsize(*cs) + fsize(*e) + rsize(repl_view(*rp)) + 1, 0nat, 0nat,
{
    match cs {
        PairList::Nil => upd_exec(e, ctx, v, rp, fuel),
        PairList::Cons(c, t, rest) => match c.run(ctx, v, fuel) {
            None => None,
            Some(ys) => {
                proof {
                    assert(outs_view(ys@).skip(0) =~= outs_view(ys@));
                }
                upd_if_go_exec(&ys, 0, t, rest, e, ctx, v, rp, fuel)
            },
        },
    }
}

/// Dispatch on one condition's outputs in update mode.
fn upd_if_go_exec(
    ys: &Vec<ValR>,
    i: usize,
    t: &Filter,
    rest: &PairList,
    e: &Filter,
    ctx: &Ctx,
    v: &Val,
    rp: &Repl,
    fuel: u64,
) -> (res: Option<Vec<ValR>>)
    requires
        i <= ys@.len(),
    ensures
        outs_opt(res) == upd_if_go(
            outs_view(ys@).skip(i as int),
            *t,
            *rest,
            *e,
            ctx_view(*ctx),
            v@,
            repl_view(*rp),
            fuel as nat,
        ),
    decreases fuel, fsize(*t) + plsize(*rest) + fsize(*e) + rsize(repl_view(*rp)) + 1, ys@.len()
        - i, 0nat,
{
    if i == ys.len() {
        proof {
            assert(outs_view(ys@).skip(i as int).len() == 0);
            assert(outs_view(Seq::<ValR>::empty()) =~= Seq::<RV>::empty());
        }
        Some(Vec::new())
    } else {
        proof {
            lemma_outs_suffix(ys@, i as int);
        }
        let head: Option<Vec<ValR>> = match &ys[i] {
            Err(e2) => Some(singleton(Err(e2.clone()))),
            Ok(y) => {
                if y.as_bool() {
                    upd_exec(t, ctx, v, rp, fuel)
                } else {
                    upd_ite_exec(rest, e, ctx, v, rp, fuel)
                }
            },
        };
        match head {
            None => None,
            Some(hs) => match upd_if_go_exec(ys, i + 1, t, rest, e, ctx, v, rp, fuel) {
                None => None,
                Some(more) => {
                    let mut hs = hs;
                    let mut more = more;
                    let ghost hsg = hs@;
                    let ghost moreg = more@;
                    hs.append(&mut more);
                    proof {
                        lemma_outs_concat(hsg, moreg);
                    }
                    Some(hs)
                },
            },
        }
    }
}

/// Expand every replacement output of a recursion in place.
fn rec_upd_go_exec(
    l: &Filter,
    f: &Filter,
    ctx: &Ctx,
    ys: &Vec<ValR>,
    i: usize,
    rp: &Repl,
    fuel: u64,
) -> (res: Option<Vec<ValR>>)
    requires
        i <= ys@.len(),
    ensures
        outs_opt(res) == rec_upd_go(
            *l,
            *f,
            ctx_view(*ctx),
            outs_view(ys@).skip(i as int),
            repl_view(*rp),
            fuel as nat,
        ),
    decreases fuel, fsize(*l) + fsize(*f) + rsize(repl_view(*rp)), ys@.len() - i, 0nat,
{
    if i == ys.len() {
        proof {
            assert(outs_view(ys@).skip(i as int).len() == 0);
            assert(outs_view(Seq::<ValR>::empty()) =~= Seq::<RV>::empty());
        }
        Some(Vec::new())
    } else {
        proof {
            lemma_outs_suffix(ys@, i as int);
        }
        let head: Option<Vec<ValR>> = match &ys[i] {
            Err(e) => Some(singleton(Err(e.clone()))),
            Ok(v2) => {
                let rp2 = Repl::Desc((*f).clone(), ctx.clone(), Box::new(rp.clone()));
                upd_exec(l, ctx, v2, &rp2, fuel)
            },
        };
        match head {
            None => None,
            Some(hs) => match rec_upd_go_exec(l, f, ctx, ys, i + 1, rp, fuel) {
                None => None,
                Some(rest) => {
                    let mut hs = hs;
                    let mut rest = rest;
                    let ghost hsg = hs@;
                    let ghost restg = rest@;
                    hs.append(&mut rest);
                    proof {
                        lemma_outs_concat(hsg, restg);
                    }
                    Some(hs)
                },
            },
        }
    }
}

/// Apply a continuation to the value at a slot: the whole stream of
/// replacement outcomes.
fn apply_repl_exec(rp: &Repl, v: &Val, fuel: u64) -> (res: Option<Vec<ValR>>)
    ensures
        outs_opt(res) == apply_repl(repl_view(*rp), v@, fuel as nat),
    decreases fuel, rsize(repl_view(*rp)), 1nat, 0nat,
{
    match rp {
        Repl::ConstOne(y) => Some(singleton(Ok(y.clone()))),
        Repl::Run(g, rctx) => g.run(rctx, v, fuel),
        Repl::PathR(pl, rctx, inner) => match mat_parts_exec(pl, rctx, v, fuel) {
            None => None,
            Some(Err(e)) => Some(singleton(Err(e))),
            Some(Ok(parts)) => {
                proof {
                    lemma_parts_view(parts@);
                    assert(parts_view(parts@).skip(0) =~= parts_view(parts@));
                }
                path_upd_exec(&parts, 0, v.clone(), inner, fuel)
            },
        },
        Repl::Desc(g, rctx, inner) => upd_exec(g, rctx, v, inner, fuel),
    }
}

/// Model of combined element-list results.
pub open spec fn elemsrs_view(s: Seq<Result<Vec<Val>, Error>>) -> Seq<
    Result<Seq<ValV>, ErrorV>,
> {
    s.map_values(
        |r: Result<Vec<Val>, Error>|
            match r {
                Ok(es) => Result::<Seq<ValV>, ErrorV>::Ok(elems_view(es@)),
                Err(e) => Result::<Seq<ValV>, ErrorV>::Err(e@),
            },
    )
}

/// Update the value at every slot a materialized path addresses.
fn path_upd_exec(parts: &Vec<(PartVals, Opt)>, i: usize, v: Val, rp: &Repl, fuel: u64) -> (res:
    Option<Vec<ValR>>)
    requires
        i <= parts@.len(),
    ensures
        outs_opt(res) == path_upd(parts_view(parts@).skip(i as int), v@, repl_view(*rp), fuel as nat),
    decreases fuel, rsize(repl_view(*rp)), 4 * (parts@.len() - i) + 4, 0nat,
{
    proof {
        lemma_parts_view(parts@);
    }
    if i == parts.len() {
        proof {
            assert(parts_view(parts@).skip(i as int).len() == 0);
        }
        apply_repl_exec(rp, &v, fuel)
    } else {
        proof {
            assert(parts_view(parts@).skip(i as int)[0] == parts_view(parts@)[i as int]);
            assert(parts_view(parts@)[i as int] == (part_view(parts@[i as int].0),
            parts@[i as int].1));
            assert(parts_view(parts@).skip(i as int).drop_first() =~= parts_view(parts@).skip(
                i + 1,
            ));
        }
        let opt = parts[i].1;
        match &parts[i].0 {
            PartVals::Index(ivals) => {
                proof {
                    lemma_elems_view(ivals@);
                    assert(elems_view(ivals@).skip(0) =~= elems_view(ivals@));
                }
                let ghost vg = v;
                let cur = singleton(Ok(v));
                idx_fold_exec(ivals, 0, opt, parts, i + 1, cur, rp, fuel)
            },
            PartVals::Slice(None, None) => match v {
                Val::Arr(a) => {
                    proof {
                        lemma_elems_view(a@);
                        assert(elems_view(a@).skip(0) =~= elems_view(a@));
                    }
                    match elems_go_exec(&a, 0, parts, i + 1, rp, fuel) {
                        None => None,
                        Some(rs) => {
                            let mut out: Vec<ValR> = Vec::new();
                            let mut t: usize = 0;
                            while t < rs.len()
                                invariant
                                    0 <= t <= rs@.len(),
                                    out@.len() == t,
                                    forall|u: int| 0 <= u < t ==> vr_view(#[trigger] out@[u]) == (
                                    match elemsrs_view(rs@)[u] {
                                        Ok(es) => RV::Ok(ValV::Arr(es)),
                                        Err(e) => RV::Err(e),
                                    }),
                                decreases rs@.len() - t,
                            {
                                proof {
                                    assert(elemsrs_view(rs@)[t as int] == (match rs@[t as int] {
                                        Ok(es) => Result::<Seq<ValV>, ErrorV>::Ok(elems_view(es@)),
                                        Err(e) => Result::<Seq<ValV>, ErrorV>::Err(e@),
                                    }));
                                }
                                match &rs[t] {
                                    Ok(es) => {
                                        let es2 = crate::sorting::clone_vals(es);
                                        out.push(Ok(Val::Arr(es2)));
                                    },
                                    Err(e) => out.push(Err(e.clone())),
                                }
                                t = t + 1;
                            }
                            proof {
                                assert forall|u: int| 0 <= u < out@.len() implies outs_view(
                                    out@,
                                )[u] == elemsrs_view(rs@).map_values(
                                    |r: Result<Seq<ValV>, ErrorV>|
                                        match r {
                                            Ok(es) => RV::Ok(ValV::Arr(es)),
                                            Err(e) => RV::Err(e),
                                        },
                                )[u] by {
                                    assert(outs_view(out@)[u] == vr_view(out@[u]));
                                }
                                assert(outs_view(out@) =~= elemsrs_view(rs@).map_values(
                                    |r: Result<Seq<ValV>, ErrorV>|
                                        match r {
                                            Ok(es) => RV::Ok(ValV::Arr(es)),
                                            Err(e) => RV::Err(e),
                                        },
                                ));
                            }
                            Some(out)
                        },
                    }
                },
                Val::Obj(o) => {
                    proof {
                        lemma_entries_view(o@);
                        assert(entries_view(o@).skip(0) =~= entries_view(o@));
                    }
                    match ents_go_exec(&o, 0, parts, i + 1, rp, fuel) {
                        None => None,
                        Some(rs) => {
                            let mut out: Vec<ValR> = Vec::new();
                            let mut t: usize = 0;
                            while t < rs.len()
                                invariant
                                    0 <= t <= rs@.len(),
                                    out@.len() == t,
                                    forall|u: int| 0 <= u < t ==> vr_view(#[trigger] out@[u]) == (
                                    match objrs_view(rs@)[u] {
                                        Ok(es) => RV::Ok(ValV::Obj(es)),
                                        Err(e) => RV::Err(e),
                                    }),
                                decreases rs@.len() - t,
                            {
                                proof {
                                    assert(objrs_view(rs@)[t as int] == (match rs@[t as int] {
                                        Ok(es) => Result::<EntriesV, ErrorV>::Ok(
                                            entries_view(es@),
                                        ),
                                        Err(e) => Result::<EntriesV, ErrorV>::Err(e@),
                                    }));
                                }
                                match &rs[t] {
                                    Ok(es) => {
                                        let es2 = clone_entries(es);
                                        out.push(Ok(Val::Obj(es2)));
                                    },
                                    Err(e) => out.push(Err(e.clone())),
                                }
                                t = t + 1;
                            }
                            proof {
                                assert forall|u: int| 0 <= u < out@.len() implies outs_view(
                                    out@,
                                )[u] == objrs_view(rs@).map_values(
                                    |r: Result<EntriesV, ErrorV>|
                                        match r {
                                            Ok(es) => RV::Ok(ValV::Obj(es)),
                                            Err(e) => RV::Err(e),
                                        },
                                )[u] by {
                                    assert(outs_view(out@)[u] == vr_view(out@[u]));
                                }
                                assert(outs_view(out@) =~= objrs_view(rs@).map_values(
                                    |r: Result<EntriesV, ErrorV>|
                                        match r {
                                            Ok(es) => RV::Ok(ValV::Obj(es)),
                                            Err(e) => RV::Err(e),
                                        },
                                ));
                            }
                            Some(out)
                        },
                    }
                },
                x => {
                    if matches!(opt, Opt::Optional) {
                        Some(singleton(Ok(x)))
                    } else {
                        Some(singleton(Err(Error::Typ(x, "array or object".to_owned()))))
                    }
                },
            },
            PartVals::Slice(_, _) => {
                if matches!(opt, Opt::Optional) {
                    Some(singleton(Ok(v)))
                } else {
                    Some(singleton(Err(Error::Str("slice update is not supported".to_owned()))))
                }
            },
        }
    }
}

/// Fold the index values of one part over the current outcomes.
fn idx_fold_exec(
    ivals: &Vec<Val>,
    j: usize,
    opt: Opt,
    parts: &Vec<(PartVals, Opt)>,
    i: usize,
    cur: Vec<ValR>,
    rp: &Repl,
    fuel: u64,
) -> (res: Option<Vec<ValR>>)
    requires
        j <= ivals@.len(),
        i <= parts@.len(),
    ensures
        outs_opt(res) == idx_fold(
            elems_view(ivals@).skip(j as int),
            opt,
            parts_view(parts@).skip(i as int),
            outs_view(cur@),
            repl_view(*rp),
            fuel as nat,
        ),
    decreases fuel, rsize(repl_view(*rp)), 4 * (parts@.len() - i) + 7, ivals@.len() - j,
{
    proof {
        lemma_elems_view(ivals@);
    }
    if j == ivals.len() {
        proof {
            assert(elems_view(ivals@).skip(j as int).len() == 0);
        }
        Some(cur)
    } else {
        proof {
            assert(elems_view(ivals@).skip(j as int)[0] == elems_view(ivals@)[j as int]);
            assert(elems_view(ivals@)[j as int] == v_view(ivals@[j as int]));
            assert(elems_view(ivals@).skip(j as int).drop_first() =~= elems_view(ivals@).skip(
                j + 1,
            ));
        }
        proof {
            assert(outs_view(cur@).skip(0) =~= outs_view(cur@));
        }
        match idx_cur_exec(&ivals[j], opt, parts, i, &cur, 0, rp, fuel) {
            None => None,
            Some(cur2) => idx_fold_exec(ivals, j + 1, opt, parts, i, cur2, rp, fuel),
        }
    }
}

/// Apply one index value to every current outcome.
fn idx_cur_exec(
    ival: &Val,
    opt: Opt,
    parts: &Vec<(PartVals, Opt)>,
    i: usize,
    cur: &Vec<ValR>,
    k: usize,
    rp: &Repl,
    fuel: u64,
) -> (res: Option<Vec<ValR>>)
    requires
        i <= parts@.len(),
        k <= cur@.len(),
    ensures
        outs_opt(res) == idx_cur(
            ival@,
            opt,
            parts_view(parts@).skip(i as int),
            outs_view(cur@).skip(k as int),
            repl_view(*rp),
            fuel as nat,
        ),
    decreases fuel, rsize(repl_view(*rp)), 4 * (parts@.len() - i) + 6, cur@.len() - k,
{
    if k == cur.len() {
        proof {
            assert(outs_view(cur@).skip(k as int).len() == 0);
            assert(outs_view(Seq::<ValR>::empty()) =~= Seq::<RV>::empty());
        }
        Some(Vec::new())
    } else {
        proof {
            lemma_outs_suffix(cur@, k as int);
        }
        let head: Option<Vec<ValR>> = match &cur[k] {
            Err(e) => Some(singleton(Err(e.clone()))),
            Ok(v) => slot_apply_exec(v, ival, opt, parts, i, rp, fuel),
        };
        match head {
            None => None,
            Some(hs) => match idx_cur_exec(ival, opt, parts, i, cur, k + 1, rp, fuel) {
                None => None,
                Some(more) => {
                    let mut hs = hs;
                    let mut more = more;
                    let ghost hsg = hs@;
                    let ghost moreg = more@;
                    hs.append(&mut more);
                    proof {
                        lemma_outs_concat(hsg, moreg);
                    }
                    Some(hs)
                },
            },
        }
    }
}

/// Update one slot of one value: one outcome per replacement output; an
/// empty replacement stream deletes the slot.
fn slot_apply_exec(
    v: &Val,
    ival: &Val,
    opt: Opt,
    parts: &Vec<(PartVals, Opt)>,
    i: usize,
    rp: &Repl,
    fuel: u64,
) -> (res: Option<Vec<ValR>>)
    requires
        i <= parts@.len(),
    ensures
        outs_opt(res) == slot_apply(
            v@,
            ival@,
            opt,
            parts_view(parts@).skip(i as int),
            repl_view(*rp),
            fuel as nat,
        ),
    decreases fuel, rsize(repl_view(*rp)), 4 * (parts@.len() - i) + 5, 0nat,
{
    match v.index_with(ival) {
        Err(e) => {
            if matches!(opt, Opt::Optional) {
                Some(singleton(Ok(v.clone())))
            } else {
                Some(singleton(Err(e)))
            }
        },
        Ok(sub) => match path_upd_exec(parts, i, sub, rp, fuel) {
            None => None,
            Some(ws) => {
                if ws.len() == 0 {
                    let vc = v.clone();
                    match vc.del_index(ival) {
                        Err(e) => {
                            if matches!(opt, Opt::Optional) {
                                Some(singleton(Ok(v.clone())))
                            } else {
                                Some(singleton(Err(e)))
                            }
                        },
                        Ok(v2) => Some(singleton(Ok(v2))),
                    }
                } else {
                    proof {
                        assert(outs_view(ws@).skip(0) =~= outs_view(ws@));
                    }
                    Some(set_each_exec(v, ival, opt, &ws, 0))
                }
            },
        },
    }
}

/// Set the slot to each produced value in turn.
fn set_each_exec(v: &Val, ival: &Val, opt: Opt, ws: &Vec<ValR>, t: usize) -> (r: Vec<ValR>)
    requires
        t <= ws@.len(),
    ensures
        outs_view(r@) == set_each(v@, ival@, opt, outs_view(ws@).skip(t as int)),
    decreases ws@.len() - t,
{
    if t == ws.len() {
        proof {
            assert(outs_view(ws@).skip(t as int).len() == 0);
            assert(outs_view(Seq::<ValR>::empty()) =~= Seq::<RV>::empty());
        }
        Vec::new()
    } else {
        proof {
            lemma_outs_suffix(ws@, t as int);
        }
        let head: Vec<ValR> = match &ws[t] {
            Err(e) => singleton(Err(e.clone())),
            Ok(w) => {
                let vc = v.clone();
                match vc.set_index(ival, w.clone()) {
                    Err(e) => {
                        if matches!(opt, Opt::Optional) {
                            singleton(Ok(v.clone()))
                        } else {
                            singleton(Err(e))
                        }
                    },
                    Ok(v2) => singleton(Ok(v2)),
                }
            },
        };
        let mut head = head;
        let mut rest = set_each_exec(v, ival, opt, ws, t + 1);
        let ghost headg = head@;
        let ghost restg = rest@;
        head.append(&mut rest);
        proof {
            lemma_outs_concat(headg, restg);
        }
        head
    }
}

/// Update every element of an array, in the stream of combinations.
fn elems_go_exec(
    todo: &Vec<Val>,
    j: usize,
    parts: &Vec<(PartVals, Opt)>,
    i: usize,
    rp: &Repl,
    fuel: u64,
) -> (res: Option<Vec<Result<Vec<Val>, Error>>>)
    requires
        j <= todo@.len(),
        i <= parts@.len(),
    ensures
        match elems_go(
            elems_view(todo@).skip(j as int),
            parts_view(parts@).skip(i as int),
            repl_view(*rp),
            fuel as nat,
        ) {
            None => res is None,
            Some(rs) => res matches Some(rv) && elemsrs_view(rv@) == rs,
        },
    decreases fuel, rsize(repl_view(*rp)), 4 * (parts@.len() - i) + 7, todo@.len() - j,
{
    proof {
        lemma_elems_view(todo@);
    }
    if j == todo.len() {
        proof {
            assert(elems_view(todo@).skip(j as int).len() == 0);
        }
        let mut out: Vec<Result<Vec<Val>, Error>> = Vec::new();
        out.push(Ok(Vec::new()));
        proof {
            assert(elems_view(Seq::<Val>::empty()) =~= Seq::<ValV>::empty());
            assert(elemsrs_view(out@) =~= seq![Result::<Seq<ValV>, ErrorV>::Ok(Seq::empty())]);
        }
        Some(out)
    } else {
        proof {
            assert(elems_view(todo@).skip(j as int)[0] == elems_view(todo@)[j as int]);
            assert(elems_view(todo@)[j as int] == v_view(todo@[j as int]));
            assert(elems_view(todo@).skip(j as int).drop_first() =~= elems_view(todo@).skip(
                j + 1,
            ));
        }
        let e0 = todo[j].clone();
        match path_upd_exec(parts, i, e0, rp, fuel) {
            None => None,
            Some(ws) => match elems_go_exec(todo, j + 1, parts, i, rp, fuel) {
                None => None,
                Some(tails) => {
                    if ws.len() == 0 {
                        Some(tails)
                    } else {
                        proof {
                            assert(outs_view(ws@).skip(0) =~= outs_view(ws@));
                        }
                        Some(elem_combine_exec(&ws, 0, &tails))
                    }
                },
            },
        }
    }
}

/// Pair every outcome of one element with every tail list.
fn elem_combine_exec(
    ws: &Vec<ValR>,
    t: usize,
    tails: &Vec<Result<Vec<Val>, Error>>,
) -> (r: Vec<Result<Vec<Val>, Error>>)
    requires
        t <= ws@.len(),
    ensures
        elemsrs_view(r@) == elem_combine(outs_view(ws@).skip(t as int), elemsrs_view(tails@)),
    decreases ws@.len() - t,
{
    if t == ws.len() {
        proof {
            assert(outs_view(ws@).skip(t as int).len() == 0);
            assert(elemsrs_view(Seq::empty()) =~= Seq::<Result<Seq<ValV>, ErrorV>>::empty());
        }
        Vec::new()
    } else {
        proof {
            lemma_outs_suffix(ws@, t as int);
        }
        let mut head = elem_tail_exec(&ws[t], tails, 0);
        let mut rest = elem_combine_exec(ws, t + 1, tails);
        let ghost headg = head@;
        let ghost restg = rest@;
        head.append(&mut rest);
        proof {
            assert(elemsrs_view(tails@).skip(0) =~= elemsrs_view(tails@));
            assert(elemsrs_view(headg + restg) =~= elemsrs_view(headg) + elemsrs_view(restg));
        }
        head
    }
}

/// Put one element outcome in front of every tail list.
fn elem_tail_exec(w: &ValR, tails: &Vec<Result<Vec<Val>, Error>>, u: usize) -> (r: Vec<
    Result<Vec<Val>, Error>,
>)
    requires
        u <= tails@.len(),
    ensures
        elemsrs_view(r@) == elem_tail(vr_view(*w), elemsrs_view(tails@).skip(u as int)),
    decreases tails@.len() - u,
{
    if u == tails.len() {
        proof {
            assert(elemsrs_view(tails@).skip(u as int).len() == 0);
            assert(elemsrs_view(Seq::empty()) =~= Seq::<Result<Seq<ValV>, ErrorV>>::empty());
        }
        Vec::new()
    } else {
        proof {
            assert(elemsrs_view(tails@).skip(u as int)[0] == elemsrs_view(tails@)[u as int]);
            assert(elemsrs_view(tails@)[u as int] == (match tails@[u as int] {
                Ok(es) => Result::<Seq<ValV>, ErrorV>::Ok(elems_view(es@)),
                Err(e) => Result::<Seq<ValV>, ErrorV>::Err(e@),
            }));
            assert(elemsrs_view(tails@).skip(u as int).drop_first() =~= elemsrs_view(
                tails@,
            ).skip(u + 1));
        }
        let head: Result<Vec<Val>, Error> = match w {
            Err(e) => Err(e.clone()),
            Ok(nw) => match &tails[u] {
                Err(e) => Err(e.clone()),
                Ok(more) => {
                    let mut es = crate::sorting::clone_vals(more);
                    let ghost esg = es@;
                    let nwc = nw.clone();
                    let ghost nwv = nwc@;
                    es.insert(0, nwc);
                    proof {
                        lemma_elems_view(es@);
                        lemma_elems_view(esg);
                        assert forall|q: int| 0 <= q < es@.len() implies elems_view(es@)[q] == (
                        seq![nwv] + elems_view(esg))[q] by {
                            assert(elems_view(es@)[q] == v_view(es@[q]));
                            if q > 0 {
                                assert(es@[q] == esg[q - 1]);
                                assert(elems_view(esg)[q - 1] == v_view(esg[q - 1]));
                            }
                        }
                        assert(elems_view(es@) =~= seq![nwv] + elems_view(esg));
                    }
                    Ok(es)
                },
            },
        };
        let mut out: Vec<Result<Vec<Val>, Error>> = Vec::new();
        let ghost hv = match head {
            Ok(ref es) => Result::<Seq<ValV>, ErrorV>::Ok(elems_view(es@)),
            Err(ref e) => Result::<Seq<ValV>, ErrorV>::Err(e@),
        };
        out.push(head);
        let mut rest = elem_tail_exec(w, tails, u + 1);
        let ghost outg = out@;
        let ghost restg = rest@;
        out.append(&mut rest);
        proof {
            assert(elemsrs_view(outg) =~= seq![hv]);
            assert(elemsrs_view(outg + restg) =~= elemsrs_view(outg) + elemsrs_view(restg));
        }
        out
    }
}

/// Update every entry value of an object, in the stream of combinations.
fn ents_go_exec(
    todo: &Vec<(String, Val)>,
    j: usize,
    parts: &Vec<(PartVals, Opt)>,
    i: usize,
    rp: &Repl,
    fuel: u64,
) -> (res: Option<Vec<Result<Vec<(String, Val)>, Error>>>)
    requires
        j <= todo@.len(),
        i <= parts@.len(),
    ensures
        match ents_go(
            entries_view(todo@).skip(j as int),
            parts_view(parts@).skip(i as int),
            repl_view(*rp),
            fuel as nat,
        ) {
            None => res is None,
            Some(rs) => res matches Some(rv) && objrs_view(rv@) == rs,
        },
    decreases fuel, rsize(repl_view(*rp)), 4 * (parts@.len() - i) + 7, todo@.len() - j,
{
    proof {
        lemma_entries_view(todo@);
    }
    if j == todo.len() {
        proof {
            assert(entries_view(todo@).skip(j as int).len() == 0);
        }
        let mut out: Vec<Result<Vec<(String, Val)>, Error>> = Vec::new();
        out.push(Ok(Vec::new()));
        proof {
            assert(entries_view(Seq::<(String, Val)>::empty()) =~= Seq::<
                (Seq<char>, ValV),
            >::empty());
            assert(objrs_view(out@) =~= seq![Result::<EntriesV, ErrorV>::Ok(Seq::empty())]);
        }
        Some(out)
    } else {
        proof {
            assert(entries_view(todo@).skip(j as int)[0] == entries_view(todo@)[j as int]);
            assert(entries_view(todo@)[j as int] == (todo@[j as int].0@, v_view(
                todo@[j as int].1,
            )));
            assert(entries_view(todo@).skip(j as int).drop_first() =~= entries_view(todo@).skip(
                j + 1,
            ));
        }
        let e0 = todo[j].1.clone();
        match path_upd_exec(parts, i, e0, rp, fuel) {
            None => None,
            Some(ws) => match ents_go_exec(todo, j + 1, parts, i, rp, fuel) {
                None => None,
                Some(tails) => {
                    if ws.len() == 0 {
                        Some(tails)
                    } else {
                        proof {
                            assert(outs_view(ws@).skip(0) =~= outs_view(ws@));
                        }
                        Some(ent_combine_exec(&todo[j].0, &ws, 0, &tails))
                    }
                },
            },
        }
    }
}

/// Pair every outcome of one entry with every tail list.
fn ent_combine_exec(
    k: &String,
    ws: &Vec<ValR>,
    t: usize,
    tails: &Vec<Result<Vec<(String, Val)>, Error>>,
) -> (r: Vec<Result<Vec<(String, Val)>, Error>>)
    requires
        t <= ws@.len(),
    ensures
        objrs_view(r@) == ent_combine(k@, outs_view(ws@).skip(t as int), objrs_view(tails@)),
    decreases ws@.len() - t,
{
    if t == ws.len() {
        proof {
            assert(outs_view(ws@).skip(t as int).len() == 0);
            assert(objrs_view(Seq::empty()) =~= Seq::<Result<EntriesV, ErrorV>>::empty());
        }
        Vec::new()
    } else {
        proof {
            lemma_outs_suffix(ws@, t as int);
        }
        let mut head = ent_tail_exec(k, &ws[t], tails, 0);
        let mut rest = ent_combine_exec(k, ws, t + 1, tails);
        let ghost headg = head@;
        let ghost restg = rest@;
        head.append(&mut rest);
        proof {
            assert(objrs_view(tails@).skip(0) =~= objrs_view(tails@));
            assert(objrs_view(headg + restg) =~= objrs_view(headg) + objrs_view(restg));
        }
        head
    }
}

/// Put one entry outcome in front of every tail list.
fn ent_tail_exec(
    k: &String,
    w: &ValR,
    tails: &Vec<Result<Vec<(String, Val)>, Error>>,
    u: usize,
) -> (r: Vec<Result<Vec<(String, Val)>, Error>>)
    requires
        u <= tails@.len(),
    ensures
        objrs_view(r@) == ent_tail(k@, vr_view(*w), objrs_view(tails@).skip(u as int)),
    decreases tails@.len() - u,
{
    if u == tails.len() {
        proof {
            assert(objrs_view(tails@).skip(u as int).len() == 0);
            assert(objrs_view(Seq::empty()) =~= Seq::<Result<EntriesV, ErrorV>>::empty());
        }
        Vec::new()
    } else {
        proof {
            assert(objrs_view(tails@).skip(u as int)[0] == objrs_view(tails@)[u as int]);
            assert(objrs_view(tails@)[u as int] == (match tails@[u as int] {
                Ok(es) => Result::<EntriesV, ErrorV>::Ok(entries_view(es@)),
                Err(e) => Result::<EntriesV, ErrorV>::Err(e@),
            }));
            assert(objrs_view(tails@).skip(u as int).drop_first() =~= objrs_view(tails@).skip(
                u + 1,
            ));
        }
        let head: Result<Vec<(String, Val)>, Error> = match w {
            Err(e) => Err(e.clone()),
            Ok(nw) => match &tails[u] {
                Err(e) => Err(e.clone()),
                Ok(more) => {
                    let mut es = clone_entries(more);
                    let ghost esg = es@;
                    let kc = k.clone();
                    let nwc = nw.clone();
                    let ghost kv = kc@;
                    let ghost nwv = nwc@;
                    es.insert(0, (kc, nwc));
                    proof {
                        lemma_entries_view(es@);
                        lemma_entries_view(esg);
                        assert forall|q: int| 0 <= q < es@.len() implies entries_view(es@)[q] == (
                        seq![(kv, nwv)] + entries_view(esg))[q] by {
                            assert(entries_view(es@)[q] == (es@[q].0@, v_view(es@[q].1)));
                            if q > 0 {
                                assert(es@[q] == esg[q - 1]);
                                assert(entries_view(esg)[q - 1] == (esg[q - 1].0@, v_view(
                                    esg[q - 1].1,
                                )));
                            }
                        }
                        assert(entries_view(es@) =~= seq![(kv, nwv)] + entries_view(esg));
                    }
                    Ok(es)
                },
            },
        };
        let mut out: Vec<Result<Vec<(String, Val)>, Error>> = Vec::new();
        let ghost hv = match head {
            Ok(ref es) => Result::<EntriesV, ErrorV>::Ok(entries_view(es@)),
            Err(ref e) => Result::<EntriesV, ErrorV>::Err(e@),
        };
        out.push(head);
        let mut rest = ent_tail_exec(k, w, tails, u + 1);
        let ghost outg = out@;
        let ghost restg = rest@;
        out.append(&mut rest);
        proof {
            assert(objrs_view(outg) =~= seq![hv]);
            assert(objrs_view(outg + restg) =~= objrs_view(outg) + objrs_view(restg));
        }
        out
    }
}


/// The step form of `range`: integers from `from` towards `to` in steps
/// of `by`; the fuel bounds the zero-step form, which never ends.
pub fn range_step(from: i64, to: i64, by: i64, fuel: u64) -> (r: Option<Vec<ValR>>)
    ensures
        outs_opt(r) == crate::sem::range_step_go(from as int, to as int, by as int, fuel as nat),
{
    let mut out: Vec<ValR> = Vec::new();
    let mut cur: i128 = from as i128;
    let mut left: u64 = fuel;
    let mut failed = false;
    let mut done = false;
    while !done
        invariant
            by > 0 ==> from as int <= cur,
            by < 0 ==> cur <= from as int,
            by == 0 ==> cur == from as int,
            -0x1_0000_0000_0000_0000 <= cur <= 0x1_0000_0000_0000_0000,
            !failed ==> (match crate::sem::range_step_go(
                cur as int,
                to as int,
                by as int,
                left as nat,
            ) {
                None => crate::sem::range_step_go(from as int, to as int, by as int, fuel as nat)
                    is None,
                Some(rest) => crate::sem::range_step_go(
                    from as int,
                    to as int,
                    by as int,
                    fuel as nat,
                ) == Some(outs_view(out@) + rest),
            }),
            failed ==> crate::sem::range_step_go(from as int, to as int, by as int, fuel as nat)
                is None,
            done && !failed ==> !(if by > 0 {
                cur < to as i128
            } else if by < 0 {
                cur > to as i128
            } else {
                cur != to as i128
            }),
        decreases left, (if done {
            0int
        } else {
            1int
        }),
    {
        let cont = if by > 0 {
            cur < to as i128
        } else if by < 0 {
            cur > to as i128
        } else {
            cur != to as i128
        };
        if !cont {
            done = true;
        } else if left == 0 {
            failed = true;
            done = true;
        } else {
            proof {
                assert(i64::MIN <= cur <= i64::MAX);
            }
            out.push(Ok(Val::Int(cur as i64)));
            proof {
                assert(outs_view(out@) =~= outs_view(out@.drop_last()) + seq![
                    RV::Ok(ValV::Int(cur as int)),
                ]);
                match crate::sem::range_step_go(
                    cur as int + by as int,
                    to as int,
                    by as int,
                    (left - 1) as nat,
                ) {
                    None => {},
                    Some(rest) => {
                        assert((outs_view(out@.drop_last()) + seq![RV::Ok(ValV::Int(cur as int))])
                            + rest =~= outs_view(out@.drop_last()) + (seq![
                            RV::Ok(ValV::Int(cur as int)),
                        ] + rest));
                    },
                }
            }
            cur = cur + by as i128;
            left = left - 1;
        }
    }
    if failed {
        None
    } else {
        proof {
            assert(crate::sem::range_step_go(cur as int, to as int, by as int, left as nat)
                == Some(Seq::<RV>::empty()));
            assert(outs_view(out@) + Seq::<RV>::empty() =~= outs_view(out@));
        }
        Some(out)
    }
}

} // verus!
