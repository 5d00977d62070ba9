//! The mathematical semantics of the filter language.
//!
//! [`eval`] maps a filter, a context and a value to the stream of
//! value-or-error outcomes the evaluator must produce.  Evaluation is
//! total up to a fuel bound: only `recurse` consumes fuel, and `None`
//! means the bound was reached.  The executable evaluator returns
//! exactly what these functions describe.

use vstd::prelude::*;

use crate::filter::{fsize, plsize, ptsize, partsize, Filter, Opt, PairList, Part, PartList};
use crate::intr::{
    downcase_spec, explode_spec, implode_spec, len_spec, round_spec, upcase_spec, reverse_spec,
};
use crate::json::{err_value, ser};
use crate::ops::{math_spec, neg_spec, ord_spec, ErrorV, RV};
use crate::parse::from_json_spec;
use crate::path::{
    idx_get, iter_vals, del_idx, set_idx, slice_get, PartV,
};
use crate::rc_list::list_skip;
use crate::search::{contains_spec, has_spec, split_spec};
use crate::sorting::{keys_spec, sort_pairs, sort_vals, PairV};
use crate::val::{as_bool_spec, ValV};

verus! {

/// An output stream: values or errors, in order.
pub type OutsV = Seq<RV>;

/// A replacement continuation of the update evaluator: what to do with
/// the value at an addressed slot.
pub enum ReplV {
    /// Replace the slot by this one value.
    ConstOne(ValV),
    /// Run a filter on the old value; its first output replaces the
    /// slot, and an empty output deletes it.
    Run(Filter, Seq<ValV>),
    /// Follow a path inside the slot, applying the inner continuation at
    /// its ends.
    PathR(PartList, Seq<ValV>, Box<ReplV>),
    /// Descend through a filter in update mode, with the inner
    /// continuation at its slots; the first output wins.
    Desc(Filter, Seq<ValV>, Box<ReplV>),
}

/// The size of a continuation.
pub open spec fn rsize(rp: ReplV) -> nat
    decreases rp,
{
    match rp {
        ReplV::ConstOne(_) => 1,
        ReplV::Run(g, _) => fsize(g) + 1,
        ReplV::PathR(pl, _, inner) => ptsize(pl) + rsize(*inner),
        ReplV::Desc(g, _, inner) => fsize(g) + rsize(*inner),
    }
}

/// Collect a stream into its values; the first error aborts.
pub open spec fn collect_ok(rs: OutsV) -> Result<Seq<ValV>, ErrorV>
    decreases rs.len(),
{
    if rs.len() == 0 {
        Ok(Seq::empty())
    } else {
        match rs[0] {
            Err(e) => Err(e),
            Ok(v) => match collect_ok(rs.drop_first()) {
                Ok(rest) => Ok(seq![v] + rest),
                Err(e) => Err(e),
            },
        }
    }
}

/// The successful elements of a stream.
pub open spec fn keep_ok(rs: OutsV) -> OutsV
    decreases rs.len(),
{
    if rs.len() == 0 {
        Seq::empty()
    } else {
        (match rs[0] {
            Ok(v) => seq![RV::Ok(v)],
            Err(_) => Seq::empty(),
        }) + keep_ok(rs.drop_first())
    }
}

/// The elements an alternative keeps: errors, and truthy values.
pub open spec fn alt_keep(rs: OutsV) -> OutsV
    decreases rs.len(),
{
    if rs.len() == 0 {
        Seq::empty()
    } else {
        (match rs[0] {
            Err(e) => seq![RV::Err(e)],
            Ok(v) => if as_bool_spec(v) {
                seq![RV::Ok(v)]
            } else {
                Seq::empty()
            },
        }) + alt_keep(rs.drop_first())
    }
}

/// Each value replaced by its truthiness.
pub open spec fn bool_map(rs: OutsV) -> OutsV {
    rs.map_values(
        |r: RV|
            match r {
                Err(e) => Err(e),
                Ok(v) => Ok(ValV::Bool(as_bool_spec(v))),
            },
    )
}

/// The last element of a stream: an error anywhere aborts, an empty
/// stream stays empty.
pub open spec fn last_scan(rs: OutsV) -> OutsV
    decreases rs.len(),
{
    if rs.len() == 0 {
        Seq::empty()
    } else {
        match rs[0] {
            Err(e) => seq![RV::Err(e)],
            Ok(v) => if rs.len() == 1 {
                seq![RV::Ok(v)]
            } else {
                last_scan(rs.drop_first())
            },
        }
    }
}

/// At most `n` elements of a stream.
pub open spec fn take_n(rs: OutsV, n: int) -> OutsV {
    if n <= 0 {
        Seq::empty()
    } else if n >= rs.len() {
        rs
    } else {
        rs.take(n)
    }
}

/// A value used as an integer.
pub open spec fn as_int_sp(v: ValV) -> Result<int, ErrorV> {
    match v {
        ValV::Int(i) => Ok(i),
        x => Err(ErrorV::Typ(x, "number"@)),
    }
}

/// The integers from `l` up to but excluding `u`.
pub open spec fn range_vals(l: int, u: int) -> OutsV {
    if u <= l {
        Seq::empty()
    } else {
        Seq::new((u - l) as nat, |i: int| RV::Ok(ValV::Int(l + i)))
    }
}

/// One arithmetic outcome of a pair of stream elements.
pub open spec fn cm_one(op: crate::ops::MathOp, y: RV, z: RV) -> RV {
    match y {
        Err(e) => Err(e),
        Ok(a) => match z {
            Err(e) => Err(e),
            Ok(b) => math_spec(op, a, b),
        },
    }
}

/// One row of the arithmetic cartesian product.
pub open spec fn cm_r(op: crate::ops::MathOp, y: RV, rs: OutsV) -> OutsV
    decreases rs.len(),
{
    if rs.len() == 0 {
        Seq::empty()
    } else {
        seq![cm_one(op, y, rs[0])] + cm_r(op, y, rs.drop_first())
    }
}

/// The arithmetic cartesian product, left outputs outermost.
pub open spec fn cm_l(op: crate::ops::MathOp, ls: OutsV, rs: OutsV) -> OutsV
    decreases ls.len(),
{
    if ls.len() == 0 {
        Seq::empty()
    } else {
        cm_r(op, ls[0], rs) + cm_l(op, ls.drop_first(), rs)
    }
}

/// One ordering outcome of a pair of stream elements.
pub open spec fn co_one(op: crate::ops::OrdOp, y: RV, z: RV) -> RV {
    match y {
        Err(e) => Err(e),
        Ok(a) => match z {
            Err(e) => Err(e),
            Ok(b) => Ok(ValV::Bool(ord_spec(op, a, b))),
        },
    }
}

/// One row of the ordering cartesian product.
pub open spec fn co_r(op: crate::ops::OrdOp, y: RV, rs: OutsV) -> OutsV
    decreases rs.len(),
{
    if rs.len() == 0 {
        Seq::empty()
    } else {
        seq![co_one(op, y, rs[0])] + co_r(op, y, rs.drop_first())
    }
}

/// The ordering cartesian product, left outputs outermost.
pub open spec fn co_l(op: crate::ops::OrdOp, ls: OutsV, rs: OutsV) -> OutsV
    decreases ls.len(),
{
    if ls.len() == 0 {
        Seq::empty()
    } else {
        co_r(op, ls[0], rs) + co_l(op, ls.drop_first(), rs)
    }
}

/// One range of a pair of stream elements.
pub open spec fn rg_one(y: RV, z: RV) -> OutsV {
    match y {
        Err(e) => seq![RV::Err(e)],
        Ok(a) => match z {
            Err(e) => seq![RV::Err(e)],
            Ok(b) => match as_int_sp(a) {
                Err(e) => seq![RV::Err(e)],
                Ok(l) => match as_int_sp(b) {
                    Err(e) => seq![RV::Err(e)],
                    Ok(u) => range_vals(l, u),
                },
            },
        },
    }
}

/// One row of the range cartesian product.
pub open spec fn rg_r(y: RV, rs: OutsV) -> OutsV
    decreases rs.len(),
{
    if rs.len() == 0 {
        Seq::empty()
    } else {
        rg_one(y, rs[0]) + rg_r(y, rs.drop_first())
    }
}

/// The range cartesian product, left outputs outermost.
pub open spec fn rg_l(ls: OutsV, rs: OutsV) -> OutsV
    decreases ls.len(),
{
    if ls.len() == 0 {
        Seq::empty()
    } else {
        rg_r(ls[0], rs) + rg_l(ls.drop_first(), rs)
    }
}

/// Object entries in the model.
pub type EntriesV = Seq<(Seq<char>, ValV)>;

/// One object of a key choice, a value choice and a tail object: the
/// key must be a string; errors surface in pair order.
pub open spec fn oc_one(k: RV, v: RV, robj: Result<EntriesV, ErrorV>) -> Result<EntriesV, ErrorV> {
    match k {
        Err(e) => Err(e),
        Ok(ValV::Str(ks)) => match v {
            Err(e) => Err(e),
            Ok(vv) => match robj {
                Err(e) => Err(e),
                Ok(entries) => Ok(crate::ops::obj_merge(seq![(ks, vv)], entries)),
            },
        },
        Ok(other) => Err(ErrorV::Typ(other, "string"@)),
    }
}

/// Combine one key-value choice with every tail object.
pub open spec fn oc_rest(k: RV, v: RV, rest: Seq<Result<EntriesV, ErrorV>>) -> Seq<
    Result<EntriesV, ErrorV>,
>
    decreases rest.len(),
{
    if rest.len() == 0 {
        Seq::empty()
    } else {
        seq![oc_one(k, v, rest[0])] + oc_rest(k, v, rest.drop_first())
    }
}

/// Combine one key choice with every value choice.
pub open spec fn oc_v(k: RV, vys: OutsV, rest: Seq<Result<EntriesV, ErrorV>>) -> Seq<
    Result<EntriesV, ErrorV>,
>
    decreases vys.len(),
{
    if vys.len() == 0 {
        Seq::empty()
    } else {
        oc_rest(k, vys[0], rest) + oc_v(k, vys.drop_first(), rest)
    }
}

/// Combine every key choice with every value choice and tail object.
pub open spec fn oc_k(kys: OutsV, vys: OutsV, rest: Seq<Result<EntriesV, ErrorV>>) -> Seq<
    Result<EntriesV, ErrorV>,
>
    decreases kys.len(),
{
    if kys.len() == 0 {
        Seq::empty()
    } else {
        oc_v(kys[0], vys, rest) + oc_k(kys.drop_first(), vys, rest)
    }
}

/// Objects or errors, from combined entry lists.
pub open spec fn objs_map(rs: Seq<Result<EntriesV, ErrorV>>) -> OutsV {
    rs.map_values(
        |r: Result<EntriesV, ErrorV>|
            match r {
                Ok(entries) => RV::Ok(ValV::Obj(entries)),
                Err(e) => RV::Err(e),
            },
    )
}

/// `sort`: an array sorted by the value order.
pub open spec fn sort_arr_spec(v: ValV) -> Result<ValV, ErrorV> {
    match v {
        ValV::Arr(a) => Ok(ValV::Arr(sort_vals(a))),
        x => Err(ErrorV::Typ(x, "array"@)),
    }
}

/// The payloads of sorted keyed elements.
pub open spec fn pairs_payload(s: Seq<PairV>) -> Seq<ValV> {
    s.map_values(|p: PairV| p.1)
}

/// The candidate values of one slice bound.
pub open spec fn bnds(o: Option<Seq<ValV>>) -> Seq<Option<ValV>> {
    match o {
        None => seq![None],
        Some(l) => l.map_values(|x: ValV| Some(x)),
    }
}

/// Apply an index part to one value, one index at a time.
pub open spec fn idx_all(ivals: Seq<ValV>, opt: Opt, v: ValV) -> Result<Seq<ValV>, ErrorV>
    decreases ivals.len(),
{
    if ivals.len() == 0 {
        Ok(Seq::empty())
    } else {
        match idx_get(v, ivals[0]) {
            Err(e) => if opt is Optional {
                idx_all(ivals.drop_first(), opt, v)
            } else {
                Err(e)
            },
            Ok(w) => match idx_all(ivals.drop_first(), opt, v) {
                Ok(rest) => Ok(seq![w] + rest),
                Err(e) => Err(e),
            },
        }
    }
}

/// Apply the slice combinations of one `from` bound to one value.
pub open spec fn sl_u(f: Option<ValV>, us: Seq<Option<ValV>>, opt: Opt, v: ValV) -> Result<
    Seq<ValV>,
    ErrorV,
>
    decreases us.len(),
{
    if us.len() == 0 {
        Ok(Seq::empty())
    } else {
        match slice_get(v, f, us[0]) {
            Err(e) => if opt is Optional {
                sl_u(f, us.drop_first(), opt, v)
            } else {
                Err(e)
            },
            Ok(w) => match sl_u(f, us.drop_first(), opt, v) {
                Ok(rest) => Ok(seq![w] + rest),
                Err(e) => Err(e),
            },
        }
    }
}

/// Apply every slice combination to one value.
pub open spec fn sl_f(fs: Seq<Option<ValV>>, us: Seq<Option<ValV>>, opt: Opt, v: ValV) -> Result<
    Seq<ValV>,
    ErrorV,
>
    decreases fs.len(),
{
    if fs.len() == 0 {
        Ok(Seq::empty())
    } else {
        match sl_u(fs[0], us, opt, v) {
            Err(e) => Err(e),
            Ok(ws) => match sl_f(fs.drop_first(), us, opt, v) {
                Ok(rest) => Ok(ws + rest),
                Err(e) => Err(e),
            },
        }
    }
}

/// Apply one materialized part to one value.
pub open spec fn part_apply(p: PartV, opt: Opt, v: ValV) -> Result<Seq<ValV>, ErrorV> {
    match p {
        PartV::Index(ivals) => idx_all(ivals, opt, v),
        PartV::Slice(None, None) => match iter_vals(v) {
            Ok(ws) => Ok(ws),
            Err(e) => if opt is Optional {
                Ok(Seq::empty())
            } else {
                Err(e)
            },
        },
        PartV::Slice(a, b) => sl_f(bnds(a), bnds(b), opt, v),
    }
}

/// Apply one materialized part to every value of a working set.
pub open spec fn part_apply_all(p: PartV, opt: Opt, vals: Seq<ValV>) -> Result<Seq<ValV>, ErrorV>
    decreases vals.len(),
{
    if vals.len() == 0 {
        Ok(Seq::empty())
    } else {
        match part_apply(p, opt, vals[0]) {
            Err(e) => Err(e),
            Ok(ws) => match part_apply_all(p, opt, vals.drop_first()) {
                Ok(rest) => Ok(ws + rest),
                Err(e) => Err(e),
            },
        }
    }
}

/// Evaluate a filter: the stream of outcomes, or `None` when the fuel
/// bound was reached.
pub open spec fn eval(f: Filter, ctx: Seq<ValV>, v: ValV, fuel: nat) -> Option<OutsV>
    decreases fuel, fsize(f), 0nat, 0nat,
{
    match f {
        Filter::Id => Some(seq![RV::Ok(v)]),
        Filter::Int(i) => Some(seq![RV::Ok(ValV::Int(i as int))]),
        Filter::Str(s) => Some(seq![RV::Ok(ValV::Str(s@))]),
        Filter::Array(inner) => match inner {
            None => Some(seq![RV::Ok(ValV::Arr(Seq::empty()))]),
            Some(g) => match eval(*g, ctx, v, fuel) {
                None => None,
                Some(ys) => Some(
                    match collect_ok(ys) {
                        Ok(vs) => seq![RV::Ok(ValV::Arr(vs))],
                        Err(e) => seq![RV::Err(e)],
                    },
                ),
            },
        },
        Filter::Object(o) => match eval_obj(*o, ctx, v, fuel) {
            None => None,
            Some(objs) => Some(objs_map(objs)),
        },
        Filter::Try(g) => match eval(*g, ctx, v, fuel) {
            None => None,
            Some(ys) => Some(keep_ok(ys)),
        },
        Filter::Catch(g, h) => match eval(*g, ctx, v, fuel) {
            None => None,
            Some(ys) => catch_go(*h, ctx, ys, fuel),
        },
        Filter::Neg(g) => match eval(*g, ctx, v, fuel) {
            None => None,
            Some(ys) => Some(
                ys.map_values(
                    |y: RV|
                        match y {
                            Err(e) => RV::Err(e),
                            Ok(a) => neg_spec(a),
                        },
                ),
            ),
        },
        Filter::Pipe(l, bind, r) => match eval(*l, ctx, v, fuel) {
            None => None,
            Some(ys) => if bind {
                bind_go(*r, ctx, v, ys, fuel)
            } else {
                pipe_go(*r, ctx, ys, fuel)
            },
        },
        Filter::Comma(l, r) => match eval(*l, ctx, v, fuel) {
            None => None,
            Some(ls) => match eval(*r, ctx, v, fuel) {
                None => None,
                Some(rs) => Some(ls + rs),
            },
        },
        Filter::Alt(l, r) => match eval(*l, ctx, v, fuel) {
            None => None,
            Some(ys) => {
                let kept = alt_keep(ys);
                if kept.len() > 0 {
                    Some(kept)
                } else {
                    eval(*r, ctx, v, fuel)
                }
            },
        },
        Filter::IfThenElse(cs, e) => eval_ite(*cs, *e, ctx, v, fuel),
        Filter::Reduce(xs, init, g) => match eval(*xs, ctx, v, fuel) {
            None => None,
            Some(ys) => match eval(*init, ctx, v, fuel) {
                None => None,
                Some(inits) => match collect_ok(inits) {
                    Err(e) => Some(seq![RV::Err(e)]),
                    Ok(acc) => match reduce_go(*g, ctx, ys, acc, fuel) {
                        None => None,
                        Some(Err(e)) => Some(seq![RV::Err(e)]),
                        Some(Ok(vs)) => Some(vs.map_values(|w: ValV| RV::Ok(w))),
                    },
                },
            },
        },
        Filter::Path(l, pl) => match eval(*l, ctx, v, fuel) {
            None => None,
            Some(ys) => match collect_ok(ys) {
                Err(e) => Some(seq![RV::Err(e)]),
                Ok(vals) => path_go(*pl, ctx, v, vals, fuel),
            },
        },
        Filter::Assign(pf, g) => match eval(*g, ctx, v, fuel) {
            None => None,
            Some(ys) => assign_go(*pf, ctx, v, ys, fuel),
        },
        Filter::Update(pf, g) => upd(*pf, ctx, v, ReplV::Run(*g, ctx), fuel),
        Filter::Logic(l, stop, r) => match eval(*l, ctx, v, fuel) {
            None => None,
            Some(ys) => logic_go(*r, stop, ctx, v, ys, fuel),
        },
        Filter::Math(l, op, r) => match eval(*l, ctx, v, fuel) {
            None => None,
            Some(ls) => match eval(*r, ctx, v, fuel) {
                None => None,
                Some(rs) => Some(cm_l(op, ls, rs)),
            },
        },
        Filter::Ord(l, op, r) => match eval(*l, ctx, v, fuel) {
            None => None,
            Some(ls) => match eval(*r, ctx, v, fuel) {
                None => None,
                Some(rs) => Some(co_l(op, ls, rs)),
            },
        },
        Filter::Empty => Some(Seq::empty()),
        Filter::Error => Some(seq![RV::Err(ErrorV::Val(v))]),
        Filter::Length => Some(seq![len_spec(v)]),
        Filter::Keys => Some(seq![keys_spec(v)]),
        Filter::Floor => Some(seq![round_spec(v)]),
        Filter::Round => Some(seq![round_spec(v)]),
        Filter::Ceil => Some(seq![round_spec(v)]),
        Filter::FromJson => Some(seq![from_json_spec(v)]),
        Filter::ToJson => Some(seq![RV::Ok(ValV::Str(ser(v)))]),
        Filter::Explode => Some(seq![explode_spec(v)]),
        Filter::Implode => Some(seq![implode_spec(v)]),
        Filter::AsciiDowncase => Some(seq![downcase_spec(v)]),
        Filter::AsciiUpcase => Some(seq![upcase_spec(v)]),
        Filter::Reverse => Some(seq![reverse_spec(v)]),
        Filter::Sort => Some(seq![sort_arr_spec(v)]),
        Filter::SortBy(g) => match v {
            ValV::Arr(a) => match sortby_go(*g, ctx, a, fuel) {
                None => None,
                Some(Err(e)) => Some(seq![RV::Err(e)]),
                Some(Ok(pairs)) => Some(
                    seq![RV::Ok(ValV::Arr(pairs_payload(sort_pairs(pairs))))],
                ),
            },
            x => Some(seq![RV::Err(ErrorV::Typ(x, "array"@))]),
        },
        Filter::Has(g) => match eval(*g, ctx, v, fuel) {
            None => None,
            Some(ys) => Some(
                ys.map_values(
                    |y: RV|
                        match y {
                            Err(e) => RV::Err(e),
                            Ok(k) => has_spec(v, k),
                        },
                ),
            ),
        },
        Filter::Split(g) => match eval(*g, ctx, v, fuel) {
            None => None,
            Some(ys) => Some(
                ys.map_values(
                    |y: RV|
                        match y {
                            Err(e) => RV::Err(e),
                            Ok(sep) => split_spec(v, sep),
                        },
                ),
            ),
        },
        Filter::Contains(g) => match eval(*g, ctx, v, fuel) {
            None => None,
            Some(ys) => Some(
                ys.map_values(
                    |y: RV|
                        match y {
                            Err(e) => RV::Err(e),
                            Ok(w) => RV::Ok(ValV::Bool(contains_spec(v, w))),
                        },
                ),
            ),
        },
        Filter::First(g) => match eval(*g, ctx, v, fuel) {
            None => None,
            Some(ys) => Some(take_n(ys, 1)),
        },
        Filter::Last(g) => match eval(*g, ctx, v, fuel) {
            None => None,
            Some(ys) => Some(last_scan(ys)),
        },
        Filter::Limit(n, g) => match eval(*n, ctx, v, fuel) {
            None => None,
            Some(ns) => limit_go(*g, ctx, v, ns, fuel),
        },
        Filter::Range(l, u) => match eval(*l, ctx, v, fuel) {
            None => None,
            Some(ls) => match eval(*u, ctx, v, fuel) {
                None => None,
                Some(us) => Some(rg_l(ls, us)),
            },
        },
        Filter::Recurse(g) => if fuel == 0 {
            None
        } else {
            match eval(*g, ctx, v, fuel) {
                None => None,
                Some(ys) => match rec_go(f, ctx, ys, (fuel - 1) as nat) {
                    None => None,
                    Some(rest) => Some(seq![RV::Ok(v)] + rest),
                },
            }
        },
        Filter::SkipCtx(n, g) => eval(*g, list_skip(ctx, n as nat), v, fuel),
        Filter::Var(n) => Some(
            seq![
                if n < ctx.len() {
                    RV::Ok(ctx[n as int])
                } else {
                    RV::Err(ErrorV::Str("unbound variable"@))
                },
            ],
        ),
        Filter::Arg(_) => Some(seq![RV::Err(ErrorV::Str("unsubstituted argument"@))]),
    }
}

/// Compose: run `r` on every successful output.
pub open spec fn pipe_go(r: Filter, ctx: Seq<ValV>, ys: OutsV, fuel: nat) -> Option<OutsV>
    decreases fuel, fsize(r), ys.len(), 0nat,
{
    if ys.len() == 0 {
        Some(Seq::empty())
    } else {
        let head = match ys[0] {
            Err(e) => Some(seq![RV::Err(e)]),
            Ok(y) => eval(r, ctx, y, fuel),
        };
        match head {
            None => None,
            Some(hs) => match pipe_go(r, ctx, ys.drop_first(), fuel) {
                None => None,
                Some(rest) => Some(hs + rest),
            },
        }
    }
}

/// Compose with binding: run `r` on the original input, with each
/// successful output bound as the innermost variable.
pub open spec fn bind_go(r: Filter, ctx: Seq<ValV>, v: ValV, ys: OutsV, fuel: nat) -> Option<OutsV>
    decreases fuel, fsize(r), ys.len(), 0nat,
{
    if ys.len() == 0 {
        Some(Seq::empty())
    } else {
        let head = match ys[0] {
            Err(e) => Some(seq![RV::Err(e)]),
            Ok(y) => eval(r, seq![y] + ctx, v, fuel),
        };
        match head {
            None => None,
            Some(hs) => match bind_go(r, ctx, v, ys.drop_first(), fuel) {
                None => None,
                Some(rest) => Some(hs + rest),
            },
        }
    }
}

/// Run the handler on every error's value.
pub open spec fn catch_go(h: Filter, ctx: Seq<ValV>, ys: OutsV, fuel: nat) -> Option<OutsV>
    decreases fuel, fsize(h), ys.len(), 0nat,
{
    if ys.len() == 0 {
        Some(Seq::empty())
    } else {
        let head = match ys[0] {
            Ok(y) => Some(seq![RV::Ok(y)]),
            Err(e) => eval(h, ctx, err_value(e), fuel),
        };
        match head {
            None => None,
            Some(hs) => match catch_go(h, ctx, ys.drop_first(), fuel) {
                None => None,
                Some(rest) => Some(hs + rest),
            },
        }
    }
}

/// Short-circuit logic: when the left value decides, yield the decision,
/// else the truthiness of every right output.
pub open spec fn logic_go(
    r: Filter,
    stop: bool,
    ctx: Seq<ValV>,
    v: ValV,
    ys: OutsV,
    fuel: nat,
) -> Option<OutsV>
    decreases fuel, fsize(r), ys.len(), 0nat,
{
    if ys.len() == 0 {
        Some(Seq::empty())
    } else {
        let head = match ys[0] {
            Err(e) => Some(seq![RV::Err(e)]),
            Ok(a) => if as_bool_spec(a) == stop {
                Some(seq![RV::Ok(ValV::Bool(stop))])
            } else {
                match eval(r, ctx, v, fuel) {
                    None => None,
                    Some(zs) => Some(bool_map(zs)),
                }
            },
        };
        match head {
            None => None,
            Some(hs) => match logic_go(r, stop, ctx, v, ys.drop_first(), fuel) {
                None => None,
                Some(rest) => Some(hs + rest),
            },
        }
    }
}

/// At most `n` outputs of `g`, for each produced `n`.
pub open spec fn limit_go(g: Filter, ctx: Seq<ValV>, v: ValV, ns: OutsV, fuel: nat) -> Option<OutsV>
    decreases fuel, fsize(g), ns.len(), 0nat,
{
    if ns.len() == 0 {
        Some(Seq::empty())
    } else {
        let head = match ns[0] {
            Err(e) => Some(seq![RV::Err(e)]),
            Ok(nv) => match as_int_sp(nv) {
                Err(e) => Some(seq![RV::Err(e)]),
                Ok(k) => if k <= 0 {
                    Some(Seq::empty())
                } else {
                    match eval(g, ctx, v, fuel) {
                        None => None,
                        Some(zs) => Some(take_n(zs, k)),
                    }
                },
            },
        };
        match head {
            None => None,
            Some(hs) => match limit_go(g, ctx, v, ns.drop_first(), fuel) {
                None => None,
                Some(rest) => Some(hs + rest),
            },
        }
    }
}

/// Expand every successful child in preorder.
pub open spec fn rec_go(f: Filter, ctx: Seq<ValV>, ys: OutsV, fuel: nat) -> Option<OutsV>
    decreases fuel, fsize(f), ys.len(), 0nat,
{
    if ys.len() == 0 {
        Some(Seq::empty())
    } else {
        let head = match ys[0] {
            Err(e) => Some(seq![RV::Err(e)]),
            Ok(c) => eval(f, ctx, c, fuel),
        };
        match head {
            None => None,
            Some(hs) => match rec_go(f, ctx, ys.drop_first(), fuel) {
                None => None,
                Some(rest) => Some(hs + rest),
            },
        }
    }
}

/// The `if`-cascade: try each condition in turn.
pub open spec fn eval_ite(cs: PairList, e: Filter, ctx: Seq<ValV>, v: ValV, fuel: nat) -> Option<
    OutsV,
>
    decreases fuel, plsize(cs) + fsize(e) + 1, 0nat, 0nat,
{
    match cs {
        PairList::Nil => eval(e, ctx, v, fuel),
        PairList::Cons(c, t, rest) => match eval(c, ctx, v, fuel) {
            None => None,
            Some(ys) => if_go(ys, t, *rest, e, ctx, v, fuel),
        },
    }
}

/// Dispatch on the outputs of one condition.
pub open spec fn if_go(
    ys: OutsV,
    t: Filter,
    rest: PairList,
    e: Filter,
    ctx: Seq<ValV>,
    v: ValV,
    fuel: nat,
) -> Option<OutsV>
    decreases fuel, fsize(t) + plsize(rest) + fsize(e) + 1, ys.len(), 0nat,
{
    if ys.len() == 0 {
        Some(Seq::empty())
    } else {
        let head = match ys[0] {
            Err(err) => Some(seq![RV::Err(err)]),
            Ok(y) => if as_bool_spec(y) {
                eval(t, ctx, v, fuel)
            } else {
                eval_ite(rest, e, ctx, v, fuel)
            },
        };
        match head {
            None => None,
            Some(hs) => match if_go(ys.drop_first(), t, rest, e, ctx, v, fuel) {
                None => None,
                Some(more) => Some(hs + more),
            },
        }
    }
}

/// Build the combined entry lists of an object construction.
pub open spec fn eval_obj(o: PairList, ctx: Seq<ValV>, v: ValV, fuel: nat) -> Option<
    Seq<Result<EntriesV, ErrorV>>,
>
    decreases fuel, plsize(o) + 1, 0nat, 0nat,
{
    match o {
        PairList::Nil => Some(seq![Result::<EntriesV, ErrorV>::Ok(Seq::empty())]),
        PairList::Cons(kf, vf, rest) => match eval(kf, ctx, v, fuel) {
            None => None,
            Some(kys) => match eval(vf, ctx, v, fuel) {
                None => None,
                Some(vys) => match eval_obj(*rest, ctx, v, fuel) {
                    None => None,
                    Some(rs) => Some(oc_k(kys, vys, rs)),
                },
            },
        },
    }
}

/// Fold the stream through the step filter.
pub open spec fn reduce_go(
    g: Filter,
    ctx: Seq<ValV>,
    ys: OutsV,
    acc: Seq<ValV>,
    fuel: nat,
) -> Option<Result<Seq<ValV>, ErrorV>>
    decreases fuel, fsize(g) + 1, ys.len(), 0nat,
{
    if ys.len() == 0 {
        Some(Ok(acc))
    } else {
        match ys[0] {
            Err(e) => Some(Err(e)),
            Ok(x) => match reduce_step(g, seq![x] + ctx, acc, fuel) {
                None => None,
                Some(Err(e)) => Some(Err(e)),
                Some(Ok(acc2)) => reduce_go(g, ctx, ys.drop_first(), acc2, fuel),
            },
        }
    }
}

/// One fold step: replace the accumulator by the concatenation of the
/// step filter's outputs on each of its values.
pub open spec fn reduce_step(g: Filter, bctx: Seq<ValV>, acc: Seq<ValV>, fuel: nat) -> Option<
    Result<Seq<ValV>, ErrorV>,
>
    decreases fuel, fsize(g), acc.len(), 0nat,
{
    if acc.len() == 0 {
        Some(Ok(Seq::empty()))
    } else {
        match eval(g, bctx, acc[0], fuel) {
            None => None,
            Some(zs) => match collect_ok(zs) {
                Err(e) => Some(Err(e)),
                Ok(ws) => match reduce_step(g, bctx, acc.drop_first(), fuel) {
                    None => None,
                    Some(Err(e)) => Some(Err(e)),
                    Some(Ok(rest)) => Some(Ok(ws + rest)),
                },
            },
        }
    }
}

/// Materialize one path part.
pub open spec fn mat_part(part: Part, ctx: Seq<ValV>, v: ValV, fuel: nat) -> Option<
    Result<PartV, ErrorV>,
>
    decreases fuel, partsize(part), 0nat, 0nat,
{
    match part {
        Part::Index(g) => match eval(g, ctx, v, fuel) {
            None => None,
            Some(ys) => match collect_ok(ys) {
                Err(e) => Some(Err(e)),
                Ok(vs) => Some(Ok(PartV::Index(vs))),
            },
        },
        Part::Range(a, b) => {
            let fa = match a {
                None => Some(Ok(None)),
                Some(g) => match eval(*g, ctx, v, fuel) {
                    None => None,
                    Some(ys) => match collect_ok(ys) {
                        Err(e) => Some(Err(e)),
                        Ok(vs) => Some(Ok(Some(vs))),
                    },
                },
            };
            match fa {
                None => None,
                Some(Err(e)) => Some(Err(e)),
                Some(Ok(fr)) => {
                    let fb = match b {
                        None => Some(Ok(None)),
                        Some(g) => match eval(*g, ctx, v, fuel) {
                            None => None,
                            Some(ys) => match collect_ok(ys) {
                                Err(e) => Some(Err(e)),
                                Ok(vs) => Some(Ok(Some(vs))),
                            },
                        },
                    };
                    match fb {
                        None => None,
                        Some(Err(e)) => Some(Err(e)),
                        Some(Ok(ur)) => Some(Ok(PartV::Slice(fr, ur))),
                    }
                },
            }
        },
    }
}

/// Follow the parts of a path over a working set of values.
pub open spec fn path_go(
    pl: PartList,
    ctx: Seq<ValV>,
    v: ValV,
    vals: Seq<ValV>,
    fuel: nat,
) -> Option<OutsV>
    decreases fuel, ptsize(pl), 0nat, 0nat,
{
    match pl {
        PartList::Nil => Some(vals.map_values(|w: ValV| RV::Ok(w))),
        PartList::Cons(part, opt, rest) => match mat_part(part, ctx, v, fuel) {
            None => None,
            Some(Err(e)) => Some(seq![RV::Err(e)]),
            Some(Ok(pv)) => match part_apply_all(pv, opt, vals) {
                Err(e) => Some(seq![RV::Err(e)]),
                Ok(vals2) => path_go(*rest, ctx, v, vals2, fuel),
            },
        },
    }
}

/// Materialize every part of a path.
pub open spec fn mat_parts(pl: PartList, ctx: Seq<ValV>, v: ValV, fuel: nat) -> Option<
    Result<Seq<(PartV, Opt)>, ErrorV>,
>
    decreases fuel, ptsize(pl), 0nat, 0nat,
{
    match pl {
        PartList::Nil => Some(Ok(Seq::empty())),
        PartList::Cons(part, opt, rest) => match mat_part(part, ctx, v, fuel) {
            None => None,
            Some(Err(e)) => Some(Err(e)),
            Some(Ok(pv)) => match mat_parts(*rest, ctx, v, fuel) {
                None => None,
                Some(Err(e)) => Some(Err(e)),
                Some(Ok(ps)) => Some(Ok(seq![(pv, opt)] + ps)),
            },
        },
    }
}

/// Set the slots of the path filter to each given value in turn.
pub open spec fn assign_go(
    pf: Filter,
    ctx: Seq<ValV>,
    v: ValV,
    ys: OutsV,
    fuel: nat,
) -> Option<OutsV>
    decreases fuel, fsize(pf) + 1, ys.len(), 0nat,
{
    if ys.len() == 0 {
        Some(Seq::empty())
    } else {
        let head = match ys[0] {
            Err(e) => Some(seq![RV::Err(e)]),
            Ok(y) => upd(pf, ctx, v, ReplV::ConstOne(y), fuel),
        };
        match head {
            None => None,
            Some(hs) => match assign_go(pf, ctx, v, ys.drop_first(), fuel) {
                None => None,
                Some(rest) => Some(hs + rest),
            },
        }
    }
}

/// The update evaluator: interpret a filter as a path and transform the
/// value at each addressed slot.
pub open spec fn upd(f: Filter, ctx: Seq<ValV>, v: ValV, rp: ReplV, fuel: nat) -> Option<OutsV>
    decreases fuel, fsize(f) + rsize(rp), 0nat, 0nat,
{
    match f {
        Filter::Id => apply_repl(rp, v, fuel),
        Filter::Path(l, pl) => upd(*l, ctx, v, ReplV::PathR(*pl, ctx, Box::new(rp)), fuel),
        Filter::Pipe(l, bind, r) => if bind {
            match eval(*l, ctx, v, fuel) {
                None => None,
                Some(ys) => upd_bind_go(*r, ctx, v, ys, rp, fuel),
            }
        } else {
            upd(*l, ctx, v, ReplV::Desc(*r, ctx, Box::new(rp)), fuel)
        },
        Filter::Comma(l, r) => match upd(*l, ctx, v, rp, fuel) {
            None => None,
            Some(ls) => upd_pipe_go(*r, ctx, ls, rp, fuel),
        },
        Filter::IfThenElse(cs, e) => upd_ite(*cs, *e, ctx, v, rp, fuel),
        Filter::Recurse(l) => if fuel == 0 {
            None
        } else {
            match apply_repl(rp, v, fuel) {
                None => None,
                Some(ys) => rec_upd_go(*l, f, ctx, ys, rp, (fuel - 1) as nat),
            }
        },
        Filter::Empty => Some(seq![RV::Ok(v)]),
        _ => Some(seq![RV::Err(ErrorV::Str("invalid path expression"@))]),
    }
}

/// Update through a binding pipe: each bound output opens its own
/// descent.
pub open spec fn upd_bind_go(
    r: Filter,
    ctx: Seq<ValV>,
    v: ValV,
    ys: OutsV,
    rp: ReplV,
    fuel: nat,
) -> Option<OutsV>
    decreases fuel, fsize(r) + rsize(rp), ys.len(), 0nat,
{
    if ys.len() == 0 {
        Some(Seq::empty())
    } else {
        let head = match ys[0] {
            Err(e) => Some(seq![RV::Err(e)]),
            Ok(y) => upd(r, seq![y] + ctx, v, rp, fuel),
        };
        match head {
            None => None,
            Some(hs) => match upd_bind_go(r, ctx, v, ys.drop_first(), rp, fuel) {
                None => None,
                Some(rest) => Some(hs + rest),
            },
        }
    }
}

/// Update the right side of a comma on every output of the left update.
pub open spec fn upd_pipe_go(
    r: Filter,
    ctx: Seq<ValV>,
    ys: OutsV,
    rp: ReplV,
    fuel: nat,
) -> Option<OutsV>
    decreases fuel, fsize(r) + rsize(rp), ys.len(), 0nat,
{
    if ys.len() == 0 {
        Some(Seq::empty())
    } else {
        let head = match ys[0] {
            Err(e) => Some(seq![RV::Err(e)]),
            Ok(w) => upd(r, ctx, w, rp, fuel),
        };
        match head {
            None => None,
            Some(hs) => match upd_pipe_go(r, ctx, ys.drop_first(), rp, fuel) {
                None => None,
                Some(rest) => Some(hs + rest),
            },
        }
    }
}

/// The `if`-cascade in update mode.
pub open spec fn upd_ite(
    cs: PairList,
    e: Filter,
    ctx: Seq<ValV>,
    v: ValV,
    rp: ReplV,
    fuel: nat,
) -> Option<OutsV>
    decreases fuel, plsize(cs) + fsize(e) + rsize(rp) + 1, 0nat, 0nat,
{
    match cs {
        PairList::Nil => upd(e, ctx, v, rp, fuel),
        PairList::Cons(c, t, rest) => match eval(c, ctx, v, fuel) {
            None => None,
            Some(ys) => upd_if_go(ys, t, *rest, e, ctx, v, rp, fuel),
        },
    }
}

/// Dispatch on one condition's outputs in update mode.
pub open spec fn upd_if_go(
    ys: OutsV,
    t: Filter,
    rest: PairList,
    e: Filter,
    ctx: Seq<ValV>,
    v: ValV,
    rp: ReplV,
    fuel: nat,
) -> Option<OutsV>
    decreases fuel, fsize(t) + plsize(rest) + fsize(e) + rsize(rp) + 1, ys.len(), 0nat,
{
    if ys.len() == 0 {
        Some(Seq::empty())
    } else {
        let head = match ys[0] {
            Err(err) => Some(seq![RV::Err(err)]),
            Ok(y) => if as_bool_spec(y) {
                upd(t, ctx, v, rp, fuel)
            } else {
                upd_ite(rest, e, ctx, v, rp, fuel)
            },
        };
        match head {
            None => None,
            Some(hs) => match upd_if_go(ys.drop_first(), t, rest, e, ctx, v, rp, fuel) {
                None => None,
                Some(more) => Some(hs + more),
            },
        }
    }
}

/// Expand every replacement output of a recursion in place: each
/// successful value descends through the child filter with the whole
/// continuation, each error stays.
pub open spec fn rec_upd_go(
    l: Filter,
    f: Filter,
    ctx: Seq<ValV>,
    ys: OutsV,
    rp: ReplV,
    fuel: nat,
) -> Option<OutsV>
    decreases fuel, fsize(l) + fsize(f) + rsize(rp), ys.len(), 0nat,
{
    if ys.len() == 0 {
        Some(Seq::empty())
    } else {
        let head = match ys[0] {
            Err(e) => Some(seq![RV::Err(e)]),
            Ok(v2) => upd(l, ctx, v2, ReplV::Desc(f, ctx, Box::new(rp)), fuel),
        };
        match head {
            None => None,
            Some(hs) => match rec_upd_go(l, f, ctx, ys.drop_first(), rp, fuel) {
                None => None,
                Some(rest) => Some(hs + rest),
            },
        }
    }
}

/// Apply a continuation to the value at a slot: the whole stream of
/// replacement outcomes.
pub open spec fn apply_repl(rp: ReplV, v: ValV, fuel: nat) -> Option<OutsV>
    decreases fuel, rsize(rp), 1nat, 0nat,
{
    match rp {
        ReplV::ConstOne(y) => Some(seq![RV::Ok(y)]),
        ReplV::Run(g, rctx) => eval(g, rctx, v, fuel),
        ReplV::PathR(pl, rctx, inner) => match mat_parts(pl, rctx, v, fuel) {
            None => None,
            Some(Err(e)) => Some(seq![RV::Err(e)]),
            Some(Ok(parts)) => path_upd(parts, v, *inner, fuel),
        },
        ReplV::Desc(g, rctx, inner) => upd(g, rctx, v, *inner, fuel),
    }
}

/// Update the value at every slot a materialized path addresses: one
/// whole-value outcome per combination of replacement outputs; an empty
/// replacement stream deletes the slot.
pub open spec fn path_upd(
    parts: Seq<(PartV, Opt)>,
    v: ValV,
    rp: ReplV,
    fuel: nat,
) -> Option<OutsV>
    decreases fuel, rsize(rp), 4 * parts.len() + 4, 0nat,
{
    if parts.len() == 0 {
        apply_repl(rp, v, fuel)
    } else {
        let opt = parts[0].1;
        match parts[0].0 {
            PartV::Index(ivals) => idx_fold(
                ivals,
                opt,
                parts.drop_first(),
                seq![RV::Ok(v)],
                rp,
                fuel,
            ),
            PartV::Slice(None, None) => match v {
                ValV::Arr(a) => match elems_go(a, parts.drop_first(), rp, fuel) {
                    None => None,
                    Some(rs) => Some(
                        rs.map_values(
                            |r: Result<Seq<ValV>, ErrorV>|
                                match r {
                                    Ok(es) => RV::Ok(ValV::Arr(es)),
                                    Err(e) => RV::Err(e),
                                },
                        ),
                    ),
                },
                ValV::Obj(o) => match ents_go(o, parts.drop_first(), rp, fuel) {
                    None => None,
                    Some(rs) => Some(
                        rs.map_values(
                            |r: Result<EntriesV, ErrorV>|
                                match r {
                                    Ok(es) => RV::Ok(ValV::Obj(es)),
                                    Err(e) => RV::Err(e),
                                },
                        ),
                    ),
                },
                x => if opt is Optional {
                    Some(seq![RV::Ok(x)])
                } else {
                    Some(seq![RV::Err(ErrorV::Typ(x, "array or object"@))])
                },
            },
            PartV::Slice(_, _) => if opt is Optional {
                Some(seq![RV::Ok(v)])
            } else {
                Some(seq![RV::Err(ErrorV::Str("slice update is not supported"@))])
            },
        }
    }
}

/// Fold the index values of one part over the current outcomes, left to
/// right.
pub open spec fn idx_fold(
    ivals: Seq<ValV>,
    opt: Opt,
    rest: Seq<(PartV, Opt)>,
    cur: OutsV,
    rp: ReplV,
    fuel: nat,
) -> Option<OutsV>
    decreases fuel, rsize(rp), 4 * rest.len() + 7, ivals.len(),
{
    if ivals.len() == 0 {
        Some(cur)
    } else {
        match idx_cur(ivals[0], opt, rest, cur, rp, fuel) {
            None => None,
            Some(cur2) => idx_fold(ivals.drop_first(), opt, rest, cur2, rp, fuel),
        }
    }
}

/// Apply one index value to every current outcome.
pub open spec fn idx_cur(
    ival: ValV,
    opt: Opt,
    rest: Seq<(PartV, Opt)>,
    cur: OutsV,
    rp: ReplV,
    fuel: nat,
) -> Option<OutsV>
    decreases fuel, rsize(rp), 4 * rest.len() + 6, cur.len(),
{
    if cur.len() == 0 {
        Some(Seq::empty())
    } else {
        let head = match cur[0] {
            Err(e) => Some(seq![RV::Err(e)]),
            Ok(v) => slot_apply(v, ival, opt, rest, rp, fuel),
        };
        match head {
            None => None,
            Some(hs) => match idx_cur(ival, opt, rest, cur.drop_first(), rp, fuel) {
                None => None,
                Some(more) => Some(hs + more),
            },
        }
    }
}

/// Update one slot of one value: every replacement output gives one
/// outcome; an empty replacement stream deletes the slot.
pub open spec fn slot_apply(
    v: ValV,
    ival: ValV,
    opt: Opt,
    rest: Seq<(PartV, Opt)>,
    rp: ReplV,
    fuel: nat,
) -> Option<OutsV>
    decreases fuel, rsize(rp), 4 * rest.len() + 5, 0nat,
{
    match idx_get(v, ival) {
        Err(e) => if opt is Optional {
            Some(seq![RV::Ok(v)])
        } else {
            Some(seq![RV::Err(e)])
        },
        Ok(sub) => match path_upd(rest, sub, rp, fuel) {
            None => None,
            Some(ws) => if ws.len() == 0 {
                match del_idx(v, ival) {
                    Err(e) => if opt is Optional {
                        Some(seq![RV::Ok(v)])
                    } else {
                        Some(seq![RV::Err(e)])
                    },
                    Ok(v2) => Some(seq![RV::Ok(v2)]),
                }
            } else {
                Some(set_each(v, ival, opt, ws))
            },
        },
    }
}

/// Set the slot to each produced value in turn.
pub open spec fn set_each(v: ValV, ival: ValV, opt: Opt, ws: OutsV) -> OutsV
    decreases ws.len(),
{
    if ws.len() == 0 {
        Seq::empty()
    } else {
        (match ws[0] {
            Err(e) => seq![RV::Err(e)],
            Ok(w) => match set_idx(v, ival, w) {
                Err(e) => if opt is Optional {
                    seq![RV::Ok(v)]
                } else {
                    seq![RV::Err(e)]
                },
                Ok(v2) => seq![RV::Ok(v2)],
            },
        }) + set_each(v, ival, opt, ws.drop_first())
    }
}

/// Update every element of an array: one element list per combination of
/// the elements' replacement outputs; a deleted slot drops the element.
pub open spec fn elems_go(
    todo: Seq<ValV>,
    rest: Seq<(PartV, Opt)>,
    rp: ReplV,
    fuel: nat,
) -> Option<Seq<Result<Seq<ValV>, ErrorV>>>
    decreases fuel, rsize(rp), 4 * rest.len() + 7, todo.len(),
{
    if todo.len() == 0 {
        Some(seq![Result::<Seq<ValV>, ErrorV>::Ok(Seq::empty())])
    } else {
        match path_upd(rest, todo[0], rp, fuel) {
            None => None,
            Some(ws) => match elems_go(todo.drop_first(), rest, rp, fuel) {
                None => None,
                Some(tails) => if ws.len() == 0 {
                    Some(tails)
                } else {
                    Some(elem_combine(ws, tails))
                },
            },
        }
    }
}

/// Pair every outcome of one element with every tail list.
pub open spec fn elem_combine(ws: OutsV, tails: Seq<Result<Seq<ValV>, ErrorV>>) -> Seq<
    Result<Seq<ValV>, ErrorV>,
>
    decreases ws.len(),
{
    if ws.len() == 0 {
        Seq::empty()
    } else {
        elem_tail(ws[0], tails) + elem_combine(ws.drop_first(), tails)
    }
}

/// Put one element outcome in front of every tail list.
pub open spec fn elem_tail(w: RV, tails: Seq<Result<Seq<ValV>, ErrorV>>) -> Seq<
    Result<Seq<ValV>, ErrorV>,
>
    decreases tails.len(),
{
    if tails.len() == 0 {
        Seq::empty()
    } else {
        seq![
            match w {
                Err(e) => Result::<Seq<ValV>, ErrorV>::Err(e),
                Ok(nw) => match tails[0] {
                    Err(e) => Result::<Seq<ValV>, ErrorV>::Err(e),
                    Ok(more) => Result::<Seq<ValV>, ErrorV>::Ok(seq![nw] + more),
                },
            },
        ] + elem_tail(w, tails.drop_first())
    }
}

/// Update every entry value of an object: one entry list per combination
/// of the entries' replacement outputs; a deleted slot drops the entry.
pub open spec fn ents_go(
    todo: EntriesV,
    rest: Seq<(PartV, Opt)>,
    rp: ReplV,
    fuel: nat,
) -> Option<Seq<Result<EntriesV, ErrorV>>>
    decreases fuel, rsize(rp), 4 * rest.len() + 7, todo.len(),
{
    if todo.len() == 0 {
        Some(seq![Result::<EntriesV, ErrorV>::Ok(Seq::empty())])
    } else {
        match path_upd(rest, todo[0].1, rp, fuel) {
            None => None,
            Some(ws) => match ents_go(todo.drop_first(), rest, rp, fuel) {
                None => None,
                Some(tails) => if ws.len() == 0 {
                    Some(tails)
                } else {
                    Some(ent_combine(todo[0].0, ws, tails))
                },
            },
        }
    }
}

/// Pair every outcome of one entry with every tail list.
pub open spec fn ent_combine(k: Seq<char>, ws: OutsV, tails: Seq<Result<EntriesV, ErrorV>>) -> Seq<
    Result<EntriesV, ErrorV>,
>
    decreases ws.len(),
{
    if ws.len() == 0 {
        Seq::empty()
    } else {
        ent_tail(k, ws[0], tails) + ent_combine(k, ws.drop_first(), tails)
    }
}

/// Put one entry outcome in front of every tail list.
pub open spec fn ent_tail(k: Seq<char>, w: RV, tails: Seq<Result<EntriesV, ErrorV>>) -> Seq<
    Result<EntriesV, ErrorV>,
>
    decreases tails.len(),
{
    if tails.len() == 0 {
        Seq::empty()
    } else {
        seq![
            match w {
                Err(e) => Result::<EntriesV, ErrorV>::Err(e),
                Ok(nw) => match tails[0] {
                    Err(e) => Result::<EntriesV, ErrorV>::Err(e),
                    Ok(more) => Result::<EntriesV, ErrorV>::Ok(seq![(k, nw)] + more),
                },
            },
        ] + ent_tail(k, w, tails.drop_first())
    }
}

/// Evaluate the outputs of a key filter on every element, keyed.
pub open spec fn sortby_go(g: Filter, ctx: Seq<ValV>, elems: Seq<ValV>, fuel: nat) -> Option<
    Result<Seq<PairV>, ErrorV>,
>
    decreases fuel, fsize(g) + 1, elems.len(), 0nat,
{
    if elems.len() == 0 {
        Some(Ok(Seq::empty()))
    } else {
        match eval(g, ctx, elems[0], fuel) {
            None => None,
            Some(ys) => match collect_ok(ys) {
                Err(e) => Some(Err(e)),
                Ok(ks) => match sortby_go(g, ctx, elems.drop_first(), fuel) {
                    None => None,
                    Some(Err(e)) => Some(Err(e)),
                    Some(Ok(rest)) => Some(Ok(seq![(ks, elems[0])] + rest)),
                },
            },
        }
    }
}


/// The step range `range(from; to; by)`: values from `from`, advancing
/// by `by` while the bound is not passed — beyond it for a positive
/// step, under it for a negative one, and mere inequality for a zero
/// step, which can run without end and so consumes fuel.
pub open spec fn range_step_go(from: int, to: int, by: int, fuel: nat) -> Option<OutsV>
    decreases fuel,
{
    let cont = if by > 0 {
        from < to
    } else if by < 0 {
        from > to
    } else {
        from != to
    };
    if !cont {
        Some(Seq::empty())
    } else if fuel == 0 {
        None
    } else {
        match range_step_go(from + by, to, by, (fuel - 1) as nat) {
            None => None,
            Some(rest) => Some(seq![RV::Ok(ValV::Int(from))] + rest),
        }
    }
}

} // verus!
