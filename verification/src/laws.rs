//! General laws of the evaluator, stated over the semantics and proved
//! once for all filters, contexts, values and fuel bounds.

use vstd::prelude::*;

use crate::filter::Filter;
use crate::intr::{explode_spec, implode_chars, implode_spec};
use crate::ops::{MathOp, RV};
use crate::sem::{
    cm_l, cm_r, eval, keep_ok, limit_go, pipe_go, rec_go, take_n, OutsV,
};
use crate::val::ValV;

verus! {

/// Identity: on every context and value, `Id` yields exactly the input,
/// once.
pub proof fn lemma_identity(ctx: Seq<ValV>, v: ValV, fuel: nat)
    ensures
        eval(Filter::Id, ctx, v, fuel) == Some(seq![RV::Ok(v)]),
{
}

/// Composing over a concatenated stream is the concatenation of the
/// compositions (and runs out of fuel exactly when one side does).
pub proof fn lemma_pipe_go_concat(r: Filter, ctx: Seq<ValV>, ys1: OutsV, ys2: OutsV, fuel: nat)
    ensures
        pipe_go(r, ctx, ys1 + ys2, fuel) == (match pipe_go(r, ctx, ys1, fuel) {
            None => None,
            Some(x) => match pipe_go(r, ctx, ys2, fuel) {
                None => None::<OutsV>,
                Some(y) => Some(x + y),
            },
        }),
    decreases ys1.len(),
{
    if ys1.len() == 0 {
        assert(ys1 + ys2 =~= ys2);
        match pipe_go(r, ctx, ys2, fuel) {
            None => {},
            Some(y) => {
                assert(Seq::<RV>::empty() + y =~= y);
            },
        }
    } else {
        assert((ys1 + ys2)[0] == ys1[0]);
        assert((ys1 + ys2).len() > 0);
        assert((ys1 + ys2).drop_first() =~= ys1.drop_first() + ys2);
        lemma_pipe_go_concat(r, ctx, ys1.drop_first(), ys2, fuel);
        let head = match ys1[0] {
            Err(e) => Some(seq![RV::Err(e)]),
            Ok(y) => eval(r, ctx, y, fuel),
        };
        match head {
            None => {},
            Some(hs) => {
                match pipe_go(r, ctx, ys1.drop_first(), fuel) {
                    None => {},
                    Some(rest1) => {
                        match pipe_go(r, ctx, ys2, fuel) {
                            None => {},
                            Some(y) => {
                                assert(hs + (rest1 + y) =~= (hs + rest1) + y);
                            },
                        }
                    },
                }
            },
        }
    }
}

/// Composing through a nested pipe is composing twice.
pub proof fn lemma_pipe_go_assoc(b: Filter, c: Filter, ctx: Seq<ValV>, ys: OutsV, fuel: nat)
    ensures
        pipe_go(Filter::Pipe(Box::new(b), false, Box::new(c)), ctx, ys, fuel) == (match pipe_go(
            b,
            ctx,
            ys,
            fuel,
        ) {
            None => None,
            Some(zs) => pipe_go(c, ctx, zs, fuel),
        }),
    decreases ys.len(),
{
    let bc = Filter::Pipe(Box::new(b), false, Box::new(c));
    if ys.len() == 0 {
    } else {
        lemma_pipe_go_assoc(b, c, ctx, ys.drop_first(), fuel);
        match ys[0] {
            Err(e) => {
                let se = seq![RV::Err(e)];
                assert(se.drop_first() =~= Seq::<RV>::empty());
                assert(pipe_go(c, ctx, se.drop_first(), fuel) == Some(Seq::<RV>::empty()));
                assert(se + Seq::<RV>::empty() =~= se);
                assert(pipe_go(c, ctx, se, fuel) == Some(se));
                match pipe_go(b, ctx, ys.drop_first(), fuel) {
                    None => {},
                    Some(zrest) => {
                        lemma_pipe_go_concat(c, ctx, se, zrest, fuel);
                    },
                }
            },
            Ok(y) => {
                assert(eval(bc, ctx, y, fuel) == (match eval(b, ctx, y, fuel) {
                    None => None,
                    Some(bs) => pipe_go(c, ctx, bs, fuel),
                }));
                match eval(b, ctx, y, fuel) {
                    None => {
                        assert(pipe_go(bc, ctx, ys, fuel) is None);
                        assert(pipe_go(b, ctx, ys, fuel) is None);
                    },
                    Some(bs) => {
                        match pipe_go(b, ctx, ys.drop_first(), fuel) {
                            None => {
                                assert(pipe_go(b, ctx, ys, fuel) is None);
                            },
                            Some(zrest) => {
                                assert(pipe_go(b, ctx, ys, fuel) == Some(bs + zrest));
                                lemma_pipe_go_concat(c, ctx, bs, zrest, fuel);
                            },
                        }
                    },
                }
            },
        }
    }
}

/// Pipe associativity: `a | (b | c)` and `(a | b) | c` yield the same
/// stream, on every context, value and fuel bound.
pub proof fn lemma_pipe_assoc(a: Filter, b: Filter, c: Filter, ctx: Seq<ValV>, v: ValV, fuel: nat)
    ensures
        eval(
            Filter::Pipe(
                Box::new(a),
                false,
                Box::new(Filter::Pipe(Box::new(b), false, Box::new(c))),
            ),
            ctx,
            v,
            fuel,
        ) == eval(
            Filter::Pipe(
                Box::new(Filter::Pipe(Box::new(a), false, Box::new(b))),
                false,
                Box::new(c),
            ),
            ctx,
            v,
            fuel,
        ),
{
    let bc = Filter::Pipe(Box::new(b), false, Box::new(c));
    let ab = Filter::Pipe(Box::new(a), false, Box::new(b));
    let lhs = Filter::Pipe(Box::new(a), false, Box::new(bc));
    let rhs = Filter::Pipe(Box::new(ab), false, Box::new(c));
    assert(eval(lhs, ctx, v, fuel) == (match eval(a, ctx, v, fuel) {
        None => None,
        Some(ys) => pipe_go(bc, ctx, ys, fuel),
    }));
    assert(eval(ab, ctx, v, fuel) == (match eval(a, ctx, v, fuel) {
        None => None,
        Some(ys) => pipe_go(b, ctx, ys, fuel),
    }));
    assert(eval(rhs, ctx, v, fuel) == (match eval(ab, ctx, v, fuel) {
        None => None,
        Some(zs) => pipe_go(c, ctx, zs, fuel),
    }));
    match eval(a, ctx, v, fuel) {
        None => {},
        Some(ys) => {
            lemma_pipe_go_assoc(b, c, ctx, ys, fuel);
        },
    }
}

/// Comma distribution: `(a, b) | c` is `a | c` followed by `b | c`, on
/// every context, value and fuel bound.
pub proof fn lemma_comma_distrib(
    a: Filter,
    b: Filter,
    c: Filter,
    ctx: Seq<ValV>,
    v: ValV,
    fuel: nat,
)
    ensures
        eval(
            Filter::Pipe(
                Box::new(Filter::Comma(Box::new(a), Box::new(b))),
                false,
                Box::new(c),
            ),
            ctx,
            v,
            fuel,
        ) == (match eval(Filter::Pipe(Box::new(a), false, Box::new(c)), ctx, v, fuel) {
            None => None,
            Some(x) => match eval(Filter::Pipe(Box::new(b), false, Box::new(c)), ctx, v, fuel) {
                None => None::<OutsV>,
                Some(y) => Some(x + y),
            },
        }),
{
    let cm = Filter::Comma(Box::new(a), Box::new(b));
    let lhs = Filter::Pipe(Box::new(cm), false, Box::new(c));
    assert(eval(cm, ctx, v, fuel) == (match eval(a, ctx, v, fuel) {
        None => None,
        Some(xs) => match eval(b, ctx, v, fuel) {
            None => None::<OutsV>,
            Some(zs) => Some(xs + zs),
        },
    }));
    assert(eval(lhs, ctx, v, fuel) == (match eval(cm, ctx, v, fuel) {
        None => None,
        Some(ys) => pipe_go(c, ctx, ys, fuel),
    }));
    match eval(a, ctx, v, fuel) {
        None => {},
        Some(xs) => {
            match eval(b, ctx, v, fuel) {
                None => {},
                Some(zs) => {
                    lemma_pipe_go_concat(c, ctx, xs, zs, fuel);
                },
            }
        },
    }
}

/// Every element kept from a stream is a success.
pub proof fn lemma_keep_ok_all(rs: OutsV)
    ensures
        forall|i: int| 0 <= i < keep_ok(rs).len() ==> (#[trigger] keep_ok(rs)[i]) is Ok,
    decreases rs.len(),
{
    if rs.len() > 0 {
        lemma_keep_ok_all(rs.drop_first());
    }
}

/// `try` swallows: the output of `Try(f)` holds no error, on every
/// context, value and fuel bound.
pub proof fn lemma_try_swallows(f: Filter, ctx: Seq<ValV>, v: ValV, fuel: nat)
    ensures
        eval(Filter::Try(Box::new(f)), ctx, v, fuel) matches Some(s) ==> forall|i: int|
            0 <= i < s.len() ==> (#[trigger] s[i]) is Ok,
{
    match eval(f, ctx, v, fuel) {
        None => {},
        Some(ys) => {
            lemma_keep_ok_all(ys);
        },
    }
}

/// The head of a recursion: `recurse(f)` yields its input first, and the
/// rest is the preorder expansion of the children.
pub proof fn lemma_recurse_order(g: Filter, ctx: Seq<ValV>, v: ValV, fuel: nat)
    requires
        fuel > 0,
    ensures
        eval(Filter::Recurse(Box::new(g)), ctx, v, fuel) matches Some(s) ==> {
            &&& s.len() >= 1
            &&& s[0] == RV::Ok(v)
            &&& match eval(g, ctx, v, fuel) {
                Some(ys) => rec_go(
                    Filter::Recurse(Box::new(g)),
                    ctx,
                    ys,
                    (fuel - 1) as nat,
                ) matches Some(rest) && s == seq![RV::Ok(v)] + rest,
                None => false,
            }
        },
{
}

/// The bound of `limit`: with a literal bound `n >= 0`, at most `n`
/// elements come out, on every context, value and fuel bound.
pub proof fn lemma_limit_bound(n: i64, f: Filter, ctx: Seq<ValV>, v: ValV, fuel: nat)
    requires
        n >= 0,
    ensures
        eval(
            Filter::Limit(Box::new(Filter::Int(n)), Box::new(f)),
            ctx,
            v,
            fuel,
        ) matches Some(s) ==> s.len() <= n,
{
    let ns = seq![RV::Ok(ValV::Int(n as int))];
    assert(eval(Filter::Int(n), ctx, v, fuel) == Some(ns));
    assert(ns.drop_first() =~= Seq::<RV>::empty());
    assert(limit_go(f, ctx, v, ns.drop_first(), fuel) == Some(Seq::<RV>::empty()));
    if n > 0 {
        match eval(f, ctx, v, fuel) {
            None => {
                assert(limit_go(f, ctx, v, ns, fuel) is None);
            },
            Some(zs) => {
                assert(limit_go(f, ctx, v, ns, fuel) == Some(
                    take_n(zs, n as int) + Seq::<RV>::empty(),
                ));
                assert(take_n(zs, n as int).len() <= n);
                assert(take_n(zs, n as int) + Seq::<RV>::empty() =~= take_n(zs, n as int));
            },
        }
    } else {
        assert(limit_go(f, ctx, v, ns, fuel) == Some(
            Seq::<RV>::empty() + Seq::<RV>::empty(),
        ));
        assert(Seq::<RV>::empty() + Seq::<RV>::empty() =~= Seq::<RV>::empty());
    }
}

/// One row of the product has one outcome per right element.
pub proof fn lemma_cm_r_len(op: MathOp, y: RV, rs: OutsV)
    ensures
        cm_r(op, y, rs).len() == rs.len(),
    decreases rs.len(),
{
    if rs.len() > 0 {
        lemma_cm_r_len(op, y, rs.drop_first());
    }
}

/// The product has one outcome per pair.
pub proof fn lemma_cm_l_len(op: MathOp, ls: OutsV, rs: OutsV)
    ensures
        cm_l(op, ls, rs).len() == ls.len() * rs.len(),
    decreases ls.len(),
{
    if ls.len() == 0 {
        assert(0 * rs.len() == 0) by (nonlinear_arith);
    } else {
        lemma_cm_r_len(op, ls[0], rs);
        lemma_cm_l_len(op, ls.drop_first(), rs);
        assert(rs.len() + (ls.len() - 1) * rs.len() == ls.len() * rs.len()) by (nonlinear_arith);
    }
}

/// Cartesian cardinality: when the sides of an arithmetic operator yield
/// `m` and `k` values, the operator yields exactly `m * k` outcomes.
pub proof fn lemma_cartesian_card(
    l: Filter,
    op: MathOp,
    r: Filter,
    ctx: Seq<ValV>,
    v: ValV,
    fuel: nat,
)
    ensures
        match (eval(l, ctx, v, fuel), eval(r, ctx, v, fuel)) {
            (Some(ls), Some(rs)) => eval(
                Filter::Math(Box::new(l), op, Box::new(r)),
                ctx,
                v,
                fuel,
            ) matches Some(s) && s.len() == ls.len() * rs.len(),
            _ => eval(Filter::Math(Box::new(l), op, Box::new(r)), ctx, v, fuel) is None,
        },
{
    match (eval(l, ctx, v, fuel), eval(r, ctx, v, fuel)) {
        (Some(ls), Some(rs)) => {
            lemma_cm_l_len(op, ls, rs);
        },
        _ => {},
    }
}

/// Imploding the codes of a character sequence gives it back.
pub proof fn lemma_implode_codes(s: Seq<char>)
    ensures
        implode_chars(Seq::new(s.len(), |i: int| ValV::Int(s[i] as u32 as int))) == Ok::<
            Seq<char>,
            crate::ops::ErrorV,
        >(s),
    decreases s.len(),
{
    let codes = Seq::new(s.len(), |i: int| ValV::Int(s[i] as u32 as int));
    if s.len() == 0 {
        assert(implode_chars(codes) == Ok::<Seq<char>, crate::ops::ErrorV>(Seq::empty()));
        assert(Seq::<char>::empty() =~= s);
    } else {
        let c = s[0];
        vstd::utf8::char_is_scalar(c);
        vstd::utf8::char_u32_cast(c, c as u32);
        lemma_implode_codes(s.drop_first());
        assert(codes.drop_first() =~= Seq::new(
            s.drop_first().len(),
            |i: int| ValV::Int(s.drop_first()[i] as u32 as int),
        ));
        assert(seq![(c as u32) as char] + s.drop_first() =~= s);
    }
}

/// Explode and implode are inverse: for every string value, imploding
/// its exploded codepoints gives the string back.
pub proof fn lemma_explode_implode(s: Seq<char>)
    ensures
        explode_spec(ValV::Str(s)) matches Ok(codes) && implode_spec(codes) == Ok::<
            ValV,
            crate::ops::ErrorV,
        >(ValV::Str(s)),
{
    lemma_implode_codes(s);
}



/// Setting the same key to the same value twice is setting it once.
pub proof fn lemma_obj_set_idem(o: crate::sem::EntriesV, k: Seq<char>, w: ValV)
    ensures
        crate::ops::obj_set(crate::ops::obj_set(o, k, w), k, w) == crate::ops::obj_set(o, k, w),
    decreases o.len(),
{
    if o.len() == 0 {
        let one = seq![(k, w)];
        assert(crate::ops::obj_set(o, k, w) == one);
        assert(one.drop_first() =~= Seq::<(Seq<char>, ValV)>::empty());
        assert(seq![(k, w)] + one.drop_first() =~= one);
    } else if o[0].0 == k {
        let r = seq![(k, w)] + o.drop_first();
        assert(crate::ops::obj_set(o, k, w) == r);
        assert(r[0] == (k, w));
        assert(r.drop_first() =~= o.drop_first());
        assert(seq![(k, w)] + r.drop_first() =~= r);
    } else {
        lemma_obj_set_idem(o.drop_first(), k, w);
        let r = seq![o[0]] + crate::ops::obj_set(o.drop_first(), k, w);
        assert(crate::ops::obj_set(o, k, w) == r);
        assert(r[0] == o[0]);
        assert(r.drop_first() =~= crate::ops::obj_set(o.drop_first(), k, w));
        assert(seq![r[0]] + crate::ops::obj_set(r.drop_first(), k, w) =~= r);
    }
}

} // verus!
