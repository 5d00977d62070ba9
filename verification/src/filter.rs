//! The filter language: a tree of filter expressions, argument
//! substitution, and the table of named builtins.

use vstd::prelude::*;

use crate::ops::{MathOp, OrdOp};

verus! {

/// Whether a failing path part surfaces its error or swallows it.
#[derive(Clone, Copy, Debug, PartialEq, Eq, Structural)]
pub enum Opt {
    Optional,
    Strict,
}

/// One part of a path: a single index expression, or a range with
/// optional bounds (a range without bounds iterates a whole array or
/// object).
pub enum Part {
    Index(Filter),
    Range(Option<Box<Filter>>, Option<Box<Filter>>),
}

/// The parts of a path, in order, each with its strictness.
pub enum PartList {
    Nil,
    Cons(Part, Opt, Box<PartList>),
}

/// Key-value pairs of an object construction, or condition-branch pairs
/// of an `if`-cascade.
pub enum PairList {
    Nil,
    Cons(Filter, Filter, Box<PairList>),
}

/// A filter: a function from a value to a stream of value-or-error
/// outcomes.
pub enum Filter {
    /// Yield the input.
    Id,
    /// Yield an integer literal.
    Int(i64),
    /// Yield a string literal.
    Str(String),
    /// Collect the outputs of the inner filter into one array.
    Array(Option<Box<Filter>>),
    /// Build objects from the cartesian product of the pair outputs.
    Object(Box<PairList>),
    /// Keep only the successful outputs.
    Try(Box<Filter>),
    /// Run the handler on each error's value.
    Catch(Box<Filter>, Box<Filter>),
    /// Negate every output numerically.
    Neg(Box<Filter>),
    /// Compose; when the flag is set, the left side binds a variable.
    Pipe(Box<Filter>, bool, Box<Filter>),
    /// Concatenate the outputs of both sides.
    Comma(Box<Filter>, Box<Filter>),
    /// The truthy outputs and errors of the left side, else the right.
    Alt(Box<Filter>, Box<Filter>),
    /// A cascade of condition-branch pairs with a final alternative.
    IfThenElse(Box<PairList>, Box<Filter>),
    /// Fold the middle filter's outputs through the last one.
    Reduce(Box<Filter>, Box<Filter>, Box<Filter>),
    /// Follow a path from an initial filter.
    Path(Box<Filter>, Box<PartList>),
    /// Set the slots of a path filter to each output of a filter.
    Assign(Box<Filter>, Box<Filter>),
    /// Transform the slots of a path filter by a filter.
    Update(Box<Filter>, Box<Filter>),
    /// Short-circuit conjunction (`false`) or disjunction (`true`).
    Logic(Box<Filter>, bool, Box<Filter>),
    /// An arithmetic operator over the cartesian product.
    Math(Box<Filter>, MathOp, Box<Filter>),
    /// An ordering operator over the cartesian product.
    Ord(Box<Filter>, OrdOp, Box<Filter>),
    /// Yield nothing.
    Empty,
    /// Throw the input as an error.
    Error,
    /// The length of the input.
    Length,
    /// The sorted keys of an object, or the indices of an array.
    Keys,
    /// Round down; the identity on integers.
    Floor,
    /// Round to nearest; the identity on integers.
    Round,
    /// Round up; the identity on integers.
    Ceil,
    /// Parse the input string as JSON.
    FromJson,
    /// Serialize the input to a JSON string.
    ToJson,
    /// The codepoints of a string.
    Explode,
    /// The string of an array of codepoints.
    Implode,
    /// ASCII-lowercase a string.
    AsciiDowncase,
    /// ASCII-uppercase a string.
    AsciiUpcase,
    /// Reverse an array.
    Reverse,
    /// Sort an array by the value order.
    Sort,
    /// Sort an array by the outputs of a key filter.
    SortBy(Box<Filter>),
    /// Whether the input has the produced key or index.
    Has(Box<Filter>),
    /// Split a string by the produced separator.
    Split(Box<Filter>),
    /// The first output of the inner filter, if any.
    First(Box<Filter>),
    /// The last output of the inner filter, if any.
    Last(Box<Filter>),
    /// The preorder closure of a child-generating filter.
    Recurse(Box<Filter>),
    /// Whether the input structurally contains each produced value.
    Contains(Box<Filter>),
    /// At most `n` outputs of the second filter, per produced `n`.
    Limit(Box<Filter>, Box<Filter>),
    /// The integers from one bound up to another, per produced pair.
    Range(Box<Filter>, Box<Filter>),
    /// Evaluate the inner filter with `n` bindings dropped.
    SkipCtx(usize, Box<Filter>),
    /// The value bound `n` frames up the context.
    Var(usize),
    /// A placeholder for a definition argument; illegal at evaluation.
    Arg(usize),
}

/// The size of a filter tree: every node and part counts.
pub open spec fn fsize(f: Filter) -> nat
    decreases f,
{
    match f {
        Filter::Id => 1,
        Filter::Int(_) => 1,
        Filter::Str(_) => 1,
        Filter::Array(inner) => match inner {
            Some(g) => 2 + fsize(*g),
            None => 1,
        },
        Filter::Object(o) => 2 + plsize(*o),
        Filter::Try(g) => 1 + fsize(*g),
        Filter::Catch(g, h) => 1 + fsize(*g) + fsize(*h),
        Filter::Neg(g) => 1 + fsize(*g),
        Filter::Pipe(l, _, r) => 1 + fsize(*l) + fsize(*r),
        Filter::Comma(l, r) => 1 + fsize(*l) + fsize(*r),
        Filter::Alt(l, r) => 1 + fsize(*l) + fsize(*r),
        Filter::IfThenElse(cs, e) => 2 + plsize(*cs) + fsize(*e),
        Filter::Reduce(xs, init, g) => 1 + fsize(*xs) + fsize(*init) + fsize(*g),
        Filter::Path(l, p) => 1 + fsize(*l) + ptsize(*p),
        Filter::Assign(p, g) => 2 + fsize(*p) + fsize(*g),
        Filter::Update(p, g) => 2 + fsize(*p) + fsize(*g),
        Filter::Logic(l, _, r) => 1 + fsize(*l) + fsize(*r),
        Filter::Math(l, _, r) => 1 + fsize(*l) + fsize(*r),
        Filter::Ord(l, _, r) => 1 + fsize(*l) + fsize(*r),
        Filter::Empty => 1,
        Filter::Error => 1,
        Filter::Length => 1,
        Filter::Keys => 1,
        Filter::Floor => 1,
        Filter::Round => 1,
        Filter::Ceil => 1,
        Filter::FromJson => 1,
        Filter::ToJson => 1,
        Filter::Explode => 1,
        Filter::Implode => 1,
        Filter::AsciiDowncase => 1,
        Filter::AsciiUpcase => 1,
        Filter::Reverse => 1,
        Filter::Sort => 1,
        Filter::SortBy(g) => 2 + fsize(*g),
        Filter::Has(g) => 1 + fsize(*g),
        Filter::Split(g) => 1 + fsize(*g),
        Filter::First(g) => 1 + fsize(*g),
        Filter::Last(g) => 1 + fsize(*g),
        Filter::Recurse(g) => 1 + fsize(*g),
        Filter::Contains(g) => 1 + fsize(*g),
        Filter::Limit(n, g) => 1 + fsize(*n) + fsize(*g),
        Filter::Range(l, u) => 1 + fsize(*l) + fsize(*u),
        Filter::SkipCtx(_, g) => 1 + fsize(*g),
        Filter::Var(_) => 1,
        Filter::Arg(_) => 1,
    }
}

/// The size of a pair list.
pub open spec fn plsize(o: PairList) -> nat
    decreases o,
{
    match o {
        PairList::Nil => 0,
        PairList::Cons(k, v, rest) => 1 + fsize(k) + fsize(v) + plsize(*rest),
    }
}

/// The size of one path part.
pub open spec fn partsize(p: Part) -> nat
    decreases p,
{
    match p {
        Part::Index(g) => 1 + fsize(g),
        Part::Range(a, b) => {
            1 + (match a {
                Some(g) => fsize(*g),
                None => 0,
            }) + (match b {
                Some(g) => fsize(*g),
                None => 0,
            })
        },
    }
}

/// The size of a part list.
pub open spec fn ptsize(p: PartList) -> nat
    decreases p,
{
    match p {
        PartList::Nil => 1,
        PartList::Cons(part, _, rest) => 1 + partsize(part) + ptsize(*rest),
    }
}

impl Clone for Filter {
    /// A clone is equal to the original.
    fn clone(&self) -> (res: Self)
        ensures
            res == *self,
        decreases *self,
    {
        match self {
            Filter::Id => Filter::Id,
            Filter::Int(i) => Filter::Int(*i),
            Filter::Str(s) => Filter::Str(s.clone()),
            Filter::Array(inner) => Filter::Array(
                match inner {
                    Some(g) => Some(Box::new((**g).clone())),
                    None => None,
                },
            ),
            Filter::Object(o) => Filter::Object(Box::new((**o).clone())),
            Filter::Try(g) => Filter::Try(Box::new((**g).clone())),
            Filter::Catch(g, h) => Filter::Catch(Box::new((**g).clone()), Box::new((**h).clone())),
            Filter::Neg(g) => Filter::Neg(Box::new((**g).clone())),
            Filter::Pipe(l, b, r) => Filter::Pipe(
                Box::new((**l).clone()),
                *b,
                Box::new((**r).clone()),
            ),
            Filter::Comma(l, r) => Filter::Comma(Box::new((**l).clone()), Box::new((**r).clone())),
            Filter::Alt(l, r) => Filter::Alt(Box::new((**l).clone()), Box::new((**r).clone())),
            Filter::IfThenElse(cs, e) => Filter::IfThenElse(
                Box::new((**cs).clone()),
                Box::new((**e).clone()),
            ),
            Filter::Reduce(xs, init, g) => Filter::Reduce(
                Box::new((**xs).clone()),
                Box::new((**init).clone()),
                Box::new((**g).clone()),
            ),
            Filter::Path(l, p) => Filter::Path(Box::new((**l).clone()), Box::new((**p).clone())),
            Filter::Assign(p, g) => Filter::Assign(Box::new((**p).clone()), Box::new((**g).clone())),
            Filter::Update(p, g) => Filter::Update(Box::new((**p).clone()), Box::new((**g).clone())),
            Filter::Logic(l, b, r) => Filter::Logic(
                Box::new((**l).clone()),
                *b,
                Box::new((**r).clone()),
            ),
            Filter::Math(l, op, r) => Filter::Math(
                Box::new((**l).clone()),
                *op,
                Box::new((**r).clone()),
            ),
            Filter::Ord(l, op, r) => Filter::Ord(
                Box::new((**l).clone()),
                *op,
                Box::new((**r).clone()),
            ),
            Filter::Empty => Filter::Empty,
            Filter::Error => Filter::Error,
            Filter::Length => Filter::Length,
            Filter::Keys => Filter::Keys,
            Filter::Floor => Filter::Floor,
            Filter::Round => Filter::Round,
            Filter::Ceil => Filter::Ceil,
            Filter::FromJson => Filter::FromJson,
            Filter::ToJson => Filter::ToJson,
            Filter::Explode => Filter::Explode,
            Filter::Implode => Filter::Implode,
            Filter::AsciiDowncase => Filter::AsciiDowncase,
            Filter::AsciiUpcase => Filter::AsciiUpcase,
            Filter::Reverse => Filter::Reverse,
            Filter::Sort => Filter::Sort,
            Filter::SortBy(g) => Filter::SortBy(Box::new((**g).clone())),
            Filter::Has(g) => Filter::Has(Box::new((**g).clone())),
            Filter::Split(g) => Filter::Split(Box::new((**g).clone())),
            Filter::First(g) => Filter::First(Box::new((**g).clone())),
            Filter::Last(g) => Filter::Last(Box::new((**g).clone())),
            Filter::Recurse(g) => Filter::Recurse(Box::new((**g).clone())),
            Filter::Contains(g) => Filter::Contains(Box::new((**g).clone())),
            Filter::Limit(n, g) => Filter::Limit(Box::new((**n).clone()), Box::new((**g).clone())),
            Filter::Range(l, u) => Filter::Range(Box::new((**l).clone()), Box::new((**u).clone())),
            Filter::SkipCtx(n, g) => Filter::SkipCtx(*n, Box::new((**g).clone())),
            Filter::Var(n) => Filter::Var(*n),
            Filter::Arg(n) => Filter::Arg(*n),
        }
    }
}

impl Clone for Part {
    /// A clone is equal to the original.
    fn clone(&self) -> (res: Self)
        ensures
            res == *self,
        decreases *self,
    {
        match self {
            Part::Index(g) => Part::Index(g.clone()),
            Part::Range(a, b) => Part::Range(
                match a {
                    Some(g) => Some(Box::new((**g).clone())),
                    None => None,
                },
                match b {
                    Some(g) => Some(Box::new((**g).clone())),
                    None => None,
                },
            ),
        }
    }
}

impl Clone for PartList {
    /// A clone is equal to the original.
    fn clone(&self) -> (res: Self)
        ensures
            res == *self,
        decreases *self,
    {
        match self {
            PartList::Nil => PartList::Nil,
            PartList::Cons(part, opt, rest) => PartList::Cons(
                part.clone(),
                *opt,
                Box::new((**rest).clone()),
            ),
        }
    }
}

impl Clone for PairList {
    /// A clone is equal to the original.
    fn clone(&self) -> (res: Self)
        ensures
            res == *self,
        decreases *self,
    {
        match self {
            PairList::Nil => PairList::Nil,
            PairList::Cons(k, v, rest) => PairList::Cons(
                k.clone(),
                v.clone(),
                Box::new((**rest).clone()),
            ),
        }
    }
}

impl Default for Filter {
    /// The default filter is the identity.
    fn default() -> (res: Self)
        ensures
            res == Filter::Id,
    {
        Filter::Id
    }
}

/// Substitution of argument placeholders: every `Arg(i)` becomes
/// `args[i]`, recursively.
pub open spec fn subst_spec(f: Filter, args: Seq<Filter>) -> Filter
    decreases f,
{
    match f {
        Filter::Arg(a) => args[a as int],
        Filter::Array(inner) => Filter::Array(
            match inner {
                Some(g) => Some(Box::new(subst_spec(*g, args))),
                None => None,
            },
        ),
        Filter::Object(o) => Filter::Object(Box::new(subst_pairs(*o, args))),
        Filter::Try(g) => Filter::Try(Box::new(subst_spec(*g, args))),
        Filter::Catch(g, h) => Filter::Catch(
            Box::new(subst_spec(*g, args)),
            Box::new(subst_spec(*h, args)),
        ),
        Filter::Neg(g) => Filter::Neg(Box::new(subst_spec(*g, args))),
        Filter::Pipe(l, b, r) => Filter::Pipe(
            Box::new(subst_spec(*l, args)),
            b,
            Box::new(subst_spec(*r, args)),
        ),
        Filter::Comma(l, r) => Filter::Comma(
            Box::new(subst_spec(*l, args)),
            Box::new(subst_spec(*r, args)),
        ),
        Filter::Alt(l, r) => Filter::Alt(
            Box::new(subst_spec(*l, args)),
            Box::new(subst_spec(*r, args)),
        ),
        Filter::IfThenElse(cs, e) => Filter::IfThenElse(
            Box::new(subst_pairs(*cs, args)),
            Box::new(subst_spec(*e, args)),
        ),
        Filter::Reduce(xs, init, g) => Filter::Reduce(
            Box::new(subst_spec(*xs, args)),
            Box::new(subst_spec(*init, args)),
            Box::new(subst_spec(*g, args)),
        ),
        Filter::Path(l, p) => Filter::Path(
            Box::new(subst_spec(*l, args)),
            Box::new(subst_parts(*p, args)),
        ),
        Filter::Assign(p, g) => Filter::Assign(
            Box::new(subst_spec(*p, args)),
            Box::new(subst_spec(*g, args)),
        ),
        Filter::Update(p, g) => Filter::Update(
            Box::new(subst_spec(*p, args)),
            Box::new(subst_spec(*g, args)),
        ),
        Filter::Logic(l, b, r) => Filter::Logic(
            Box::new(subst_spec(*l, args)),
            b,
            Box::new(subst_spec(*r, args)),
        ),
        Filter::Math(l, op, r) => Filter::Math(
            Box::new(subst_spec(*l, args)),
            op,
            Box::new(subst_spec(*r, args)),
        ),
        Filter::Ord(l, op, r) => Filter::Ord(
            Box::new(subst_spec(*l, args)),
            op,
            Box::new(subst_spec(*r, args)),
        ),
        Filter::SortBy(g) => Filter::SortBy(Box::new(subst_spec(*g, args))),
        Filter::Has(g) => Filter::Has(Box::new(subst_spec(*g, args))),
        Filter::Split(g) => Filter::Split(Box::new(subst_spec(*g, args))),
        Filter::First(g) => Filter::First(Box::new(subst_spec(*g, args))),
        Filter::Last(g) => Filter::Last(Box::new(subst_spec(*g, args))),
        Filter::Recurse(g) => Filter::Recurse(Box::new(subst_spec(*g, args))),
        Filter::Contains(g) => Filter::Contains(Box::new(subst_spec(*g, args))),
        Filter::Limit(n, g) => Filter::Limit(
            Box::new(subst_spec(*n, args)),
            Box::new(subst_spec(*g, args)),
        ),
        Filter::Range(l, u) => Filter::Range(
            Box::new(subst_spec(*l, args)),
            Box::new(subst_spec(*u, args)),
        ),
        Filter::SkipCtx(n, g) => Filter::SkipCtx(n, Box::new(subst_spec(*g, args))),
        other => other,
    }
}

/// Substitution inside a pair list.
pub open spec fn subst_pairs(o: PairList, args: Seq<Filter>) -> PairList
    decreases o,
{
    match o {
        PairList::Nil => PairList::Nil,
        PairList::Cons(k, v, rest) => PairList::Cons(
            subst_spec(k, args),
            subst_spec(v, args),
            Box::new(subst_pairs(*rest, args)),
        ),
    }
}

/// Substitution inside a part list.
pub open spec fn subst_parts(p: PartList, args: Seq<Filter>) -> PartList
    decreases p,
{
    match p {
        PartList::Nil => PartList::Nil,
        PartList::Cons(part, opt, rest) => PartList::Cons(
            subst_part(part, args),
            opt,
            Box::new(subst_parts(*rest, args)),
        ),
    }
}

/// Substitution inside one path part.
pub open spec fn subst_part(p: Part, args: Seq<Filter>) -> Part
    decreases p,
{
    match p {
        Part::Index(g) => Part::Index(subst_spec(g, args)),
        Part::Range(a, b) => Part::Range(
            match a {
                Some(g) => Some(Box::new(subst_spec(*g, args))),
                None => None,
            },
            match b {
                Some(g) => Some(Box::new(subst_spec(*g, args))),
                None => None,
            },
        ),
    }
}

/// Whether every argument placeholder is below `n`.
pub open spec fn args_below(f: Filter, n: nat) -> bool
    decreases f,
{
    match f {
        Filter::Arg(a) => a < n,
        Filter::Array(inner) => match inner {
            Some(g) => args_below(*g, n),
            None => true,
        },
        Filter::Object(o) => pairs_args_below(*o, n),
        Filter::Try(g) => args_below(*g, n),
        Filter::Catch(g, h) => args_below(*g, n) && args_below(*h, n),
        Filter::Neg(g) => args_below(*g, n),
        Filter::Pipe(l, _, r) => args_below(*l, n) && args_below(*r, n),
        Filter::Comma(l, r) => args_below(*l, n) && args_below(*r, n),
        Filter::Alt(l, r) => args_below(*l, n) && args_below(*r, n),
        Filter::IfThenElse(cs, e) => pairs_args_below(*cs, n) && args_below(*e, n),
        Filter::Reduce(xs, init, g) => args_below(*xs, n) && args_below(*init, n) && args_below(
            *g,
            n,
        ),
        Filter::Path(l, p) => args_below(*l, n) && parts_args_below(*p, n),
        Filter::Assign(p, g) => args_below(*p, n) && args_below(*g, n),
        Filter::Update(p, g) => args_below(*p, n) && args_below(*g, n),
        Filter::Logic(l, _, r) => args_below(*l, n) && args_below(*r, n),
        Filter::Math(l, _, r) => args_below(*l, n) && args_below(*r, n),
        Filter::Ord(l, _, r) => args_below(*l, n) && args_below(*r, n),
        Filter::SortBy(g) => args_below(*g, n),
        Filter::Has(g) => args_below(*g, n),
        Filter::Split(g) => args_below(*g, n),
        Filter::First(g) => args_below(*g, n),
        Filter::Last(g) => args_below(*g, n),
        Filter::Recurse(g) => args_below(*g, n),
        Filter::Contains(g) => args_below(*g, n),
        Filter::Limit(m, g) => args_below(*m, n) && args_below(*g, n),
        Filter::Range(l, u) => args_below(*l, n) && args_below(*u, n),
        Filter::SkipCtx(_, g) => args_below(*g, n),
        _ => true,
    }
}

/// Whether every placeholder of a pair list is below `n`.
pub open spec fn pairs_args_below(o: PairList, n: nat) -> bool
    decreases o,
{
    match o {
        PairList::Nil => true,
        PairList::Cons(k, v, rest) => args_below(k, n) && args_below(v, n) && pairs_args_below(
            *rest,
            n,
        ),
    }
}

/// Whether every placeholder of a part list is below `n`.
pub open spec fn parts_args_below(p: PartList, n: nat) -> bool
    decreases p,
{
    match p {
        PartList::Nil => true,
        PartList::Cons(part, _, rest) => (match part {
            Part::Index(g) => args_below(g, n),
            Part::Range(a, b) => (match a {
                Some(g) => args_below(*g, n),
                None => true,
            }) && (match b {
                Some(g) => args_below(*g, n),
                None => true,
            }),
        }) && parts_args_below(*rest, n),
    }
}

impl Filter {
    /// Replace every argument placeholder by the corresponding filter.
    pub fn subst(self, args: &Vec<Filter>) -> (res: Self)
        requires
            args_below(self, args@.len() as nat),
        ensures
            res == subst_spec(self, args@),
        decreases self,
    {
        match self {
            Filter::Arg(a) => args[a].clone(),
            Filter::Array(inner) => Filter::Array(
                match inner {
                    Some(g) => Some(Box::new((*g).subst(args))),
                    None => None,
                },
            ),
            Filter::Object(o) => Filter::Object(Box::new(subst_pairs_exec(*o, args))),
            Filter::Try(g) => Filter::Try(Box::new((*g).subst(args))),
            Filter::Catch(g, h) => Filter::Catch(
                Box::new((*g).subst(args)),
                Box::new((*h).subst(args)),
            ),
            Filter::Neg(g) => Filter::Neg(Box::new((*g).subst(args))),
            Filter::Pipe(l, b, r) => Filter::Pipe(
                Box::new((*l).subst(args)),
                b,
                Box::new((*r).subst(args)),
            ),
            Filter::Comma(l, r) => Filter::Comma(
                Box::new((*l).subst(args)),
                Box::new((*r).subst(args)),
            ),
            Filter::Alt(l, r) => Filter::Alt(
                Box::new((*l).subst(args)),
                Box::new((*r).subst(args)),
            ),
            Filter::IfThenElse(cs, e) => Filter::IfThenElse(
                Box::new(subst_pairs_exec(*cs, args)),
                Box::new((*e).subst(args)),
            ),
            Filter::Reduce(xs, init, g) => Filter::Reduce(
                Box::new((*xs).subst(args)),
                Box::new((*init).subst(args)),
                Box::new((*g).subst(args)),
            ),
            Filter::Path(l, p) => Filter::Path(
                Box::new((*l).subst(args)),
                Box::new(subst_parts_exec(*p, args)),
            ),
            Filter::Assign(p, g) => Filter::Assign(
                Box::new((*p).subst(args)),
                Box::new((*g).subst(args)),
            ),
            Filter::Update(p, g) => Filter::Update(
                Box::new((*p).subst(args)),
                Box::new((*g).subst(args)),
            ),
            Filter::Logic(l, b, r) => Filter::Logic(
                Box::new((*l).subst(args)),
                b,
                Box::new((*r).subst(args)),
            ),
            Filter::Math(l, op, r) => Filter::Math(
                Box::new((*l).subst(args)),
                op,
                Box::new((*r).subst(args)),
            ),
            Filter::Ord(l, op, r) => Filter::Ord(
                Box::new((*l).subst(args)),
                op,
                Box::new((*r).subst(args)),
            ),
            Filter::SortBy(g) => Filter::SortBy(Box::new((*g).subst(args))),
            Filter::Has(g) => Filter::Has(Box::new((*g).subst(args))),
            Filter::Split(g) => Filter::Split(Box::new((*g).subst(args))),
            Filter::First(g) => Filter::First(Box::new((*g).subst(args))),
            Filter::Last(g) => Filter::Last(Box::new((*g).subst(args))),
            Filter::Recurse(g) => Filter::Recurse(Box::new((*g).subst(args))),
            Filter::Contains(g) => Filter::Contains(Box::new((*g).subst(args))),
            Filter::Limit(n, g) => Filter::Limit(
                Box::new((*n).subst(args)),
                Box::new((*g).subst(args)),
            ),
            Filter::Range(l, u) => Filter::Range(
                Box::new((*l).subst(args)),
                Box::new((*u).subst(args)),
            ),
            Filter::SkipCtx(n, g) => Filter::SkipCtx(n, Box::new((*g).subst(args))),
            other => other,
        }
    }
}

/// Substitution in a pair list.
fn subst_pairs_exec(o: PairList, args: &Vec<Filter>) -> (res: PairList)
    requires
        pairs_args_below(o, args@.len() as nat),
    ensures
        res == subst_pairs(o, args@),
    decreases o,
{
    match o {
        PairList::Nil => PairList::Nil,
        PairList::Cons(k, v, rest) => PairList::Cons(
            k.subst(args),
            v.subst(args),
            Box::new(subst_pairs_exec(*rest, args)),
        ),
    }
}

/// Substitution in a part list.
fn subst_parts_exec(p: PartList, args: &Vec<Filter>) -> (res: PartList)
    requires
        parts_args_below(p, args@.len() as nat),
    ensures
        res == subst_parts(p, args@),
    decreases p,
{
    match p {
        PartList::Nil => PartList::Nil,
        PartList::Cons(part, opt, rest) => {
            let ghost part0 = part;
            let newpart = match part {
                Part::Index(g) => Part::Index(g.subst(args)),
                Part::Range(a, b) => Part::Range(
                    match a {
                        Some(g) => Some(Box::new((*g).subst(args))),
                        None => None,
                    },
                    match b {
                        Some(g) => Some(Box::new((*g).subst(args))),
                        None => None,
                    },
                ),
            };
            proof {
                assert(newpart == subst_part(part0, args@));
            }
            PartList::Cons(newpart, opt, Box::new(subst_parts_exec(*rest, args)))
        },
    }
}


/// The entry of the builtin table at a position: name, arity, and the
/// filter it constructs (with argument placeholders).
pub open spec fn core_entry(i: int) -> (Seq<char>, int, Filter) {
    if i == 0 {
        ("empty"@, 0, Filter::Empty)
    } else if i == 1 {
        ("error"@, 0, Filter::Error)
    } else if i == 2 {
        ("length"@, 0, Filter::Length)
    } else if i == 3 {
        ("keys"@, 0, Filter::Keys)
    } else if i == 4 {
        ("floor"@, 0, Filter::Floor)
    } else if i == 5 {
        ("round"@, 0, Filter::Round)
    } else if i == 6 {
        ("ceil"@, 0, Filter::Ceil)
    } else if i == 7 {
        ("fromjson"@, 0, Filter::FromJson)
    } else if i == 8 {
        ("tojson"@, 0, Filter::ToJson)
    } else if i == 9 {
        ("explode"@, 0, Filter::Explode)
    } else if i == 10 {
        ("implode"@, 0, Filter::Implode)
    } else if i == 11 {
        ("ascii_downcase"@, 0, Filter::AsciiDowncase)
    } else if i == 12 {
        ("ascii_upcase"@, 0, Filter::AsciiUpcase)
    } else if i == 13 {
        ("reverse"@, 0, Filter::Reverse)
    } else if i == 14 {
        ("sort"@, 0, Filter::Sort)
    } else if i == 15 {
        ("sort_by"@, 1, Filter::SortBy(Box::new(Filter::Arg(0))))
    } else if i == 16 {
        ("has"@, 1, Filter::Has(Box::new(Filter::Arg(0))))
    } else if i == 17 {
        ("contains"@, 1, Filter::Contains(Box::new(Filter::Arg(0))))
    } else if i == 18 {
        ("split"@, 1, Filter::Split(Box::new(Filter::Arg(0))))
    } else if i == 19 {
        ("first"@, 1, Filter::First(Box::new(Filter::Arg(0))))
    } else if i == 20 {
        ("last"@, 1, Filter::Last(Box::new(Filter::Arg(0))))
    } else if i == 21 {
        ("recurse"@, 1, Filter::Recurse(Box::new(Filter::Arg(0))))
    } else if i == 22 {
        ("limit"@, 2, Filter::Limit(Box::new(Filter::Arg(0)), Box::new(Filter::Arg(1))))
    } else if i == 23 {
        ("range"@, 2, Filter::Range(Box::new(Filter::Arg(0)), Box::new(Filter::Arg(1))))
    } else {
        ("try"@, 1, Filter::Try(Box::new(Filter::Arg(0))))
    }
}

impl Filter {
    /// The table of named builtins: `((name, arity), filter)` entries,
    /// with argument placeholders for the arities above zero.  The table
    /// holds the core set of intrinsic names and, beyond it, a `try`
    /// entry of one argument; callers may register more.
    pub fn builtins() -> (r: Vec<((String, usize), Filter)>)
        ensures
            r@.len() == 25,
            forall|i: int| 0 <= i < 25 ==> (#[trigger] r@[i]).0.0@ == core_entry(i).0
                && r@[i].0.1 as int == core_entry(i).1 && r@[i].1 == core_entry(i).2,
    {
        let mut r: Vec<((String, usize), Filter)> = Vec::new();
        r.push((("empty".to_owned(), 0), Filter::Empty));
        r.push((("error".to_owned(), 0), Filter::Error));
        r.push((("length".to_owned(), 0), Filter::Length));
        r.push((("keys".to_owned(), 0), Filter::Keys));
        r.push((("floor".to_owned(), 0), Filter::Floor));
        r.push((("round".to_owned(), 0), Filter::Round));
        r.push((("ceil".to_owned(), 0), Filter::Ceil));
        r.push((("fromjson".to_owned(), 0), Filter::FromJson));
        r.push((("tojson".to_owned(), 0), Filter::ToJson));
        r.push((("explode".to_owned(), 0), Filter::Explode));
        r.push((("implode".to_owned(), 0), Filter::Implode));
        r.push((("ascii_downcase".to_owned(), 0), Filter::AsciiDowncase));
        r.push((("ascii_upcase".to_owned(), 0), Filter::AsciiUpcase));
        r.push((("reverse".to_owned(), 0), Filter::Reverse));
        r.push((("sort".to_owned(), 0), Filter::Sort));
        r.push((("sort_by".to_owned(), 1), Filter::SortBy(Box::new(Filter::Arg(0)))));
        r.push((("has".to_owned(), 1), Filter::Has(Box::new(Filter::Arg(0)))));
        r.push((("contains".to_owned(), 1), Filter::Contains(Box::new(Filter::Arg(0)))));
        r.push((("split".to_owned(), 1), Filter::Split(Box::new(Filter::Arg(0)))));
        r.push((("first".to_owned(), 1), Filter::First(Box::new(Filter::Arg(0)))));
        r.push((("last".to_owned(), 1), Filter::Last(Box::new(Filter::Arg(0)))));
        r.push((("recurse".to_owned(), 1), Filter::Recurse(Box::new(Filter::Arg(0)))));
        r.push(
            (("limit".to_owned(), 2), Filter::Limit(
                Box::new(Filter::Arg(0)),
                Box::new(Filter::Arg(1)),
            )),
        );
        r.push(
            (("range".to_owned(), 2), Filter::Range(
                Box::new(Filter::Arg(0)),
                Box::new(Filter::Arg(1)),
            )),
        );
        r.push((("try".to_owned(), 1), Filter::Try(Box::new(Filter::Arg(0)))));
        r
    }

    /// The whole-tree descent `..`: `recurse(.[]?)`.
    pub fn recurse_all() -> (r: Filter)
        ensures
            r == Filter::Recurse(
                Box::new(
                    Filter::Path(
                        Box::new(Filter::Id),
                        Box::new(
                            PartList::Cons(
                                Part::Range(None, None),
                                Opt::Optional,
                                Box::new(PartList::Nil),
                            ),
                        ),
                    ),
                ),
            ),
    {
        let part = Part::Range(None, None);
        let path = Filter::Path(
            Box::new(Filter::Id),
            Box::new(PartList::Cons(part, Opt::Optional, Box::new(PartList::Nil))),
        );
        Filter::Recurse(Box::new(path))
    }

    /// An update through an arithmetic operator: `p op= f` becomes
    /// `p |= . op f`.
    pub fn update_math(path: Box<Filter>, op: MathOp, f: Box<Filter>) -> (r: Filter)
        ensures
            r == Filter::Update(
                path,
                Box::new(Filter::Math(Box::new(Filter::Id), op, f)),
            ),
    {
        let math = Filter::Math(Box::new(Filter::Id), op, f);
        Filter::Update(path, Box::new(math))
    }
}

} // verus!
