use jaq::filter::{Filter, Opt, PairList, Part, PartList};
use jaq::ops::{Error, MathOp, OrdOp, ValR};
use jaq::rc_list::{Ctx, List};
use jaq::run::range_step;
use jaq::val::Val;

const FUEL: u64 = 100;

fn b(f: Filter) -> Box<Filter> {
    Box::new(f)
}

fn s(t: &str) -> Filter {
    Filter::Str(t.to_string())
}

fn vs(t: &str) -> Val {
    Val::Str(t.to_string())
}

fn varr(xs: Vec<Val>) -> Val {
    Val::Arr(xs)
}

fn vobj(kvs: Vec<(&str, Val)>) -> Val {
    Val::Obj(kvs.into_iter().map(|(k, v)| (k.to_string(), v)).collect())
}

fn parts(ps: Vec<(Part, Opt)>) -> Box<PartList> {
    let mut out = PartList::Nil;
    for (p, o) in ps.into_iter().rev() {
        out = PartList::Cons(p, o, Box::new(out));
    }
    Box::new(out)
}

fn key(k: &str) -> (Part, Opt) {
    (Part::Index(s(k)), Opt::Strict)
}

fn iter_part() -> (Part, Opt) {
    (Part::Range(None, None), Opt::Strict)
}

fn path(ps: Vec<(Part, Opt)>) -> Filter {
    Filter::Path(b(Filter::Id), parts(ps))
}

fn run(f: &Filter, v: Val) -> Vec<ValR> {
    f.run(&Ctx::new(), &v, FUEL).expect("fuel bound reached")
}

fn oks(f: &Filter, v: Val) -> Vec<Val> {
    run(f, v).into_iter().map(|r| r.expect("unexpected error")).collect()
}

#[test]
fn test() {
    let l = List::new().cons(2).cons(1).cons(0);
    assert_eq!(l.iter(), vec![0, 1, 2]);

    assert_eq!(l.skip(0).iter(), vec![0, 1, 2]);
    assert_eq!(l.skip(1).iter(), vec![1, 2]);
    assert_eq!(l.skip(2).iter(), vec![2]);
    assert_eq!(l.skip(3).iter(), Vec::<i32>::new());

    assert_eq!(l.get(0), Some(&0));
    assert_eq!(l.get(1), Some(&1));
    assert_eq!(l.get(2), Some(&2));
    assert_eq!(l.get(3), None);
}

#[test]
fn add_two_fields() {
    let f = Filter::Math(b(path(vec![key("a")])), MathOp::Add, b(path(vec![key("b")])));
    let v = vobj(vec![("a", Val::Int(1)), ("b", Val::Int(2))]);
    assert_eq!(oks(&f, v), vec![Val::Int(3)]);
}

#[test]
fn iterate_array() {
    let f = path(vec![iter_part()]);
    let v = varr(vec![Val::Int(1), Val::Int(2), Val::Int(3)]);
    assert_eq!(oks(&f, v), vec![Val::Int(1), Val::Int(2), Val::Int(3)]);
}

#[test]
fn limit_two() {
    let f = Filter::Limit(b(Filter::Int(2)), b(path(vec![iter_part()])));
    let v = varr(vec![Val::Int(1), Val::Int(2), Val::Int(3), Val::Int(4)]);
    assert_eq!(oks(&f, v), vec![Val::Int(1), Val::Int(2)]);
}

#[test]
fn assign_nested() {
    let f = Filter::Assign(b(path(vec![key("a"), key("b")])), b(Filter::Int(5)));
    let v = vobj(vec![("a", vobj(vec![("b", Val::Int(1))]))]);
    let expect = vobj(vec![("a", vobj(vec![("b", Val::Int(5))]))]);
    assert_eq!(oks(&f, v), vec![expect]);
}

#[test]
fn keys_as_variable() {
    // `[keys[] as $k | .[$k]]`
    let keys_iter = Filter::Path(b(Filter::Keys), parts(vec![iter_part()]));
    let lookup = Filter::Path(b(Filter::Id), parts(vec![(Part::Index(Filter::Var(0)), Opt::Strict)]));
    let f = Filter::Array(Some(b(Filter::Pipe(b(keys_iter), true, b(lookup)))));
    let v = vobj(vec![("a", Val::Int(1)), ("b", Val::Int(2))]);
    assert_eq!(oks(&f, v), vec![varr(vec![Val::Int(1), Val::Int(2)])]);
}

#[test]
fn comma_then_add() {
    // `1,2 | . + 1`
    let f = Filter::Pipe(
        b(Filter::Comma(b(Filter::Int(1)), b(Filter::Int(2)))),
        false,
        b(Filter::Math(b(Filter::Id), MathOp::Add, b(Filter::Int(1)))),
    );
    assert_eq!(oks(&f, Val::Null), vec![Val::Int(2), Val::Int(3)]);
}

#[test]
fn sort_by_negation() {
    let f = Filter::SortBy(b(Filter::Neg(b(Filter::Id))));
    let v = varr(vec![Val::Int(3), Val::Int(1), Val::Int(2)]);
    assert_eq!(oks(&f, v), vec![varr(vec![Val::Int(3), Val::Int(2), Val::Int(1)])]);
}

#[test]
fn update_each_element() {
    // `.a[] |= . * 10`
    let f = Filter::Update(
        b(path(vec![key("a"), iter_part()])),
        b(Filter::Math(b(Filter::Id), MathOp::Mul, b(Filter::Int(10)))),
    );
    let v = vobj(vec![("a", varr(vec![Val::Int(1), Val::Int(2)]))]);
    let expect = vobj(vec![("a", varr(vec![Val::Int(10), Val::Int(20)]))]);
    assert_eq!(oks(&f, v), vec![expect]);
}

#[test]
fn try_error_catch() {
    // `try error("boom") catch .`
    let thrower = Filter::Pipe(b(s("boom")), false, b(Filter::Error));
    let f = Filter::Catch(b(thrower), b(Filter::Id));
    assert_eq!(oks(&f, Val::Int(1)), vec![vs("boom")]);
}

#[test]
fn recurse_numbers() {
    // `[.. | try (. * 1)]`: multiplying keeps numbers and throws on the rest.
    let keep_numbers = Filter::Try(b(Filter::Math(b(Filter::Id), MathOp::Mul, b(Filter::Int(1)))));
    let f = Filter::Array(Some(b(Filter::Pipe(
        b(Filter::recurse_all()),
        false,
        b(keep_numbers),
    ))));
    let v = vobj(vec![("a", vobj(vec![("b", Val::Int(1)), ("c", Val::Int(2))]))]);
    assert_eq!(oks(&f, v), vec![varr(vec![Val::Int(1), Val::Int(2)])]);
}

#[test]
fn recurse_starts_with_input() {
    let f = Filter::recurse_all();
    let v = varr(vec![Val::Int(7)]);
    let out = oks(&f, v.clone());
    assert_eq!(out, vec![v, Val::Int(7)]);
}

#[test]
fn empty_yields_nothing() {
    assert_eq!(run(&Filter::Empty, Val::Int(1)), Vec::<ValR>::new());
}

#[test]
fn error_throws_input() {
    let out = run(&Filter::Error, Val::Int(7));
    assert_eq!(out, vec![Err(Error::Val(Val::Int(7)))]);
}

#[test]
fn alternative_falls_through() {
    // `(.a // 9)` on an object without `a`
    let f = Filter::Alt(b(path(vec![key("a")])), b(Filter::Int(9)));
    assert_eq!(oks(&f, vobj(vec![("b", Val::Int(1))])), vec![Val::Int(9)]);
    assert_eq!(oks(&f, vobj(vec![("a", Val::Int(3))])), vec![Val::Int(3)]);
}

#[test]
fn if_then_else_branches() {
    let cascade = PairList::Cons(
        Filter::Ord(b(Filter::Id), OrdOp::Lt, b(Filter::Int(0))),
        s("neg"),
        Box::new(PairList::Nil),
    );
    let f = Filter::IfThenElse(Box::new(cascade), b(s("pos")));
    assert_eq!(oks(&f, Val::Int(-3)), vec![vs("neg")]);
    assert_eq!(oks(&f, Val::Int(3)), vec![vs("pos")]);
}

#[test]
fn reduce_sums() {
    // `reduce .[] as $x (0; . + $x)`
    let f = Filter::Reduce(
        b(path(vec![iter_part()])),
        b(Filter::Int(0)),
        b(Filter::Math(b(Filter::Id), MathOp::Add, b(Filter::Var(0)))),
    );
    let v = varr(vec![Val::Int(1), Val::Int(2), Val::Int(3)]);
    assert_eq!(oks(&f, v), vec![Val::Int(6)]);
}

#[test]
fn range_counts() {
    let f = Filter::Range(b(Filter::Int(2)), b(Filter::Int(5)));
    assert_eq!(oks(&f, Val::Null), vec![Val::Int(2), Val::Int(3), Val::Int(4)]);
}

#[test]
fn first_and_last() {
    let two = Filter::Comma(b(Filter::Int(1)), b(Filter::Int(2)));
    assert_eq!(oks(&Filter::First(b(two.clone())), Val::Null), vec![Val::Int(1)]);
    assert_eq!(oks(&Filter::Last(b(two)), Val::Null), vec![Val::Int(2)]);
}

#[test]
fn object_construction() {
    // `{"k": (1, 2)}` yields two objects
    let pairs = PairList::Cons(s("k"), Filter::Comma(b(Filter::Int(1)), b(Filter::Int(2))), Box::new(PairList::Nil));
    let f = Filter::Object(Box::new(pairs));
    assert_eq!(
        oks(&f, Val::Null),
        vec![vobj(vec![("k", Val::Int(1))]), vobj(vec![("k", Val::Int(2))])],
    );
}

#[test]
fn logic_short_circuits() {
    // `false and error` is false, not an error
    let falsy = Filter::Ord(b(Filter::Int(1)), OrdOp::Lt, b(Filter::Int(0)));
    let f = Filter::Logic(b(falsy), false, b(Filter::Error));
    assert_eq!(oks(&f, Val::Null), vec![Val::Bool(false)]);
}

#[test]
fn arithmetic_errors() {
    let f = Filter::Math(b(Filter::Id), MathOp::Sub, b(Filter::Int(1)));
    let out = run(&f, vs("x"));
    assert_eq!(out, vec![Err(Error::Math(vs("x"), MathOp::Sub, Val::Int(1)))]);

    let div = Filter::Math(b(Filter::Int(1)), MathOp::Div, b(Filter::Int(0)));
    let out = run(&div, Val::Null);
    assert_eq!(out, vec![Err(Error::Math(Val::Int(1), MathOp::Div, Val::Int(0)))]);
}

#[test]
fn division_truncates() {
    let f = Filter::Math(b(Filter::Int(-7)), MathOp::Div, b(Filter::Int(2)));
    assert_eq!(oks(&f, Val::Null), vec![Val::Int(-3)]);
}

#[test]
fn string_and_array_addition() {
    let f = Filter::Math(b(s("ab")), MathOp::Add, b(s("cd")));
    assert_eq!(oks(&f, Val::Null), vec![vs("abcd")]);

    let g = Filter::Math(
        b(Filter::Array(Some(b(Filter::Int(1))))),
        MathOp::Add,
        b(Filter::Array(Some(b(Filter::Int(2))))),
    );
    assert_eq!(oks(&g, Val::Null), vec![varr(vec![Val::Int(1), Val::Int(2)])]);
}

#[test]
fn object_merge_right_wins() {
    let f = Filter::Math(b(Filter::Id), MathOp::Add, b(path(vec![key("r")])));
    let v = vobj(vec![
        ("r", vobj(vec![("a", Val::Int(9)), ("c", Val::Int(3))])),
        ("a", Val::Int(1)),
        ("b", Val::Int(2)),
    ]);
    let out = oks(&f, v.clone());
    let expect = vobj(vec![
        ("r", vobj(vec![("a", Val::Int(9)), ("c", Val::Int(3))])),
        ("a", Val::Int(9)),
        ("b", Val::Int(2)),
        ("c", Val::Int(3)),
    ]);
    assert_eq!(out, vec![expect]);
}

#[test]
fn length_of_values() {
    assert_eq!(oks(&Filter::Length, Val::Null), vec![Val::Int(0)]);
    assert_eq!(oks(&Filter::Length, Val::Int(-5)), vec![Val::Int(5)]);
    assert_eq!(oks(&Filter::Length, vs("héllo")), vec![Val::Int(5)]);
    assert_eq!(oks(&Filter::Length, varr(vec![Val::Null])), vec![Val::Int(1)]);
}

#[test]
fn keys_sorted() {
    let v = vobj(vec![("b", Val::Int(1)), ("a", Val::Int(2))]);
    assert_eq!(oks(&Filter::Keys, v), vec![varr(vec![vs("a"), vs("b")])]);
}

#[test]
fn explode_implode_roundtrip() {
    let v = vs("héllo");
    let f = Filter::Pipe(b(Filter::Explode), false, b(Filter::Implode));
    assert_eq!(oks(&f, v.clone()), vec![v]);

    assert_eq!(
        oks(&Filter::Explode, vs("ab")),
        vec![varr(vec![Val::Int(97), Val::Int(98)])],
    );
}

#[test]
fn json_roundtrip() {
    let v = vobj(vec![
        ("a", varr(vec![Val::Int(1), Val::Null, Val::Bool(true)])),
        ("s", vs("q\"\\\nz")),
        ("n", Val::Int(-42)),
    ]);
    let f = Filter::Pipe(b(Filter::ToJson), false, b(Filter::FromJson));
    assert_eq!(oks(&f, v.clone()), vec![v]);
}

#[test]
fn tojson_text() {
    let v = vobj(vec![("a", varr(vec![Val::Int(1), Val::Int(2)]))]);
    assert_eq!(oks(&Filter::ToJson, v), vec![vs("{\"a\":[1,2]}")]);
}

#[test]
fn fromjson_parses() {
    let f = Filter::FromJson;
    assert_eq!(
        oks(&f, vs(" {\"k\" : [1, -2, \"x\\n\"] } ")),
        vec![vobj(vec![("k", varr(vec![Val::Int(1), Val::Int(-2), vs("x\n")]))])],
    );
    // floats are not part of the value model: a fraction is a parse error
    let out = run(&f, vs("1.5"));
    assert!(matches!(out[0], Err(Error::Parse(_))));
}

#[test]
fn ascii_case_mapping() {
    assert_eq!(oks(&Filter::AsciiUpcase, vs("aBc-é")), vec![vs("ABC-é")]);
    assert_eq!(oks(&Filter::AsciiDowncase, vs("aBc-É")), vec![vs("abc-É")]);
}

#[test]
fn reverse_and_sort() {
    let v = varr(vec![Val::Int(3), Val::Null, vs("x")]);
    assert_eq!(
        oks(&Filter::Reverse, v.clone()),
        vec![varr(vec![vs("x"), Val::Null, Val::Int(3)])],
    );
    assert_eq!(
        oks(&Filter::Sort, v),
        vec![varr(vec![Val::Null, Val::Int(3), vs("x")])],
    );
}

#[test]
fn has_and_contains() {
    let f = Filter::Has(b(s("a")));
    assert_eq!(oks(&f, vobj(vec![("a", Val::Int(1))])), vec![Val::Bool(true)]);
    assert_eq!(oks(&f, vobj(vec![("b", Val::Int(1))])), vec![Val::Bool(false)]);

    let g = Filter::Contains(b(s("ell")));
    assert_eq!(oks(&g, vs("hello")), vec![Val::Bool(true)]);
    let h = Filter::Contains(b(s("elx")));
    assert_eq!(oks(&h, vs("hello")), vec![Val::Bool(false)]);
}

#[test]
fn split_string() {
    let f = Filter::Split(b(s(", ")));
    assert_eq!(
        oks(&f, vs("a, b, c")),
        vec![varr(vec![vs("a"), vs("b"), vs("c")])],
    );
}

#[test]
fn slices_of_arrays() {
    // `.[1:3]`
    let part = (
        Part::Range(Some(b(Filter::Int(1))), Some(b(Filter::Int(3)))),
        Opt::Strict,
    );
    let f = path(vec![part]);
    let v = varr(vec![Val::Int(0), Val::Int(1), Val::Int(2), Val::Int(3)]);
    assert_eq!(oks(&f, v), vec![varr(vec![Val::Int(1), Val::Int(2)])]);
}

#[test]
fn negative_index() {
    let part = (Part::Index(Filter::Int(-1)), Opt::Strict);
    let f = path(vec![part]);
    let v = varr(vec![Val::Int(5), Val::Int(6)]);
    assert_eq!(oks(&f, v), vec![Val::Int(6)]);
}

#[test]
fn optional_path_swallows() {
    // `.a?` on a number: no outputs instead of an error
    let strict = path(vec![key("a")]);
    let optional = path(vec![(Part::Index(s("a")), Opt::Optional)]);
    assert!(matches!(run(&strict, Val::Int(1))[0], Err(Error::Index(_, _))));
    assert_eq!(run(&optional, Val::Int(1)), Vec::<ValR>::new());
}

#[test]
fn assign_into_null_creates() {
    let f = Filter::Assign(b(path(vec![key("a"), key("b")])), b(Filter::Int(1)));
    let expect = vobj(vec![("a", vobj(vec![("b", Val::Int(1))]))]);
    assert_eq!(oks(&f, Val::Null), vec![expect]);
}

#[test]
fn update_with_empty_deletes() {
    // `.a |= empty` removes the key
    let f = Filter::Update(b(path(vec![key("a")])), b(Filter::Empty));
    let v = vobj(vec![("a", Val::Int(1)), ("b", Val::Int(2))]);
    assert_eq!(oks(&f, v), vec![vobj(vec![("b", Val::Int(2))])]);
}

#[test]
fn substitution_replaces_placeholders() {
    // `limit(Arg0; Arg1)` with literal arguments
    let f = Filter::Limit(b(Filter::Arg(0)), b(Filter::Arg(1)));
    let args = vec![Filter::Int(1), path(vec![iter_part()])];
    let g = f.subst(&args);
    let v = varr(vec![Val::Int(4), Val::Int(5)]);
    assert_eq!(oks(&g, v), vec![Val::Int(4)]);
}

#[test]
fn builtins_table_names() {
    let t = Filter::builtins();
    assert_eq!(t.len(), 25);
    assert_eq!(t[0].0, ("empty".to_string(), 0));
    assert_eq!(t[22].0, ("limit".to_string(), 2));
    assert!(matches!(t[21].1, Filter::Recurse(_)));
}

#[test]
fn fuel_bound_reported() {
    // `recurse(.)` loops: the fuel bound must be reached
    let f = Filter::Recurse(b(Filter::Id));
    assert!(f.run(&Ctx::new(), &Val::Int(1), 20).is_none());
}

#[test]
fn error_messages() {
    let e = Error::Typ(Val::Bool(true), "number".to_string());
    assert_eq!(e.message(), "number expected, got true");
    let e2 = Error::Index(Val::Int(1), vs("a"));
    assert_eq!(e2.message(), "cannot index 1 with \"a\"");
}

#[test]
fn variables_resolve() {
    // `1 as $x | . + $x` on 41
    let f = Filter::Pipe(
        b(Filter::Int(1)),
        true,
        b(Filter::Math(b(Filter::Id), MathOp::Add, b(Filter::Var(0)))),
    );
    assert_eq!(oks(&f, Val::Int(41)), vec![Val::Int(42)]);
}

#[test]
fn update_hands_on_whole_streams() {
    // `. |= (1,2)`: the whole replacement stream comes out
    let f = Filter::Update(
        b(Filter::Id),
        b(Filter::Comma(b(Filter::Int(1)), b(Filter::Int(2)))),
    );
    assert_eq!(oks(&f, Val::Null), vec![Val::Int(1), Val::Int(2)]);
}

#[test]
fn update_slot_one_result_per_output() {
    // `.a |= (1,2)`: one whole value per replacement output
    let f = Filter::Update(
        b(path(vec![key("a")])),
        b(Filter::Comma(b(Filter::Int(1)), b(Filter::Int(2)))),
    );
    let v = vobj(vec![("a", Val::Int(0))]);
    assert_eq!(
        oks(&f, v),
        vec![vobj(vec![("a", Val::Int(1))]), vobj(vec![("a", Val::Int(2))])],
    );
}

#[test]
fn assign_one_result_per_output() {
    // `.a = (1,2)`
    let f = Filter::Assign(
        b(path(vec![key("a")])),
        b(Filter::Comma(b(Filter::Int(1)), b(Filter::Int(2)))),
    );
    let v = vobj(vec![("a", Val::Int(0))]);
    assert_eq!(
        oks(&f, v),
        vec![vobj(vec![("a", Val::Int(1))]), vobj(vec![("a", Val::Int(2))])],
    );
}

#[test]
fn update_pipe_composes_whole_streams() {
    // `(.a | .b) |= (7,8)` on {"a":{"b":1}}
    let f = Filter::Update(
        b(Filter::Pipe(
            b(path(vec![key("a")])),
            false,
            b(path(vec![key("b")])),
        )),
        b(Filter::Comma(b(Filter::Int(7)), b(Filter::Int(8)))),
    );
    let v = vobj(vec![("a", vobj(vec![("b", Val::Int(1))]))]);
    assert_eq!(
        oks(&f, v),
        vec![
            vobj(vec![("a", vobj(vec![("b", Val::Int(7))]))]),
            vobj(vec![("a", vobj(vec![("b", Val::Int(8))]))]),
        ],
    );
}

#[test]
fn update_recurse_expands_stream() {
    // `.. |= . * 2` on [1]
    let f = Filter::Update(
        b(Filter::recurse_all()),
        b(Filter::Math(b(Filter::Id), MathOp::Mul, b(Filter::Int(2)))),
    );
    let v = varr(vec![Val::Int(1)]);
    // the array is doubled (an error), so the update surfaces it
    let out = run(&f, v);
    assert!(matches!(out[0], Err(Error::Math(_, MathOp::Mul, _))));
}

#[test]
fn step_range_walks() {
    let up: Vec<Val> = range_step(2, 10, 3, 100)
        .unwrap()
        .into_iter()
        .map(|r| r.unwrap())
        .collect();
    assert_eq!(up, vec![Val::Int(2), Val::Int(5), Val::Int(8)]);
    let down: Vec<Val> = range_step(3, 0, -1, 100)
        .unwrap()
        .into_iter()
        .map(|r| r.unwrap())
        .collect();
    assert_eq!(down, vec![Val::Int(3), Val::Int(2), Val::Int(1)]);
    assert_eq!(range_step(5, 5, 0, 100), Some(Vec::new()));
    assert!(range_step(0, 5, 0, 100).is_none());
}
