use jaq::ops::Error;
use jaq::val::Cmp;
use jaq::sorting::{cmp_by, group_by, sort_vals_exec};
use jaq::val::Val;

fn vs(t: &str) -> Val {
    Val::Str(t.to_string())
}

fn varr(xs: Vec<Val>) -> Val {
    Val::Arr(xs)
}

#[test]
fn starts_and_ends() {
    let v = vs("foobar");
    assert_eq!(v.starts_or_ends_with(&vs("foo"), false), Ok(Val::Bool(true)));
    assert_eq!(v.starts_or_ends_with(&vs("bar"), false), Ok(Val::Bool(false)));
    assert_eq!(v.starts_or_ends_with(&vs("bar"), true), Ok(Val::Bool(true)));
    assert!(matches!(
        v.starts_or_ends_with(&Val::Int(1), false),
        Err(Error::Typ(_, _))
    ));
}

#[test]
fn trimstr_both_sides() {
    assert_eq!(vs("foobar").ltrimstr(&vs("foo")), Ok(vs("bar")));
    assert_eq!(vs("foobar").ltrimstr(&vs("bar")), Ok(vs("foobar")));
    assert_eq!(vs("foobar").rtrimstr(&vs("bar")), Ok(vs("foo")));
    assert_eq!(vs("foobar").rtrimstr(&vs("foo")), Ok(vs("foobar")));
}

#[test]
fn trim_whitespace() {
    assert_eq!(vs("  a b\t\n").trim_ws(true, true), Ok(vs("a b")));
    assert_eq!(vs("  a ").trim_ws(true, false), Ok(vs("a ")));
    assert_eq!(vs("  a ").trim_ws(false, true), Ok(vs("  a")));
    assert_eq!(vs("   ").trim_ws(true, true), Ok(vs("")));
}

#[test]
fn csv_and_sh_escapes() {
    assert_eq!(vs("a\"b").escape_csv(), Ok(vs("a\"\"b")));
    assert_eq!(vs("it's").escape_sh(), Ok(vs("it'\\''s")));
}

#[test]
fn utf8_byte_length() {
    assert_eq!(vs("héllo").utf8bytelength(), Ok(Val::Int(6)));
}

#[test]
fn uri_encoding() {
    assert_eq!(vs("a b&c").encode_uri(), Ok(vs("a%20b%26c")));
    assert_eq!(vs("a-._~Z9").encode_uri(), Ok(vs("a-._~Z9")));
    assert_eq!(vs("a%20b%26c").decode_uri(), Ok(vs("a b&c")));
}

#[test]
fn base64_encoding() {
    assert_eq!(vs("hello").encode_base64(), Ok(vs("aGVsbG8=")));
    assert_eq!(vs("aGVsbG8=").decode_base64(), Ok(vs("hello")));
    assert!(matches!(vs("!!!").decode_base64(), Err(Error::Str(_))));
}

#[test]
fn html_and_tsv_escapes() {
    assert_eq!(vs("<a>&'\"").escape_html(), Ok(vs("&lt;a&gt;&amp;&apos;&quot;")));
    assert_eq!(vs("a\tb\nc\\d").escape_tsv(), Ok(vs("a\\tb\\nc\\\\d")));
}

#[test]
fn sorting_values() {
    let xs = vec![vs("b"), Val::Int(2), Val::Null, Val::Int(1)];
    let sorted = sort_vals_exec(&xs);
    assert_eq!(sorted, vec![Val::Null, Val::Int(1), Val::Int(2), vs("b")]);
}

#[test]
fn grouping_by_keys() {
    // elements keyed by their own parity class
    let pairs = vec![
        (vec![Val::Int(1)], Val::Int(3)),
        (vec![Val::Int(0)], Val::Int(2)),
        (vec![Val::Int(1)], Val::Int(5)),
    ];
    let grouped = group_by(pairs);
    assert_eq!(
        grouped,
        varr(vec![
            varr(vec![Val::Int(2)]),
            varr(vec![Val::Int(3), Val::Int(5)]),
        ]),
    );
}

#[test]
fn min_and_max_by() {
    let pairs = vec![
        (vec![Val::Int(2)], vs("two")),
        (vec![Val::Int(1)], vs("one")),
        (vec![Val::Int(3)], vs("three")),
    ];
    assert_eq!(cmp_by(&pairs, false), Some(vs("one")));
    assert_eq!(cmp_by(&pairs, true), Some(vs("three")));
    assert_eq!(cmp_by(&Vec::new(), true), None);
}

#[test]
fn value_order_is_total() {
    let a = varr(vec![Val::Int(1)]);
    let b = varr(vec![Val::Int(1), Val::Int(2)]);
    assert_eq!(a.cmp_with(&b), Cmp::Less);
    assert_eq!(Val::Bool(true).cmp_with(&Val::Null), Cmp::Greater);
    assert_eq!(vs("a").cmp_with(&vs("b")), Cmp::Less);
}

#[test]
fn error_rendering_embeds_values() {
    let e = Error::Math(Val::Null, jaq::ops::MathOp::Add, Val::Bool(true));
    assert_eq!(e.message(), "null and true cannot be added");
}

#[test]
fn tsv_escapes_nul() {
    assert_eq!(vs("a\0b").escape_tsv(), Ok(vs("a\\0b")));
}

#[test]
fn unsorted_keys_keep_order() {
    let v = vobj(vec![("b", Val::Int(1)), ("a", Val::Int(2))]);
    assert_eq!(v.keys_unsorted(), Ok(varr(vec![vs("b"), vs("a")])));
    let a = varr(vec![Val::Null, Val::Null]);
    assert_eq!(a.keys_unsorted(), Ok(varr(vec![Val::Int(0), Val::Int(1)])));
}

#[test]
fn paths_and_values_in_preorder() {
    let v = vobj(vec![("a", varr(vec![Val::Int(5)])), ("b", Val::Int(6))]);
    let pv = v.path_values();
    let expect = vec![
        (varr(vec![vs("a")]), varr(vec![Val::Int(5)])),
        (varr(vec![vs("a"), Val::Int(0)]), Val::Int(5)),
        (varr(vec![vs("b")]), Val::Int(6)),
    ];
    assert_eq!(pv, expect);
    assert_eq!(
        v.paths(),
        vec![
            varr(vec![vs("a")]),
            varr(vec![vs("a"), Val::Int(0)]),
            varr(vec![vs("b")]),
        ],
    );
}

fn vobj(kvs: Vec<(&str, Val)>) -> Val {
    Val::Obj(kvs.into_iter().map(|(k, v)| (k.to_string(), v)).collect())
}
