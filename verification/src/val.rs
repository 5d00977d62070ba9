//! The JSON value model: an immutable tagged value with a total order.
//!
//! The mathematical model of a value is [`ValV`]: numbers are unbounded
//! integers, strings are character sequences, arrays are sequences and
//! objects are sequences of key-value pairs in insertion order with unique
//! keys.  Every operation of the value model is specified against [`ValV`].

use vstd::prelude::*;

verus! {

/// Mathematical model of a JSON value.
pub enum ValV {
    Null,
    Bool(bool),
    Int(int),
    Str(Seq<char>),
    Arr(Seq<ValV>),
    Obj(Seq<(Seq<char>, ValV)>),
}

/// A JSON value.  Numbers are machine integers; objects keep their entries
/// in insertion order and their keys unique.
#[derive(Debug, PartialEq, Eq)]
pub enum Val {
    Null,
    Bool(bool),
    Int(i64),
    Str(String),
    Arr(Vec<Val>),
    Obj(Vec<(String, Val)>),
}

/// Model of one value.
pub open spec fn v_view(v: Val) -> ValV
    decreases v,
{
    match v {
        Val::Null => ValV::Null,
        Val::Bool(b) => ValV::Bool(b),
        Val::Int(i) => ValV::Int(i as int),
        Val::Str(s) => ValV::Str(s@),
        Val::Arr(a) => ValV::Arr(elems_view(a@)),
        Val::Obj(o) => ValV::Obj(entries_view(o@)),
    }
}

/// Model of the elements of an array.
pub open spec fn elems_view(a: Seq<Val>) -> Seq<ValV>
    decreases a,
{
    if a.len() == 0 {
        Seq::empty()
    } else {
        seq![v_view(a[0])] + elems_view(a.drop_first())
    }
}

/// Model of the entries of an object.
pub open spec fn entries_view(o: Seq<(String, Val)>) -> Seq<(Seq<char>, ValV)>
    decreases o,
{
    if o.len() == 0 {
        Seq::empty()
    } else {
        seq![(o[0].0@, v_view(o[0].1))] + entries_view(o.drop_first())
    }
}

/// The model of an element list is the list of the elements' models.
pub proof fn lemma_elems_view(a: Seq<Val>)
    ensures
        elems_view(a).len() == a.len(),
        forall|i: int| 0 <= i < a.len() ==> elems_view(a)[i] == v_view(#[trigger] a[i]),
    decreases a.len(),
{
    if a.len() > 0 {
        lemma_elems_view(a.drop_first());
        assert forall|i: int| 0 <= i < a.len() implies elems_view(a)[i] == v_view(
            #[trigger] a[i],
        ) by {
            if i > 0 {
                assert(elems_view(a)[i] == elems_view(a.drop_first())[i - 1]);
                assert(a.drop_first()[i - 1] == a[i]);
            }
        }
    }
}

/// The model of an entry list is the list of the entries' models.
pub proof fn lemma_entries_view(o: Seq<(String, Val)>)
    ensures
        entries_view(o).len() == o.len(),
        forall|i: int| 0 <= i < o.len() ==> entries_view(o)[i] == ((#[trigger] o[i]).0@, v_view(
            o[i].1,
        )),
    decreases o.len(),
{
    if o.len() > 0 {
        lemma_entries_view(o.drop_first());
        assert forall|i: int| 0 <= i < o.len() implies entries_view(o)[i] == ((
        #[trigger] o[i]).0@, v_view(o[i].1)) by {
            if i > 0 {
                assert(entries_view(o)[i] == entries_view(o.drop_first())[i - 1]);
                assert(o.drop_first()[i - 1] == o[i]);
            }
        }
    }
}

impl View for Val {
    type V = ValV;

    open spec fn view(&self) -> ValV {
        v_view(*self)
    }
}

/// Unique keys, recursively: the well-formedness invariant of values.
pub open spec fn val_wf(v: ValV) -> bool
    decreases v,
{
    match v {
        ValV::Arr(a) => forall|i: int| 0 <= i < a.len() ==> val_wf(#[trigger] a[i]),
        ValV::Obj(o) => {
            &&& forall|i: int, j: int| 0 <= i < j < o.len() ==> (#[trigger] o[i].0) != (#[trigger] o[j].0)
            &&& forall|i: int| 0 <= i < o.len() ==> val_wf((#[trigger] o[i]).1)
        },
        _ => true,
    }
}

/// Outcome of a comparison.
#[derive(Clone, Copy, PartialEq, Eq, Structural, Debug)]
pub enum Cmp {
    Less,
    Equal,
    Greater,
}

/// Lexicographic order on character sequences.
pub open spec fn str_cmp(a: Seq<char>, b: Seq<char>) -> Cmp
    decreases a.len(),
{
    if a.len() == 0 && b.len() == 0 {
        Cmp::Equal
    } else if a.len() == 0 {
        Cmp::Less
    } else if b.len() == 0 {
        Cmp::Greater
    } else if (a[0] as u32) < (b[0] as u32) {
        Cmp::Less
    } else if (b[0] as u32) < (a[0] as u32) {
        Cmp::Greater
    } else {
        str_cmp(a.drop_first(), b.drop_first())
    }
}

/// Rank of a value kind: `Null < Bool < Int < Str < Arr < Obj`.
pub open spec fn kind_rank(v: ValV) -> int {
    match v {
        ValV::Null => 0,
        ValV::Bool(_) => 1,
        ValV::Int(_) => 2,
        ValV::Str(_) => 3,
        ValV::Arr(_) => 4,
        ValV::Obj(_) => 5,
    }
}

/// Total order on values: by kind rank, then within a kind by natural
/// order; sequences compare lexicographically, objects by their entry
/// lists in insertion order (key first, then value).
pub open spec fn val_cmp(a: ValV, b: ValV) -> Cmp
    decreases a, b,
{
    if kind_rank(a) < kind_rank(b) {
        Cmp::Less
    } else if kind_rank(b) < kind_rank(a) {
        Cmp::Greater
    } else {
        match (a, b) {
            (ValV::Null, ValV::Null) => Cmp::Equal,
            (ValV::Bool(x), ValV::Bool(y)) => {
                if x == y {
                    Cmp::Equal
                } else if y {
                    Cmp::Less
                } else {
                    Cmp::Greater
                }
            },
            (ValV::Int(x), ValV::Int(y)) => {
                if x < y {
                    Cmp::Less
                } else if y < x {
                    Cmp::Greater
                } else {
                    Cmp::Equal
                }
            },
            (ValV::Str(x), ValV::Str(y)) => str_cmp(x, y),
            (ValV::Arr(x), ValV::Arr(y)) => arr_cmp(x, y),
            (ValV::Obj(x), ValV::Obj(y)) => obj_cmp(x, y),
            _ => Cmp::Equal,
        }
    }
}

/// Lexicographic order on value sequences.
pub open spec fn arr_cmp(a: Seq<ValV>, b: Seq<ValV>) -> Cmp
    decreases a, b,
{
    if a.len() == 0 && b.len() == 0 {
        Cmp::Equal
    } else if a.len() == 0 {
        Cmp::Less
    } else if b.len() == 0 {
        Cmp::Greater
    } else {
        match val_cmp(a[0], b[0]) {
            Cmp::Equal => arr_cmp(a.drop_first(), b.drop_first()),
            c => c,
        }
    }
}

/// Lexicographic order on object entry lists: key first, then value.
pub open spec fn obj_cmp(a: Seq<(Seq<char>, ValV)>, b: Seq<(Seq<char>, ValV)>) -> Cmp
    decreases a, b,
{
    if a.len() == 0 && b.len() == 0 {
        Cmp::Equal
    } else if a.len() == 0 {
        Cmp::Less
    } else if b.len() == 0 {
        Cmp::Greater
    } else {
        match str_cmp(a[0].0, b[0].0) {
            Cmp::Equal => match val_cmp(a[0].1, b[0].1) {
                Cmp::Equal => obj_cmp(a.drop_first(), b.drop_first()),
                c => c,
            },
            c => c,
        }
    }
}

/// Value equality is agreement of the total order.
pub open spec fn val_eq(a: ValV, b: ValV) -> bool {
    val_cmp(a, b) == Cmp::Equal
}

/// `false` and `null` are falsy; everything else is truthy.
pub open spec fn as_bool_spec(v: ValV) -> bool {
    match v {
        ValV::Null => false,
        ValV::Bool(b) => b,
        _ => true,
    }
}

impl Val {
    /// Truthiness of a value.
    pub fn as_bool(&self) -> (r: bool)
        ensures
            r == as_bool_spec(self@),
    {
        match self {
            Val::Null => false,
            Val::Bool(b) => *b,
            _ => true,
        }
    }

    /// Compare two values in the total order.
    #[verifier::loop_isolation(false)]
    pub fn cmp_with(&self, other: &Val) -> (r: Cmp)
        ensures
            r == val_cmp(self@, other@),
        decreases *self,
    {
        match (self, other) {
            (Val::Null, Val::Null) => Cmp::Equal,
            (Val::Bool(x), Val::Bool(y)) => {
                if x == y {
                    Cmp::Equal
                } else if *y {
                    Cmp::Less
                } else {
                    Cmp::Greater
                }
            },
            (Val::Int(x), Val::Int(y)) => {
                if x < y {
                    Cmp::Less
                } else if y < x {
                    Cmp::Greater
                } else {
                    Cmp::Equal
                }
            },
            (Val::Str(x), Val::Str(y)) => str_compare(x.as_str(), y.as_str()),
            (Val::Arr(x), Val::Arr(y)) => {
                proof {
                    lemma_elems_view(x@);
                    lemma_elems_view(y@);
                }
                let ghost xa = elems_view(x@);
                let ghost ya = elems_view(y@);
                proof {
                    assert(xa.skip(0) =~= xa);
                    assert(ya.skip(0) =~= ya);
                }
                let mut i: usize = 0;
                let n = if x.len() < y.len() {
                    x.len()
                } else {
                    y.len()
                };
                while i < n
                    invariant
                        0 <= i <= n,
                        n == if x@.len() < y@.len() {
                            x@.len()
                        } else {
                            y@.len()
                        },
                        xa == elems_view(x@),
                        ya == elems_view(y@),
                        xa.len() == x@.len(),
                        ya.len() == y@.len(),
                        forall|j: int| 0 <= j < x@.len() ==> xa[j] == v_view(#[trigger] x@[j]),
                        forall|j: int| 0 <= j < y@.len() ==> ya[j] == v_view(#[trigger] y@[j]),
                        arr_cmp(xa, ya) == arr_cmp(xa.skip(i as int), ya.skip(i as int)),
                    decreases n - i,
                {
                    let c = x[i].cmp_with(&y[i]);
                    proof {
                        assert(xa.skip(i as int)[0] == xa[i as int]);
                        assert(ya.skip(i as int)[0] == ya[i as int]);
                        assert(xa.skip(i as int).drop_first() =~= xa.skip(i + 1));
                        assert(ya.skip(i as int).drop_first() =~= ya.skip(i + 1));
                    }
                    match c {
                        Cmp::Equal => {
                            i = i + 1;
                        },
                        _ => {
                            return c;
                        },
                    }
                }
                proof {
                    assert(xa.skip(i as int).len() == xa.len() - i);
                    assert(ya.skip(i as int).len() == ya.len() - i);
                }
                if x.len() < y.len() {
                    Cmp::Less
                } else if y.len() < x.len() {
                    Cmp::Greater
                } else {
                    Cmp::Equal
                }
            },
            (Val::Obj(x), Val::Obj(y)) => {
                proof {
                    lemma_entries_view(x@);
                    lemma_entries_view(y@);
                }
                let ghost xa = entries_view(x@);
                let ghost ya = entries_view(y@);
                proof {
                    assert(xa.skip(0) =~= xa);
                    assert(ya.skip(0) =~= ya);
                }
                let mut i: usize = 0;
                let n = if x.len() < y.len() {
                    x.len()
                } else {
                    y.len()
                };
                while i < n
                    invariant
                        0 <= i <= n,
                        n == if x@.len() < y@.len() {
                            x@.len()
                        } else {
                            y@.len()
                        },
                        xa == entries_view(x@),
                        ya == entries_view(y@),
                        xa.len() == x@.len(),
                        ya.len() == y@.len(),
                        forall|j: int| 0 <= j < x@.len() ==> xa[j] == ((#[trigger] x@[j]).0@, v_view(
                            x@[j].1,
                        )),
                        forall|j: int| 0 <= j < y@.len() ==> ya[j] == ((#[trigger] y@[j]).0@, v_view(
                            y@[j].1,
                        )),
                        obj_cmp(xa, ya) == obj_cmp(xa.skip(i as int), ya.skip(i as int)),
                    decreases n - i,
                {
                    proof {
                        assert(xa.skip(i as int)[0] == xa[i as int]);
                        assert(ya.skip(i as int)[0] == ya[i as int]);
                        assert(xa.skip(i as int).drop_first() =~= xa.skip(i + 1));
                        assert(ya.skip(i as int).drop_first() =~= ya.skip(i + 1));
                    }
                    let kc = str_compare(x[i].0.as_str(), y[i].0.as_str());
                    match kc {
                        Cmp::Equal => {
                            let vc = x[i].1.cmp_with(&y[i].1);
                            match vc {
                                Cmp::Equal => {
                                    i = i + 1;
                                },
                                _ => {
                                    return vc;
                                },
                            }
                        },
                        _ => {
                            return kc;
                        },
                    }
                }
                proof {
                    assert(xa.skip(i as int).len() == xa.len() - i);
                    assert(ya.skip(i as int).len() == ya.len() - i);
                }
                if x.len() < y.len() {
                    Cmp::Less
                } else if y.len() < x.len() {
                    Cmp::Greater
                } else {
                    Cmp::Equal
                }
            },
            _ => {
                let ra = self.kind_rank_exec();
                let rb = other.kind_rank_exec();
                if ra < rb {
                    Cmp::Less
                } else {
                    Cmp::Greater
                }
            },
        }
    }

    /// Rank of this value's kind.
    pub fn kind_rank_exec(&self) -> (r: u8)
        ensures
            r as int == kind_rank(self@),
    {
        match self {
            Val::Null => 0,
            Val::Bool(_) => 1,
            Val::Int(_) => 2,
            Val::Str(_) => 3,
            Val::Arr(_) => 4,
            Val::Obj(_) => 5,
        }
    }

    /// Whether two values are equal in the total order.
    pub fn eq_val(&self, other: &Val) -> (r: bool)
        ensures
            r == val_eq(self@, other@),
    {
        match self.cmp_with(other) {
            Cmp::Equal => true,
            _ => false,
        }
    }
}

/// Compare two strings lexicographically by character.
pub fn str_compare(a: &str, b: &str) -> (r: Cmp)
    ensures
        r == str_cmp(a@, b@),
{
    let na = a.unicode_len();
    let nb = b.unicode_len();
    let n = if na < nb {
        na
    } else {
        nb
    };
    proof {
        assert(a@.skip(0) =~= a@);
        assert(b@.skip(0) =~= b@);
    }
    let mut i: usize = 0;
    while i < n
        invariant
            0 <= i <= n,
            na == a@.len(),
            nb == b@.len(),
            n == if na < nb {
                na
            } else {
                nb
            },
            str_cmp(a@, b@) == str_cmp(a@.skip(i as int), b@.skip(i as int)),
        decreases n - i,
    {
        let ca = a.get_char(i);
        let cb = b.get_char(i);
        proof {
            assert(a@.skip(i as int)[0] == a@[i as int]);
            assert(b@.skip(i as int)[0] == b@[i as int]);
            assert(a@.skip(i as int).drop_first() =~= a@.skip(i + 1));
            assert(b@.skip(i as int).drop_first() =~= b@.skip(i + 1));
        }
        if (ca as u32) < (cb as u32) {
            return Cmp::Less;
        } else if (cb as u32) < (ca as u32) {
            return Cmp::Greater;
        }
        i = i + 1;
    }
    proof {
        assert(a@.skip(i as int).len() == a@.len() - i);
        assert(b@.skip(i as int).len() == b@.len() - i);
    }
    if na < nb {
        Cmp::Less
    } else if nb < na {
        Cmp::Greater
    } else {
        Cmp::Equal
    }
}

impl Clone for Val {
    /// A clone has the same model.
    #[verifier::loop_isolation(false)]
    fn clone(&self) -> (res: Self)
        ensures
            res@ == self@,
        decreases *self,
    {
        match self {
            Val::Null => Val::Null,
            Val::Bool(b) => Val::Bool(*b),
            Val::Int(i) => Val::Int(*i),
            Val::Str(s) => Val::Str(s.clone()),
            Val::Arr(a) => {
                let mut out: Vec<Val> = Vec::new();
                let mut i: usize = 0;
                while i < a.len()
                    invariant
                        0 <= i <= a@.len(),
                        out@.len() == i,
                        forall|j: int| 0 <= j < i ==> (#[trigger] out@[j])@ == a@[j]@,
                    decreases a@.len() - i,
                {
                    out.push(a[i].clone());
                    i = i + 1;
                }
                proof {
                    lemma_elems_view(out@);
                    lemma_elems_view(a@);
                    assert forall|j: int| 0 <= j < a@.len() implies elems_view(out@)[j]
                        == elems_view(a@)[j] by {
                        assert(out@[j]@ == a@[j]@);
                    }
                    assert(elems_view(out@) =~= elems_view(a@));
                }
                Val::Arr(out)
            },
            Val::Obj(o) => {
                let mut out: Vec<(String, Val)> = Vec::new();
                let mut i: usize = 0;
                while i < o.len()
                    invariant
                        0 <= i <= o@.len(),
                        out@.len() == i,
                        forall|j: int| 0 <= j < i ==> (#[trigger] out@[j]).0@ == o@[j].0@
                            && out@[j].1@ == o@[j].1@,
                    decreases o@.len() - i,
                {
                    let k = o[i].0.clone();
                    let v = o[i].1.clone();
                    out.push((k, v));
                    i = i + 1;
                }
                proof {
                    lemma_entries_view(out@);
                    lemma_entries_view(o@);
                    assert forall|j: int| 0 <= j < o@.len() implies entries_view(out@)[j]
                        == entries_view(o@)[j] by {
                        assert(out@[j].0@ == o@[j].0@ && out@[j].1@ == o@[j].1@);
                    }
                    assert(entries_view(out@) =~= entries_view(o@));
                }
                Val::Obj(out)
            },
        }
    }
}


/// Pushing an element extends the model by the element's model.
pub proof fn lemma_elems_view_push(s: Seq<Val>, v: Val)
    ensures
        elems_view(s.push(v)) == elems_view(s).push(v_view(v)),
{
    lemma_elems_view(s);
    lemma_elems_view(s.push(v));
    assert forall|t: int| 0 <= t < s.len() + 1 implies elems_view(s.push(v))[t] == elems_view(
        s,
    ).push(v_view(v))[t] by {
        assert(elems_view(s.push(v))[t] == v_view(s.push(v)[t]));
        if t < s.len() {
            assert(s.push(v)[t] == s[t]);
            assert(elems_view(s)[t] == v_view(s[t]));
        } else {
            assert(s.push(v)[t] == v);
        }
    }
    assert(elems_view(s.push(v)) =~= elems_view(s).push(v_view(v)));
}

/// Pushing an entry extends the model by the entry's model.
pub proof fn lemma_entries_view_push(s: Seq<(String, Val)>, k: String, v: Val)
    ensures
        entries_view(s.push((k, v))) == entries_view(s).push((k@, v_view(v))),
{
    lemma_entries_view(s);
    lemma_entries_view(s.push((k, v)));
    assert forall|t: int| 0 <= t < s.len() + 1 implies entries_view(s.push((k, v)))[t]
        == entries_view(s).push((k@, v_view(v)))[t] by {
        assert(entries_view(s.push((k, v)))[t] == (s.push((k, v))[t].0@, v_view(
            s.push((k, v))[t].1,
        )));
        if t < s.len() {
            assert(s.push((k, v))[t] == s[t]);
            assert(entries_view(s)[t] == (s[t].0@, v_view(s[t].1)));
        } else {
            assert(s.push((k, v))[t] == (k, v));
        }
    }
    assert(entries_view(s.push((k, v))) =~= entries_view(s).push((k@, v_view(v))));
}


/// The model of a concatenation is the concatenation of the models.
pub proof fn lemma_elems_view_concat(a: Seq<Val>, b: Seq<Val>)
    ensures
        elems_view(a + b) == elems_view(a) + elems_view(b),
{
    lemma_elems_view(a);
    lemma_elems_view(b);
    lemma_elems_view(a + b);
    assert forall|t: int| 0 <= t < a.len() + b.len() implies elems_view(a + b)[t] == (elems_view(a)
        + elems_view(b))[t] by {
        assert(elems_view(a + b)[t] == v_view((a + b)[t]));
        if t < a.len() {
            assert((a + b)[t] == a[t]);
            assert(elems_view(a)[t] == v_view(a[t]));
        } else {
            assert((a + b)[t] == b[t - a.len()]);
            assert(elems_view(b)[t - a.len()] == v_view(b[t - a.len()]));
        }
    }
    assert(elems_view(a + b) =~= elems_view(a) + elems_view(b));
}

/// The model of a clamped suffix is the clamped suffix of the model.
pub proof fn lemma_elems_view_skip(a: Seq<Val>, n: nat)
    ensures
        elems_view(crate::rc_list::list_skip(a, n)) == crate::rc_list::list_skip(
            elems_view(a),
            n,
        ),
{
    lemma_elems_view(a);
    if n <= a.len() {
        lemma_elems_view(a.skip(n as int));
        assert forall|t: int| 0 <= t < a.len() - n implies elems_view(a.skip(n as int))[t]
            == elems_view(a).skip(n as int)[t] by {
            assert(elems_view(a.skip(n as int))[t] == v_view(a.skip(n as int)[t]));
            assert(a.skip(n as int)[t] == a[n + t]);
            assert(elems_view(a)[n + t] == v_view(a[n + t]));
        }
        assert(elems_view(a.skip(n as int)) =~= elems_view(a).skip(n as int));
    } else {
        assert(elems_view(Seq::<Val>::empty()) =~= Seq::<ValV>::empty());
    }
}

} // verus!
