//! A persistent singly-linked list with shared tails, used as the stack
//! of variable bindings.

use vstd::prelude::*;

use crate::val::{elems_view, Val, ValV};
use std::rc::Rc;

verus! {

/// Relies on `Rc::as_ref`: a reference to the pointed-to value.
#[verifier::external_body]
fn rc_as_ref<T>(rc: &Rc<T>) -> (r: &T)
    ensures
        *r == **rc,
{
    rc.as_ref()
}

/// Relies on `Rc::clone`: another pointer to the same value.
#[verifier::external_body]
fn rc_clone<T>(rc: &Rc<T>) -> (r: Rc<T>)
    ensures
        *r == **rc,
{
    Rc::clone(rc)
}

/// A persistent list; clones share the spine.
pub struct List<T>(Rc<Node<T>>);

enum Node<T> {
    Nil,
    Cons(T, List<T>),
}

impl<T> List<T> {
    /// The elements, most recently added first.
    pub closed spec fn elems(self) -> Seq<T>
        decreases self,
    {
        match *self.0 {
            Node::Nil => Seq::empty(),
            Node::Cons(x, xs) => seq![x] + xs.elems(),
        }
    }

    /// Return an empty list.
    pub fn new() -> (r: Self)
        ensures
            r.elems() == Seq::<T>::empty(),
    {
        List(Rc::new(Node::Nil))
    }

    /// Add a new element at the front of the list.
    pub fn cons(self, x: T) -> (r: Self)
        ensures
            r.elems() == seq![x] + self.elems(),
    {
        List(Rc::new(Node::Cons(x, self)))
    }

    /// Add each element of a vector to the front of the list in turn, so
    /// that the last one ends up at the front.
    pub fn extend(self, xs: Vec<T>) -> (r: Self)
        ensures
            r.elems() == push_all(self.elems(), xs@),
    {
        let ghost e0 = self.elems();
        let ghost xs0 = xs@;
        let mut cur = self;
        let mut xs = xs;
        while xs.len() > 0
            invariant
                push_all(cur.elems(), xs@) == push_all(e0, xs0),
            decreases xs@.len(),
        {
            let ghost xsb = xs@;
            let x = xs.remove(0);
            proof {
                assert(xs@ =~= xsb.drop_first());
            }
            cur = cur.cons(x);
        }
        cur
    }

    /// The element most recently added, if any.
    pub fn head(&self) -> (r: Option<&T>)
        ensures
            match r {
                Some(x) => self.elems().len() > 0 && *x == self.elems()[0],
                None => self.elems().len() == 0,
            },
    {
        match rc_as_ref(&self.0) {
            Node::Nil => None,
            Node::Cons(x, _) => Some(x),
        }
    }

    /// Drop the `n` elements most recently added; an `n` beyond the
    /// length gives the empty list.
    pub fn skip(&self, n: usize) -> (r: &Self)
        ensures
            r.elems() == list_skip(self.elems(), n as nat),
        decreases n,
    {
        if n == 0 {
            proof {
                assert(list_skip(self.elems(), 0) =~= self.elems());
            }
            self
        } else {
            match rc_as_ref(&self.0) {
                Node::Nil => {
                    proof {
                        assert(self.elems().len() == 0);
                        assert(list_skip(self.elems(), n as nat) =~= self.elems());
                    }
                    self
                },
                Node::Cons(_, xs) => {
                    let r = xs.skip(n - 1);
                    proof {
                        assert(xs.elems() =~= self.elems().drop_first());
                        if n as nat <= self.elems().len() {
                            assert(list_skip(xs.elems(), (n - 1) as nat) =~= list_skip(
                                self.elems(),
                                n as nat,
                            ));
                        } else {
                            assert(list_skip(xs.elems(), (n - 1) as nat) =~= list_skip(
                                self.elems(),
                                n as nat,
                            ));
                        }
                    }
                    r
                },
            }
        }
    }

    /// The `n`-th element, starting from the most recently added.
    pub fn get(&self, n: usize) -> (r: Option<&T>)
        ensures
            match r {
                Some(x) => n < self.elems().len() && *x == self.elems()[n as int],
                None => n >= self.elems().len(),
            },
    {
        self.skip(n).head()
    }

    /// The elements as a vector, most recently added first.
    pub fn iter(&self) -> (r: Vec<T>) where T: Clone
        ensures
            r@.len() == self.elems().len(),
            forall|i: int| 0 <= i < r@.len() ==> vstd::pervasive::cloned::<T>(
                self.elems()[i],
                #[trigger] r@[i],
            ),
        decreases *self,
    {
        match rc_as_ref(&self.0) {
            Node::Nil => Vec::new(),
            Node::Cons(x, xs) => {
                let mut out: Vec<T> = Vec::new();
                out.push(x.clone());
                let mut rest = xs.iter();
                let ghost restg = rest@;
                out.append(&mut rest);
                proof {
                    assert(self.elems().drop_first() =~= xs.elems());
                    assert forall|i: int| 0 <= i < out@.len() implies vstd::pervasive::cloned::<T>(
                        self.elems()[i],
                        #[trigger] out@[i],
                    ) by {
                        if i > 0 {
                            assert(out@[i] == restg[i - 1]);
                            assert(self.elems()[i] == xs.elems()[i - 1]);
                        }
                    }
                }
                out
            },
        }
    }
}

impl<T: Clone> List<T> {
    /// Split the list into its front element and the rest, cloning what
    /// is shared.
    pub fn pop(self) -> (r: Option<(T, Self)>)
        ensures
            match r {
                Some((x, rest)) => self.elems().len() > 0 && vstd::pervasive::cloned::<T>(
                    self.elems()[0],
                    x,
                ) && rest.elems() == self.elems().drop_first(),
                None => self.elems().len() == 0,
            },
    {
        match rc_as_ref(&self.0) {
            Node::Nil => None,
            Node::Cons(x, xs) => {
                let xc = x.clone();
                let rest = xs.clone();
                proof {
                    assert(xs.elems() =~= self.elems().drop_first());
                }
                Some((xc, rest))
            },
        }
    }
}

impl<T> Clone for List<T> {
    /// A clone shares the spine: it has the same elements.
    fn clone(&self) -> (res: Self)
        ensures
            res == *self,
    {
        List(rc_clone(&self.0))
    }
}

/// `s` with every element of `xs` added at the front in turn.
pub open spec fn push_all<T>(s: Seq<T>, xs: Seq<T>) -> Seq<T>
    decreases xs.len(),
{
    if xs.len() == 0 {
        s
    } else {
        push_all(seq![xs[0]] + s, xs.drop_first())
    }
}

/// `skip` clamped at the length.
pub open spec fn list_skip<T>(s: Seq<T>, n: nat) -> Seq<T> {
    if n <= s.len() {
        s.skip(n as int)
    } else {
        Seq::empty()
    }
}

/// The stack of variable bindings: values, innermost binding first.
pub type Ctx = List<Val>;

/// Model of a context: the bound values, innermost first.
pub open spec fn ctx_view(c: Ctx) -> Seq<ValV> {
    elems_view(c.elems())
}

} // verus!
