use vstd::prelude::*;

use crate::value::Value;

verus! {

/// A node of the input tree: a name, a list of nodes, or a literal value.
#[derive(Debug)]
pub enum Expr {
    Atom(String),
    List(Vec<Expr>),
    Literal(Value),
}

/// The mathematical form of an [`Expr`].
pub enum SExpr {
    Atom(Seq<char>),
    List(Seq<SExpr>),
    Literal(Value),
}

impl View for Expr {
    type V = SExpr;

    open spec fn view(&self) -> SExpr
        decreases self,
    {
        match self {
            Expr::Atom(s) => SExpr::Atom(s@),
            Expr::List(items) => SExpr::List(views_of(items@)),
            Expr::Literal(v) => SExpr::Literal(*v),
        }
    }
}

/// The views of a sequence of nodes, in order.
pub open spec fn views_of(es: Seq<Expr>) -> Seq<SExpr>
    decreases es,
{
    if es.len() == 0 {
        Seq::empty()
    } else {
        views_of(es.drop_last()).push(es.last().view())
    }
}

/// The views of a sequence of nodes are the nodes' views, one for one.
pub proof fn lemma_views_of(es: Seq<Expr>)
    ensures
        views_of(es).len() == es.len(),
        forall|i: int| 0 <= i < views_of(es).len() ==> #[trigger] views_of(es)[i] == es[i]@,
    decreases es.len(),
{
    if es.len() > 0 {
        lemma_views_of(es.drop_last());
        assert(views_of(es) == views_of(es.drop_last()).push(es.last()@));
        assert forall|i: int| 0 <= i < views_of(es).len() implies #[trigger] views_of(es)[i]
            == es[i]@ by {
            if i < es.len() - 1 {
                assert(es.drop_last()[i] == es[i]);
            }
        }
    }
}

impl Expr {
    /// A copy of the node and of everything below it.
    pub fn copied(&self) -> (r: Expr)
        ensures
            r@ == self@,
        decreases self,
    {
        match self {
            Expr::Atom(s) => Expr::Atom(s.clone()),
            Expr::Literal(v) => Expr::Literal(*v),
            Expr::List(items) => {
                let mut r: Vec<Expr> = Vec::new();
                let mut i: usize = 0;
                while i < items.len()
                    invariant
                        *self == Expr::List(*items),
                        i <= items@.len(),
                        views_of(r@) == views_of(items@.take(i as int)),
                    decreases items@.len() - i,
                {
                    proof {
                        assert(items@.take(i as int + 1).drop_last() =~= items@.take(i as int));
                    }
                    proof {
                        assert(decreases_to!(*self => self->List_0));
                        assert(decreases_to!(*items => items@));
                        assert(decreases_to!(items@ => items@[i as int]));
                    }
                    let c = items[i].copied();
                    let ghost prev = r@;
                    r.push(c);
                    proof {
                        assert(r@.drop_last() =~= prev);
                    }
                    i = i + 1;
                }
                proof {
                    assert(items@.take(items@.len() as int) =~= items@);
                }
                Expr::List(r)
            },
        }
    }
}

/// Copies of the nodes of `es` from index `start` on, in order.
pub fn copy_from(es: &[Expr], start: usize) -> (r: Vec<Expr>)
    requires
        start <= es@.len(),
    ensures
        views_of(r@) == views_of(es@).skip(start as int),
{
    let mut r: Vec<Expr> = Vec::new();
    let mut i: usize = start;
    proof {
        lemma_views_of(es@);
    }
    while i < es.len()
        invariant
            start <= i <= es@.len(),
            views_of(es@).len() == es@.len(),
            forall|j: int| 0 <= j < es@.len() ==> #[trigger] views_of(es@)[j] == es@[j]@,
            views_of(r@) == views_of(es@).subrange(start as int, i as int),
        decreases es@.len() - i,
    {
        let c = es[i].copied();
        let ghost prev = r@;
        r.push(c);
        proof {
            assert(r@.drop_last() =~= prev);
            assert(views_of(es@).subrange(start as int, i + 1) =~= views_of(es@).subrange(
                start as int,
                i as int,
            ).push(es@[i as int]@));
        }
        i = i + 1;
    }
    proof {
        assert(views_of(es@).subrange(start as int, es@.len() as int) =~= views_of(es@).skip(
            start as int,
        ));
    }
    r
}

} // verus!
