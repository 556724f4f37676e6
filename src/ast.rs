//! The syntax tree of a filter, and its mathematical model.
use vstd::prelude::*;

verus! {

/// The comparison of an ordering term.
#[derive(Debug, Clone, Copy, PartialEq, Eq, Structural)]
pub enum OrderOperator {
    Lt,
    Lte,
    Gt,
    Gte,
}

/// A parsed filter. A term without a field applies to every wildcard field.
#[derive(Debug, PartialEq, Eq)]
pub enum Query {
    Or { queries: Vec<Query> },
    And { queries: Vec<Query> },
    Not { query: Box<Query> },
    Equal { field: Option<String>, value: String },
    Order { field: Option<String>, operator: OrderOperator, value: String },
}

/// The model of a [`Query`]: the same tree over sequences and characters.
pub enum Expr {
    Or(Seq<Expr>),
    And(Seq<Expr>),
    Not(Box<Expr>),
    Equal(Option<Seq<char>>, Seq<char>),
    Order(Option<Seq<char>>, OrderOperator, Seq<char>),
}

pub open spec fn name_view(field: Option<String>) -> Option<Seq<char>> {
    match field {
        Some(f) => Some(f@),
        None => None,
    }
}

pub open spec fn expr_of(q: Query) -> Expr
    decreases q,
{
    match q {
        Query::Or { queries } => Expr::Or(exprs_of(queries@)),
        Query::And { queries } => Expr::And(exprs_of(queries@)),
        Query::Not { query } => Expr::Not(Box::new(expr_of(*query))),
        Query::Equal { field, value } => Expr::Equal(name_view(field), value@),
        Query::Order { field, operator, value } => Expr::Order(name_view(field), operator, value@),
    }
}

pub open spec fn exprs_of(qs: Seq<Query>) -> Seq<Expr>
    decreases qs,
{
    if qs.len() == 0 {
        Seq::empty()
    } else {
        exprs_of(qs.drop_last()).push(expr_of(qs.last()))
    }
}

pub proof fn lemma_exprs_of_index(qs: Seq<Query>)
    ensures
        exprs_of(qs).len() == qs.len(),
        forall|i: int| 0 <= i < qs.len() ==> #[trigger] exprs_of(qs)[i] == expr_of(qs[i]),
    decreases qs.len(),
{
    if qs.len() > 0 {
        lemma_exprs_of_index(qs.drop_last());
        assert forall|i: int| 0 <= i < qs.len() implies #[trigger] exprs_of(qs)[i] == expr_of(qs[i]) by {
            if i < qs.len() - 1 {
                assert(qs.drop_last()[i] == qs[i]);
            }
        }
    }
}

pub proof fn lemma_exprs_of_push(qs: Seq<Query>, q: Query)
    ensures
        exprs_of(qs.push(q)) == exprs_of(qs).push(expr_of(q)),
{
    assert(qs.push(q).drop_last() =~= qs);
}

impl View for Query {
    type V = Expr;

    open spec fn view(&self) -> Expr {
        expr_of(*self)
    }
}

} // verus!
