//! Classified syntax: what the grammar makes of the text of a formula
//! before precedence is applied.
//!
//! An expression is a flat run of pairs: operands, each a primary behind any
//! number of unary minus signs, with one infix operator between neighbours.
//! Parentheses and function calls nest such runs.

use crate::ast::AttributeView;
use crate::ast::EventAttribute;
use vstd::prelude::*;

verus! {

/// The name of a built-in function.
#[derive(Debug, PartialEq, Eq, Clone, Copy, Structural)]
pub enum FunctionName {
    Concat,
    Ceil,
    Round,
    Floor,
    Least,
    Greatest,
}

/// One classified piece of a formula.
#[derive(Debug, PartialEq)]
pub enum Pair {
    /// A function call: its name and the run of each argument.
    Function(FunctionName, Vec<Vec<Pair>>),
    /// What is written for a number: a run of digits and points.
    Decimal(String),
    /// A run between parentheses.
    Expr(Vec<Pair>),
    /// A reference into the event.
    Variable(EventAttribute),
    /// The content of a quoted string.
    String(String),
    UnaryMinus,
    Add,
    Subtract,
    Multiply,
    Divide,
}

/// The mathematical content of a pair.
pub enum PairView {
    Function(FunctionName, Seq<Seq<PairView>>),
    Decimal(Seq<char>),
    Expr(Seq<PairView>),
    Variable(AttributeView),
    String(Seq<char>),
    UnaryMinus,
    Add,
    Subtract,
    Multiply,
    Divide,
}

/// The views of a run of pairs, in order.
pub open spec fn run_view(run: Seq<Pair>) -> Seq<PairView>
    decreases run,
{
    Seq::new(
        run.len(),
        |i: int|
            if 0 <= i < run.len() {
                pair_view(run[i])
            } else {
                PairView::UnaryMinus
            },
    )
}

/// The views of the runs of a call's arguments, in order.
pub open spec fn runs_view(runs: Seq<Vec<Pair>>) -> Seq<Seq<PairView>>
    decreases runs,
{
    Seq::new(
        runs.len(),
        |i: int|
            if 0 <= i < runs.len() {
                run_view(runs[i]@)
            } else {
                Seq::empty()
            },
    )
}

/// The view of a pair.
pub open spec fn pair_view(p: Pair) -> PairView
    decreases p,
{
    match p {
        Pair::Function(name, args) => PairView::Function(name, runs_view(args@)),
        Pair::Decimal(text) => PairView::Decimal(text@),
        Pair::Expr(inner) => PairView::Expr(run_view(inner@)),
        Pair::Variable(a) => PairView::Variable(a@),
        Pair::String(s) => PairView::String(s@),
        Pair::UnaryMinus => PairView::UnaryMinus,
        Pair::Add => PairView::Add,
        Pair::Subtract => PairView::Subtract,
        Pair::Multiply => PairView::Multiply,
        Pair::Divide => PairView::Divide,
    }
}

impl View for Pair {
    type V = PairView;

    open spec fn view(&self) -> PairView {
        pair_view(*self)
    }
}

impl PairView {
    /// How tightly an infix operator binds: 1 for `+` and `-`, 2 for `*`
    /// and `/`, 0 for what is no infix operator.
    pub open spec fn level(self) -> nat {
        match self {
            PairView::Add => 1,
            PairView::Subtract => 1,
            PairView::Multiply => 2,
            PairView::Divide => 2,
            _ => 0,
        }
    }

    /// Whether the pair is an infix operator.
    pub open spec fn is_infix(self) -> bool {
        self.level() > 0
    }

    /// Whether the pair is a unary minus.
    pub open spec fn is_prefix(self) -> bool {
        self is UnaryMinus
    }

    /// Whether the pair is a primary: neither an infix operator nor a unary
    /// minus.
    pub open spec fn is_primary(self) -> bool {
        !self.is_infix() && !self.is_prefix()
    }
}

/// Whether a run has the shape of an expression: it ends in a primary, a
/// primary is followed by an infix operator or by nothing, and an infix
/// operator or a unary minus by a unary minus or a primary.
pub open spec fn is_expression_run(run: Seq<PairView>) -> bool {
    &&& run.len() > 0
    &&& !run[0].is_infix()
    &&& run.last().is_primary()
    &&& forall|i: int|
        0 <= i < run.len() - 1 ==> (#[trigger] run[i].is_primary() <==> run[i + 1].is_infix())
}

/// Whether every run in a pair, at any depth, has the shape of an expression.
pub open spec fn well_formed_pair(p: PairView) -> bool
    decreases p,
{
    match p {
        PairView::Function(_, args) => forall|i: int|
            0 <= i < args.len() ==> well_formed(#[trigger] args[i]),
        PairView::Expr(inner) => well_formed(inner),
        _ => true,
    }
}

/// Whether a run and every run nested in it has the shape of an expression.
pub open spec fn well_formed(run: Seq<PairView>) -> bool
    decreases run,
{
    &&& is_expression_run(run)
    &&& forall|i: int| 0 <= i < run.len() ==> well_formed_pair(#[trigger] run[i])
}

} // verus!
