//! The typed tree that a formula compiles to.

use crate::decimal::Decimal;
use crate::decimal::DecimalView;
use crate::decimal::Rounding;
use vstd::prelude::*;

verus! {

/// A binary arithmetic operator.
#[derive(Debug, PartialEq, Eq, Clone, Copy, Structural)]
pub enum Operation {
    Add,
    Subtract,
    Multiply,
    Divide,
}

/// A reference into the event.
#[derive(Debug, PartialEq)]
pub enum EventAttribute {
    Code,
    Timestamp,
    Properties(String),
}

/// A call of one of the built-in functions, with its arguments.
#[derive(Debug, PartialEq)]
pub enum Function {
    Concat(Vec<Expression>),
    Ceil(Box<Expression>, Option<Box<Expression>>),
    Round(Box<Expression>, Option<Box<Expression>>),
    Floor(Box<Expression>, Option<Box<Expression>>),
    Least(Vec<Expression>),
    Greatest(Vec<Expression>),
}

/// A compiled formula.
#[derive(Debug, PartialEq)]
pub enum Expression {
    EventAttribute(EventAttribute),
    Function(Function),
    String(String),
    Decimal(Decimal),
    UnaryMinus(Box<Expression>),
    BinOp { lhs: Box<Expression>, op: Operation, rhs: Box<Expression> },
}

/// The mathematical content of a reference into the event.
pub enum AttributeView {
    Code,
    Timestamp,
    Properties(Seq<char>),
}

/// The mathematical content of a call: the three rounding functions are one
/// case, told apart by their direction.
pub enum FunctionView {
    Concat(Seq<ExpressionView>),
    Rounded(Rounding, Box<ExpressionView>, Option<Box<ExpressionView>>),
    Least(Seq<ExpressionView>),
    Greatest(Seq<ExpressionView>),
}

/// The mathematical content of a formula.
pub enum ExpressionView {
    EventAttribute(AttributeView),
    Function(FunctionView),
    String(Seq<char>),
    Decimal(DecimalView),
    UnaryMinus(Box<ExpressionView>),
    BinOp { lhs: Box<ExpressionView>, op: Operation, rhs: Box<ExpressionView> },
}

impl View for EventAttribute {
    type V = AttributeView;

    open spec fn view(&self) -> AttributeView {
        match self {
            EventAttribute::Code => AttributeView::Code,
            EventAttribute::Timestamp => AttributeView::Timestamp,
            EventAttribute::Properties(name) => AttributeView::Properties(name@),
        }
    }
}

impl Clone for EventAttribute {
    fn clone(&self) -> (r: Self)
        ensures
            r@ == self@,
    {
        match self {
            EventAttribute::Code => EventAttribute::Code,
            EventAttribute::Timestamp => EventAttribute::Timestamp,
            EventAttribute::Properties(name) => EventAttribute::Properties(name.clone()),
        }
    }
}

/// The views of a list of formulas, in order.
pub open spec fn expression_views(list: Seq<Expression>) -> Seq<ExpressionView>
    decreases list,
{
    Seq::new(
        list.len(),
        |i: int|
            if 0 <= i < list.len() {
                expression_view(list[i])
            } else {
                ExpressionView::String(Seq::empty())
            },
    )
}

/// The view of a formula that may be absent.
pub open spec fn optional_view(e: Option<Box<Expression>>) -> Option<Box<ExpressionView>>
    decreases e,
{
    match e {
        Some(b) => Some(Box::new(expression_view(*b))),
        None => None,
    }
}

/// The view of a call.
pub open spec fn function_view(f: Function) -> FunctionView
    decreases f,
{
    match f {
        Function::Concat(args) => FunctionView::Concat(expression_views(args@)),
        Function::Ceil(value, digits) => FunctionView::Rounded(
            Rounding::Ceiling,
            Box::new(expression_view(*value)),
            optional_view(digits),
        ),
        Function::Round(value, digits) => FunctionView::Rounded(
            Rounding::HalfUp,
            Box::new(expression_view(*value)),
            optional_view(digits),
        ),
        Function::Floor(value, digits) => FunctionView::Rounded(
            Rounding::Floor,
            Box::new(expression_view(*value)),
            optional_view(digits),
        ),
        Function::Least(args) => FunctionView::Least(expression_views(args@)),
        Function::Greatest(args) => FunctionView::Greatest(expression_views(args@)),
    }
}

/// The view of a formula.
pub open spec fn expression_view(e: Expression) -> ExpressionView
    decreases e,
{
    match e {
        Expression::EventAttribute(a) => ExpressionView::EventAttribute(a@),
        Expression::Function(f) => ExpressionView::Function(function_view(f)),
        Expression::String(s) => ExpressionView::String(s@),
        Expression::Decimal(d) => ExpressionView::Decimal(d@),
        Expression::UnaryMinus(inner) => ExpressionView::UnaryMinus(
            Box::new(expression_view(*inner)),
        ),
        Expression::BinOp { lhs, op, rhs } => ExpressionView::BinOp {
            lhs: Box::new(expression_view(*lhs)),
            op,
            rhs: Box::new(expression_view(*rhs)),
        },
    }
}

impl View for Function {
    type V = FunctionView;

    open spec fn view(&self) -> FunctionView {
        function_view(*self)
    }
}

impl View for Expression {
    type V = ExpressionView;

    open spec fn view(&self) -> ExpressionView {
        expression_view(*self)
    }
}

} // verus!
