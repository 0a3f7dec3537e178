//! A small expression language over billing events: formulas are compiled
//! once into a typed tree and evaluated against many events with exact
//! decimal arithmetic.

pub mod ast;
pub mod decimal;
pub mod evaluate;
pub mod event;
pub mod grammar;
pub mod laws;
pub mod parser;
pub mod syntax;

pub use ast::EventAttribute;
pub use ast::Expression;
pub use ast::Function;
pub use ast::Operation;
pub use decimal::Decimal;
pub use evaluate::EvaluationResult;
pub use evaluate::ExpressionError;
pub use evaluate::ExpressionValue;
pub use event::Event;
pub use event::PropertyValue;
pub use parser::ExpressionParser;
pub use parser::ParseError;

use evaluate::as_text;
use evaluate::eval;
use parser::compiled;
use parser::error_text;
use vstd::prelude::*;

verus! {

/// Says what is wrong with the text of a formula: `None` where it compiles.
pub fn validate(input: String) -> (r: Option<String>)
    ensures
        match compiled(input@) {
            Ok(_) => r is None,
            Err(e) => r is Some && r->Some_0@ == error_text(e),
        },
{
    match ExpressionParser::parse_expression(input.as_str()) {
        Ok(_) => None,
        Err(e) => Some(e.message()),
    }
}

/// Compiles a formula: `None` where the text is no formula.
pub fn parse(input: String) -> (r: Option<Expression>)
    ensures
        match compiled(input@) {
            Ok(tree) => r is Some && r->Some_0@ == tree,
            Err(_) => r is None,
        },
{
    match ExpressionParser::parse_expression(input.as_str()) {
        Ok(tree) => Some(tree),
        Err(_) => None,
    }
}

/// The text of what a formula evaluates to on an event.
pub open spec fn evaluated_text(input: Seq<char>, event: event::EventView) -> Option<Seq<char>> {
    match compiled(input) {
        Err(_) => None,
        Ok(tree) => match eval(tree, event) {
            Err(_) => None,
            Ok(value) => match as_text(value) {
                Err(_) => None,
                Ok(text) => Some(text),
            },
        },
    }
}

/// Compiles a formula, evaluates it against the event and renders the
/// result: `None` where any of the three fails.
pub fn evaluate(input: &str, event: &Event) -> (r: Option<String>)
    ensures
        match evaluated_text(input@, event@) {
            Some(text) => r is Some && r->Some_0@ == text,
            None => r is None,
        },
{
    let tree = match ExpressionParser::parse_expression(input) {
        Ok(tree) => tree,
        Err(_) => { return None; },
    };
    let value = match tree.evaluate(event) {
        Ok(value) => value,
        Err(_) => { return None; },
    };
    match value.to_string() {
        Ok(text) => Some(text),
        Err(_) => None,
    }
}

} // verus!
