//! Evaluation of a compiled formula against an event.

use crate::ast::expression_views;
use crate::ast::AttributeView;
use crate::ast::EventAttribute;
use crate::ast::Expression;
use crate::ast::ExpressionView;
use crate::ast::Function;
use crate::ast::FunctionView;
use crate::ast::Operation;
use crate::decimal::decimal_add;
use crate::decimal::decimal_difference;
use crate::decimal::decimal_div;
use crate::decimal::decimal_le;
use crate::decimal::decimal_mul;
use crate::decimal::decimal_neg;
use crate::decimal::decimal_negation;
use crate::decimal::decimal_product;
use crate::decimal::decimal_ratio;
use crate::decimal::decimal_round;
use crate::decimal::decimal_rounded;
use crate::decimal::decimal_sub;
use crate::decimal::decimal_sum;
use crate::decimal::decimal_to_i64;
use crate::decimal::decimal_truncated;
use crate::decimal::lemma_equal_in_range;
use crate::decimal::decimal_of_text;
use crate::decimal::plain_text;
use crate::decimal::Decimal;
use crate::decimal::DecimalView;
use crate::decimal::Rounding;
use crate::decimal::MAX_SCALE;
use crate::event::Event;
use crate::event::EventView;
use crate::event::PropertyValue;
use crate::event::PropertyView;
use vstd::prelude::*;
use vstd::string::StringExecFns;

verus! {

/// What a formula evaluates to: a number, or text.
#[derive(Debug, PartialEq)]
pub enum ExpressionValue {
    Number(Decimal),
    String(String),
}

/// The mathematical content of a value.
pub enum ValueView {
    Number(DecimalView),
    String(Seq<char>),
}

impl View for ExpressionValue {
    type V = ValueView;

    open spec fn view(&self) -> ValueView {
        match self {
            ExpressionValue::Number(d) => ValueView::Number(d@),
            ExpressionValue::String(s) => ValueView::String(s@),
        }
    }
}

/// Why an evaluation failed.
#[derive(Debug)]
pub enum ExpressionError {
    /// Text that is no decimal stood where a number was needed, or a digit
    /// count was no integer.
    ExpectedDecimal,
    /// The event has no property of this name.
    MissingVariable(String),
    /// The right-hand side of a division was zero.
    DivisionByZero,
    /// A number's scale lies beyond `MAX_SCALE` in magnitude.
    ScaleOutOfRange,
}

/// The mathematical content of a failure.
pub enum ErrorView {
    ExpectedDecimal,
    MissingVariable(Seq<char>),
    DivisionByZero,
    ScaleOutOfRange,
}

impl View for ExpressionError {
    type V = ErrorView;

    open spec fn view(&self) -> ErrorView {
        match self {
            ExpressionError::ExpectedDecimal => ErrorView::ExpectedDecimal,
            ExpressionError::MissingVariable(name) => ErrorView::MissingVariable(name@),
            ExpressionError::DivisionByZero => ErrorView::DivisionByZero,
            ExpressionError::ScaleOutOfRange => ErrorView::ScaleOutOfRange,
        }
    }
}

/// What an evaluation returns.
pub type EvaluationResult<T> = Result<T, ExpressionError>;

/// The outcome of an evaluation, by its views.
pub open spec fn outcome(r: EvaluationResult<ExpressionValue>) -> Result<ValueView, ErrorView> {
    match r {
        Ok(v) => Ok(v@),
        Err(e) => Err(e@),
    }
}

/// The number in a value: text counts as the decimal it reads as, and is
/// refused where it reads as none.
pub open spec fn as_decimal(v: ValueView) -> Result<DecimalView, ErrorView> {
    match v {
        ValueView::Number(d) => Ok(d),
        ValueView::String(s) => match decimal_of_text(s) {
            Some(d) => Ok(d),
            None => Err(ErrorView::ExpectedDecimal),
        },
    }
}

/// The text of a value: text as it is, a number in plain notation.
pub open spec fn as_text(v: ValueView) -> Result<Seq<char>, ErrorView> {
    match v {
        ValueView::String(s) => Ok(s),
        ValueView::Number(d) => if d.in_range() {
            Ok(plain_text(d))
        } else {
            Err(ErrorView::ScaleOutOfRange)
        },
    }
}

/// What a stored property evaluates to: text that reads as a decimal counts
/// as that number.
pub open spec fn coerced(p: PropertyView) -> ValueView {
    match p {
        PropertyView::Number(d) => ValueView::Number(d),
        PropertyView::String(s) => match decimal_of_text(s) {
            Some(d) => ValueView::Number(d),
            None => ValueView::String(s),
        },
    }
}

/// What a reference into the event evaluates to.
pub open spec fn eval_attribute(a: AttributeView, event: EventView) -> Result<
    ValueView,
    ErrorView,
> {
    match a {
        AttributeView::Code => Ok(ValueView::String(event.code)),
        AttributeView::Timestamp => Ok(ValueView::Number(event.timestamp)),
        AttributeView::Properties(name) => if event.properties.contains_key(name) {
            Ok(coerced(event.properties[name]))
        } else {
            Err(ErrorView::MissingVariable(name))
        },
    }
}

/// A binary operator applied to two numbers.
pub open spec fn apply_operation(op: Operation, l: DecimalView, r: DecimalView) -> Result<
    ValueView,
    ErrorView,
> {
    if op == Operation::Divide && r.unscaled == 0 {
        Err(ErrorView::DivisionByZero)
    } else if !l.in_range() || !r.in_range() {
        Err(ErrorView::ScaleOutOfRange)
    } else {
        Ok(
            ValueView::Number(
                match op {
                    Operation::Add => decimal_sum(l, r),
                    Operation::Subtract => decimal_difference(l, r),
                    Operation::Multiply => decimal_product(l, r),
                    Operation::Divide => decimal_ratio(l, r),
                },
            ),
        )
    }
}

/// The digit count that a number stands for: it has to be an integer that
/// an `i64` holds.
pub open spec fn digit_count(d: DecimalView) -> Result<int, ErrorView> {
    let t = decimal_truncated(d);
    if !d.in_range() {
        Err(ErrorView::ScaleOutOfRange)
    } else if !(i64::MIN <= t <= i64::MAX) {
        Err(ErrorView::ExpectedDecimal)
    } else if !(DecimalView { unscaled: t, scale: 0 }).same_number(d) {
        Err(ErrorView::ExpectedDecimal)
    } else {
        Ok(t)
    }
}

/// A number rounded to `digits` fractional digits.
pub open spec fn apply_rounding(mode: Rounding, d: DecimalView, digits: int) -> Result<
    ValueView,
    ErrorView,
> {
    if !d.in_range() || !(-MAX_SCALE <= digits <= MAX_SCALE) {
        Err(ErrorView::ScaleOutOfRange)
    } else {
        Ok(ValueView::Number(decimal_rounded(d, digits, mode)))
    }
}

/// The smallest of the first `n` numbers, `n` at least 1; of equal ones the
/// first.
pub open spec fn least_of(list: Seq<DecimalView>, n: nat) -> Result<DecimalView, ErrorView>
    decreases n,
{
    if n <= 1 {
        Ok(list[0])
    } else {
        match least_of(list, (n - 1) as nat) {
            Err(e) => Err(e),
            Ok(best) => if !best.in_range() || !list[n - 1].in_range() {
                Err(ErrorView::ScaleOutOfRange)
            } else if best.le(list[n - 1]) {
                Ok(best)
            } else {
                Ok(list[n - 1])
            },
        }
    }
}

/// The largest of the first `n` numbers, `n` at least 1; of equal ones the
/// last.
pub open spec fn greatest_of(list: Seq<DecimalView>, n: nat) -> Result<DecimalView, ErrorView>
    decreases n,
{
    if n <= 1 {
        Ok(list[0])
    } else {
        match greatest_of(list, (n - 1) as nat) {
            Err(e) => Err(e),
            Ok(best) => if !best.in_range() || !list[n - 1].in_range() {
                Err(ErrorView::ScaleOutOfRange)
            } else if best.le(list[n - 1]) {
                Ok(list[n - 1])
            } else {
                Ok(best)
            },
        }
    }
}

/// A formula evaluated to a number.
pub open spec fn eval_decimal(e: ExpressionView, event: EventView) -> Result<
    DecimalView,
    ErrorView,
>
    decreases e, 1nat,
{
    match eval(e, event) {
        Err(err) => Err(err),
        Ok(v) => as_decimal(v),
    }
}

/// The texts of the first `n` formulas joined in order, or the first failure
/// among them.
pub open spec fn eval_texts(args: Seq<ExpressionView>, n: nat, event: EventView) -> Result<
    Seq<char>,
    ErrorView,
>
    decreases args, n,
{
    if n == 0 || n > args.len() {
        Ok(Seq::empty())
    } else {
        match eval_texts(args, (n - 1) as nat, event) {
            Err(err) => Err(err),
            Ok(prefix) => match eval(args[n - 1], event) {
                Err(err) => Err(err),
                Ok(v) => match as_text(v) {
                    Err(err) => Err(err),
                    Ok(t) => Ok(prefix + t),
                },
            },
        }
    }
}

/// The numbers of the first `n` formulas in order, or the first failure
/// among them.
pub open spec fn eval_decimals(args: Seq<ExpressionView>, n: nat, event: EventView) -> Result<
    Seq<DecimalView>,
    ErrorView,
>
    decreases args, n,
{
    if n == 0 || n > args.len() {
        Ok(Seq::empty())
    } else {
        match eval_decimals(args, (n - 1) as nat, event) {
            Err(err) => Err(err),
            Ok(prefix) => match eval_decimal(args[n - 1], event) {
                Err(err) => Err(err),
                Ok(d) => Ok(prefix.push(d)),
            },
        }
    }
}

/// What a call evaluates to: its arguments are evaluated from left to right,
/// and the first failure among them is the failure of the call.
pub open spec fn eval_function(f: FunctionView, event: EventView) -> Result<ValueView, ErrorView>
    decreases f, 0nat,
{
    match f {
        FunctionView::Concat(args) => match eval_texts(args, args.len(), event) {
            Err(err) => Err(err),
            Ok(t) => Ok(ValueView::String(t)),
        },
        FunctionView::Rounded(mode, value, digits) => match eval_decimal(*value, event) {
            Err(err) => Err(err),
            Ok(d) => match digits {
                None => apply_rounding(mode, d, 0),
                Some(digits) => match eval_decimal(*digits, event) {
                    Err(err) => Err(err),
                    Ok(dd) => match digit_count(dd) {
                        Err(err) => Err(err),
                        Ok(n) => apply_rounding(mode, d, n),
                    },
                },
            },
        },
        FunctionView::Least(args) => match eval_decimals(args, args.len(), event) {
            Err(err) => Err(err),
            Ok(list) => if list.len() == 0 {
                Err(ErrorView::ExpectedDecimal)
            } else {
                match least_of(list, list.len()) {
                    Err(err) => Err(err),
                    Ok(d) => Ok(ValueView::Number(d)),
                }
            },
        },
        FunctionView::Greatest(args) => match eval_decimals(args, args.len(), event) {
            Err(err) => Err(err),
            Ok(list) => if list.len() == 0 {
                Err(ErrorView::ExpectedDecimal)
            } else {
                match greatest_of(list, list.len()) {
                    Err(err) => Err(err),
                    Ok(d) => Ok(ValueView::Number(d)),
                }
            },
        },
    }
}

/// The value of a formula on an event: the first failure met on a walk from
/// left to right, depth first, or the value where there is none.
pub open spec fn eval(e: ExpressionView, event: EventView) -> Result<ValueView, ErrorView>
    decreases e, 0nat,
{
    match e {
        ExpressionView::EventAttribute(a) => eval_attribute(a, event),
        ExpressionView::Function(f) => eval_function(f, event),
        ExpressionView::String(s) => Ok(ValueView::String(s)),
        ExpressionView::Decimal(d) => Ok(ValueView::Number(d)),
        ExpressionView::UnaryMinus(inner) => match eval_decimal(*inner, event) {
            Err(err) => Err(err),
            Ok(d) => Ok(ValueView::Number(decimal_negation(d))),
        },
        ExpressionView::BinOp { lhs, op, rhs } => match eval_decimal(*lhs, event) {
            Err(err) => Err(err),
            Ok(l) => match eval_decimal(*rhs, event) {
                Err(err) => Err(err),
                Ok(r) => apply_operation(op, l, r),
            },
        },
    }
}

/// The views of a list of numbers, in order.
pub open spec fn decimal_views(list: Seq<Decimal>) -> Seq<DecimalView> {
    Seq::new(list.len(), |i: int| list[i]@)
}

/// A failure among the first `k` texts is the failure of any longer prefix.
proof fn lemma_texts_failure_stays(args: Seq<ExpressionView>, k: nat, n: nat, event: EventView)
    requires
        k <= n <= args.len(),
    ensures
        eval_texts(args, k, event) is Err ==> eval_texts(args, n, event) == eval_texts(
            args,
            k,
            event,
        ),
    decreases n,
{
    if k < n {
        lemma_texts_failure_stays(args, k, (n - 1) as nat, event);
    }
}

/// A failure among the first `k` numbers is the failure of any longer prefix.
proof fn lemma_decimals_failure_stays(args: Seq<ExpressionView>, k: nat, n: nat, event: EventView)
    requires
        k <= n <= args.len(),
    ensures
        eval_decimals(args, k, event) is Err ==> eval_decimals(args, n, event) == eval_decimals(
            args,
            k,
            event,
        ),
    decreases n,
{
    if k < n {
        lemma_decimals_failure_stays(args, k, (n - 1) as nat, event);
    }
}

/// A failure of `least` among the first `k` numbers is its failure on any
/// longer prefix.
proof fn lemma_least_failure_stays(list: Seq<DecimalView>, k: nat, n: nat)
    requires
        1 <= k <= n,
        least_of(list, k) is Err,
    ensures
        least_of(list, n) == least_of(list, k),
    decreases n,
{
    if k < n {
        lemma_least_failure_stays(list, k, (n - 1) as nat);
    }
}

/// A failure of `greatest` among the first `k` numbers is its failure on any
/// longer prefix.
proof fn lemma_greatest_failure_stays(list: Seq<DecimalView>, k: nat, n: nat)
    requires
        1 <= k <= n,
        greatest_of(list, k) is Err,
    ensures
        greatest_of(list, n) == greatest_of(list, k),
    decreases n,
{
    if k < n {
        lemma_greatest_failure_stays(list, k, (n - 1) as nat);
    }
}

impl ExpressionValue {
    /// The number in the value: text counts as the decimal it reads as,
    /// and is refused where it reads as none.
    pub fn to_decimal(&self) -> (r: EvaluationResult<Decimal>)
        ensures
            match r {
                Ok(d) => as_decimal(self@) == Ok::<DecimalView, ErrorView>(d@),
                Err(e) => as_decimal(self@) == Err::<DecimalView, ErrorView>(e@),
            },
    {
        match self {
            ExpressionValue::Number(d) => Ok(d.clone()),
            ExpressionValue::String(s) => match Decimal::parse(s.as_str()) {
                Some(d) => Ok(d),
                None => Err(ExpressionError::ExpectedDecimal),
            },
        }
    }

    /// The value as text: text as it is, a number in plain notation.
    pub fn to_string(&self) -> (r: EvaluationResult<String>)
        ensures
            match r {
                Ok(t) => as_text(self@) == Ok::<Seq<char>, ErrorView>(t@),
                Err(e) => as_text(self@) == Err::<Seq<char>, ErrorView>(e@),
            },
    {
        match self {
            ExpressionValue::String(s) => Ok(s.clone()),
            ExpressionValue::Number(d) => if d.in_range() {
                Ok(d.to_plain_string())
            } else {
                Err(ExpressionError::ScaleOutOfRange)
            },
        }
    }

    /// The value that a stored property stands for: text that reads as a
    /// decimal becomes that number.
    pub fn from_property(value: &PropertyValue) -> (r: ExpressionValue)
        ensures
            r@ == coerced(value@),
    {
        match value {
            PropertyValue::String(s) => match Decimal::parse(s.as_str()) {
                Some(d) => ExpressionValue::Number(d),
                None => ExpressionValue::String(s.clone()),
            },
            PropertyValue::Number(d) => ExpressionValue::Number(d.clone()),
        }
    }
}

/// What a failure says in words.
pub open spec fn failure_text(e: ErrorView) -> Seq<char> {
    match e {
        ErrorView::ExpectedDecimal => "Expected a decimal"@,
        ErrorView::MissingVariable(name) => "Variable: "@ + name + " not found"@,
        ErrorView::DivisionByZero => "Division by zero"@,
        ErrorView::ScaleOutOfRange => "Scale out of range"@,
    }
}

impl ExpressionError {
    /// The failure in words.
    pub fn message(&self) -> (r: String)
        ensures
            r@ == failure_text(self@),
    {
        match self {
            ExpressionError::ExpectedDecimal => String::from_str("Expected a decimal"),
            ExpressionError::MissingVariable(name) => {
                let mut r = String::from_str("Variable: ");
                r.append(name.as_str());
                r.append(" not found");
                r
            },
            ExpressionError::DivisionByZero => String::from_str("Division by zero"),
            ExpressionError::ScaleOutOfRange => String::from_str("Scale out of range"),
        }
    }
}

impl EventAttribute {
    /// Looks the attribute up in the event.
    pub fn evaluate(&self, event: &Event) -> (r: EvaluationResult<ExpressionValue>)
        ensures
            outcome(r) == eval_attribute(self@, event@),
    {
        match self {
            EventAttribute::Code => Ok(ExpressionValue::String(event.code().clone())),
            EventAttribute::Timestamp => Ok(ExpressionValue::Number(event.timestamp().clone())),
            EventAttribute::Properties(name) => match event.property(name.as_str()) {
                Some(value) => Ok(ExpressionValue::from_property(value)),
                None => Err(ExpressionError::MissingVariable(name.clone())),
            },
        }
    }
}

impl Operation {
    /// The operator applied to two numbers.
    pub fn apply(&self, l: &Decimal, r: &Decimal) -> (out: EvaluationResult<ExpressionValue>)
        ensures
            outcome(out) == apply_operation(*self, l@, r@),
    {
        if matches!(self, Operation::Divide) && r.is_zero() {
            Err(ExpressionError::DivisionByZero)
        } else if !l.in_range() || !r.in_range() {
            Err(ExpressionError::ScaleOutOfRange)
        } else {
            Ok(
                ExpressionValue::Number(
                    match self {
                        Operation::Add => decimal_add(l, r),
                        Operation::Subtract => decimal_sub(l, r),
                        Operation::Multiply => decimal_mul(l, r),
                        Operation::Divide => decimal_div(l, r),
                    },
                ),
            )
        }
    }

    /// Evaluates both sides, the left one first, and applies the operator.
    pub fn evaluate(&self, lhs: &Expression, rhs: &Expression, event: &Event) -> (r:
        EvaluationResult<ExpressionValue>)
        ensures
            outcome(r) == eval(
                ExpressionView::BinOp { lhs: Box::new(lhs@), op: *self, rhs: Box::new(rhs@) },
                event@,
            ),
    {
        let l = match evaluate_decimal(lhs, event) {
            Ok(d) => d,
            Err(e) => { return Err(e); },
        };
        let r = match evaluate_decimal(rhs, event) {
            Ok(d) => d,
            Err(e) => { return Err(e); },
        };
        self.apply(&l, &r)
    }
}

/// Evaluates a formula that has to give a number.
fn evaluate_decimal(e: &Expression, event: &Event) -> (r: EvaluationResult<Decimal>)
    ensures
        match r {
            Ok(d) => eval_decimal(e@, event@) == Ok::<DecimalView, ErrorView>(d@),
            Err(err) => eval_decimal(e@, event@) == Err::<DecimalView, ErrorView>(err@),
        },
    decreases e, 1nat,
{
    match e.evaluate(event) {
        Ok(v) => v.to_decimal(),
        Err(err) => Err(err),
    }
}

/// Reads a number as a count of fractional digits.
fn to_digit_count(d: &Decimal) -> (r: EvaluationResult<i64>)
    ensures
        match r {
            Ok(n) => digit_count(d@) == Ok::<int, ErrorView>(n as int),
            Err(err) => digit_count(d@) == Err::<int, ErrorView>(err@),
        },
{
    if !d.in_range() {
        return Err(ExpressionError::ScaleOutOfRange);
    }
    match decimal_to_i64(d) {
        None => Err(ExpressionError::ExpectedDecimal),
        Some(n) => {
            let whole = Decimal::from_i64(n);
            proof {
                lemma_equal_in_range(whole@, d@);
            }
            if whole == *d {
                Ok(n)
            } else {
                Err(ExpressionError::ExpectedDecimal)
            }
        },
    }
}

/// Rounds a number to the digit count that `digits` stands for, to a whole
/// number where there is none.
fn evaluate_with_rounding_mode(value: &Decimal, digits: Option<&Decimal>, mode: Rounding) -> (r:
    EvaluationResult<ExpressionValue>)
    ensures
        outcome(r) == match digits {
            None => apply_rounding(mode, value@, 0),
            Some(dd) => match digit_count(dd@) {
                Err(err) => Err(err),
                Ok(n) => apply_rounding(mode, value@, n),
            },
        },
{
    let round_digits: i64 = match digits {
        Some(dd) => match to_digit_count(dd) {
            Ok(n) => n,
            Err(err) => { return Err(err); },
        },
        None => 0,
    };
    if !value.in_range() || round_digits < -MAX_SCALE || round_digits > MAX_SCALE {
        Err(ExpressionError::ScaleOutOfRange)
    } else {
        Ok(ExpressionValue::Number(decimal_round(value, round_digits, mode)))
    }
}

/// The smallest of the numbers, of equal ones the first.
fn least(list: &Vec<Decimal>) -> (r: EvaluationResult<ExpressionValue>)
    requires
        list.len() > 0,
    ensures
        outcome(r) == match least_of(decimal_views(list@), list.len() as nat) {
            Err(err) => Err(err),
            Ok(d) => Ok(ValueView::Number(d)),
        },
{
    let ghost views = decimal_views(list@);
    let mut best: usize = 0;
    let mut i: usize = 1;
    while i < list.len()
        invariant
            1 <= i <= list.len(),
            best < i,
            views == decimal_views(list@),
            least_of(views, i as nat) == Ok::<DecimalView, ErrorView>(views[best as int]),
        decreases list.len() - i,
    {
        if !list[best].in_range() || !list[i].in_range() {
            proof {
                lemma_least_failure_stays(views, (i + 1) as nat, list.len() as nat);
            }
            return Err(ExpressionError::ScaleOutOfRange);
        }
        if !decimal_le(&list[best], &list[i]) {
            best = i;
        }
        i += 1;
    }
    Ok(ExpressionValue::Number(list[best].clone()))
}

/// The largest of the numbers, of equal ones the last.
fn greatest(list: &Vec<Decimal>) -> (r: EvaluationResult<ExpressionValue>)
    requires
        list.len() > 0,
    ensures
        outcome(r) == match greatest_of(decimal_views(list@), list.len() as nat) {
            Err(err) => Err(err),
            Ok(d) => Ok(ValueView::Number(d)),
        },
{
    let ghost views = decimal_views(list@);
    let mut best: usize = 0;
    let mut i: usize = 1;
    while i < list.len()
        invariant
            1 <= i <= list.len(),
            best < i,
            views == decimal_views(list@),
            greatest_of(views, i as nat) == Ok::<DecimalView, ErrorView>(views[best as int]),
        decreases list.len() - i,
    {
        if !list[best].in_range() || !list[i].in_range() {
            proof {
                lemma_greatest_failure_stays(views, (i + 1) as nat, list.len() as nat);
            }
            return Err(ExpressionError::ScaleOutOfRange);
        }
        if decimal_le(&list[best], &list[i]) {
            best = i;
        }
        i += 1;
    }
    Ok(ExpressionValue::Number(list[best].clone()))
}

/// Evaluates every formula to text, from left to right, and joins the texts.
fn evaluate_texts(args: &Vec<Expression>, event: &Event) -> (r: EvaluationResult<String>)
    ensures
        match r {
            Ok(text) => eval_texts(expression_views(args@), args.len() as nat, event@) == Ok::<
                Seq<char>,
                ErrorView,
            >(text@),
            Err(err) => eval_texts(expression_views(args@), args.len() as nat, event@) == Err::<
                Seq<char>,
                ErrorView,
            >(err@),
        },
    decreases args, 0nat,
{
    let ghost views = expression_views(args@);
    let mut out = String::new();
    let mut i: usize = 0;
    while i < args.len()
        invariant
            i <= args.len(),
            views == expression_views(args@),
            eval_texts(views, i as nat, event@) == Ok::<Seq<char>, ErrorView>(out@),
        decreases args.len() - i,
    {
        proof {
            lemma_texts_failure_stays(views, (i + 1) as nat, args.len() as nat, event@);
        }
        let value = match args[i].evaluate(event) {
            Ok(value) => value,
            Err(err) => { return Err(err); },
        };
        let text = match value.to_string() {
            Ok(text) => text,
            Err(err) => { return Err(err); },
        };
        out.append(text.as_str());
        i += 1;
    }
    Ok(out)
}

/// Evaluates every formula to a number, from left to right.
fn evaluate_decimals(args: &Vec<Expression>, event: &Event) -> (r: EvaluationResult<Vec<Decimal>>)
    ensures
        match r {
            Ok(list) => eval_decimals(expression_views(args@), args.len() as nat, event@) == Ok::<
                Seq<DecimalView>,
                ErrorView,
            >(decimal_views(list@)),
            Err(err) => eval_decimals(expression_views(args@), args.len() as nat, event@)
                == Err::<Seq<DecimalView>, ErrorView>(err@),
        },
    decreases args, 0nat,
{
    let ghost views = expression_views(args@);
    let mut list: Vec<Decimal> = Vec::new();
    let mut i: usize = 0;
    assert(decimal_views(list@) =~= Seq::empty());
    while i < args.len()
        invariant
            i <= args.len(),
            views == expression_views(args@),
            eval_decimals(views, i as nat, event@) == Ok::<Seq<DecimalView>, ErrorView>(
                decimal_views(list@),
            ),
        decreases args.len() - i,
    {
        proof {
            lemma_decimals_failure_stays(views, (i + 1) as nat, args.len() as nat, event@);
        }
        let d = match evaluate_decimal(&args[i], event) {
            Ok(d) => d,
            Err(err) => { return Err(err); },
        };
        let ghost before = list@;
        list.push(d);
        assert(decimal_views(list@) =~= decimal_views(before).push(d@));
        i += 1;
    }
    Ok(list)
}

impl Function {
    /// Evaluates the arguments from left to right and applies the function.
    pub fn evaluate(&self, event: &Event) -> (r: EvaluationResult<ExpressionValue>)
        ensures
            outcome(r) == eval_function(self@, event@),
        decreases self, 1nat,
    {
        match self {
            Function::Concat(args) => match evaluate_texts(args, event) {
                Ok(text) => Ok(ExpressionValue::String(text)),
                Err(err) => Err(err),
            },
            Function::Round(expr, digit_expr)
            | Function::Ceil(expr, digit_expr)
            | Function::Floor(expr, digit_expr) => {
                let mode = match self {
                    Function::Ceil(_, _) => Rounding::Ceiling,
                    Function::Floor(_, _) => Rounding::Floor,
                    _ => Rounding::HalfUp,
                };
                let value = match evaluate_decimal(expr, event) {
                    Ok(value) => value,
                    Err(err) => { return Err(err); },
                };
                match digit_expr {
                    None => evaluate_with_rounding_mode(&value, None, mode),
                    Some(digit_expr) => match evaluate_decimal(digit_expr, event) {
                        Ok(digits) => evaluate_with_rounding_mode(&value, Some(&digits), mode),
                        Err(err) => Err(err),
                    },
                }
            },
            Function::Least(args) => match evaluate_decimals(args, event) {
                Ok(list) => if list.len() == 0 {
                    Err(ExpressionError::ExpectedDecimal)
                } else {
                    least(&list)
                },
                Err(err) => Err(err),
            },
            Function::Greatest(args) => match evaluate_decimals(args, event) {
                Ok(list) => if list.len() == 0 {
                    Err(ExpressionError::ExpectedDecimal)
                } else {
                    greatest(&list)
                },
                Err(err) => Err(err),
            },
        }
    }
}

impl Expression {
    /// Evaluates the formula against an event. The formula and the event
    /// are only read.
    pub fn evaluate(&self, event: &Event) -> (r: EvaluationResult<ExpressionValue>)
        ensures
            outcome(r) == eval(self@, event@),
        decreases self, 0nat,
    {
        match self {
            Expression::EventAttribute(attr) => attr.evaluate(event),
            Expression::Function(f) => f.evaluate(event),
            Expression::String(s) => Ok(ExpressionValue::String(s.clone())),
            Expression::Decimal(d) => Ok(ExpressionValue::Number(d.clone())),
            Expression::UnaryMinus(inner) => match evaluate_decimal(inner, event) {
                Ok(d) => Ok(ExpressionValue::Number(decimal_neg(&d))),
                Err(err) => Err(err),
            },
            Expression::BinOp { lhs, op, rhs } => {
                let l = match evaluate_decimal(lhs, event) {
                    Ok(d) => d,
                    Err(err) => { return Err(err); },
                };
                let r = match evaluate_decimal(rhs, event) {
                    Ok(d) => d,
                    Err(err) => { return Err(err); },
                };
                op.apply(&l, &r)
            },
        }
    }
}

} // verus!
