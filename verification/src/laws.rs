//! What holds of compiling and evaluating in general.

use crate::ast::AttributeView;
use crate::ast::Expression;
use crate::ast::ExpressionView;
use crate::ast::FunctionView;
use crate::decimal::decimal_difference;
use crate::decimal::decimal_of_text;
use crate::decimal::exact_quotient;
use crate::decimal::magnitude;
use crate::decimal::tens_to_reach;
use crate::decimal::decimal_product;
use crate::decimal::has_digit;
use crate::decimal::is_digit;
use crate::decimal::is_literal;
use crate::decimal::lemma_order_transitive;
use crate::decimal::lemma_same_scale;
use crate::decimal::literal_value;
use crate::decimal::max_int;
use crate::decimal::pow10;
use crate::decimal::rounded_quotient;
use crate::decimal::Rounding;
use crate::decimal::DecimalView;
use crate::evaluate::as_decimal;
use crate::evaluate::as_text;
use crate::evaluate::eval;
use crate::evaluate::eval_function;
use crate::evaluate::eval_texts;
use crate::evaluate::greatest_of;
use crate::evaluate::least_of;
use crate::evaluate::outcome;
use crate::evaluate::ErrorView;
use crate::evaluate::EvaluationResult;
use crate::evaluate::ExpressionValue;
use crate::evaluate::ValueView;
use crate::event::EventView;
use crate::event::PropertyView;
use crate::parser::build_expr;
use crate::parser::build_function;
use crate::parser::build_primary;
use crate::parser::compiled;
use crate::parser::expression_outcome;
use crate::parser::lemma_negated;
use crate::parser::lemma_no_failure;
use crate::parser::lemma_single;
use crate::parser::lemma_split;
use crate::parser::name_text;
use crate::parser::operation_of;
use crate::parser::rounding_of;
use crate::parser::ParseErrorView;
use crate::parser::ParseResult;
use crate::syntax::FunctionName;
use crate::syntax::PairView;
use vstd::prelude::*;

verus! {

/// Compiling is a function of the text: whatever two runs of the compiler
/// make of one text is the same tree, or the same error.
pub proof fn law_parsing_is_deterministic(
    text: Seq<char>,
    first: ParseResult<Expression>,
    second: ParseResult<Expression>,
)
    requires
        expression_outcome(first) == compiled(text),
        expression_outcome(second) == compiled(text),
    ensures
        expression_outcome(first) == expression_outcome(second),
{
}

/// Evaluating is a function of the tree and the event: whatever two
/// evaluations make of them is the same value, or the same error, in
/// whatever order events are fed.
pub proof fn law_evaluation_is_deterministic(
    tree: ExpressionView,
    event: EventView,
    first: EvaluationResult<ExpressionValue>,
    second: EvaluationResult<ExpressionValue>,
)
    requires
        outcome(first) == eval(tree, event),
        outcome(second) == eval(tree, event),
    ensures
        outcome(first) == outcome(second),
{
}

/// `*` and `/` bind tighter than `+` and `-`: in `a low b high c` the
/// operator `high` takes `b` and `c` first, and in `a high b low c` it takes
/// `a` and `b` first.
pub proof fn law_precedence(
    a: PairView,
    b: PairView,
    c: PairView,
    low: PairView,
    high: PairView,
    ta: ExpressionView,
    tb: ExpressionView,
    tc: ExpressionView,
)
    requires
        a.is_primary(),
        b.is_primary(),
        c.is_primary(),
        low.level() == 1,
        high.level() == 2,
        build_primary(a) == Ok::<ExpressionView, ParseErrorView>(ta),
        build_primary(b) == Ok::<ExpressionView, ParseErrorView>(tb),
        build_primary(c) == Ok::<ExpressionView, ParseErrorView>(tc),
    ensures
        build_expr(seq![a, low, b, high, c]) == Ok::<ExpressionView, ParseErrorView>(
            ExpressionView::BinOp {
                lhs: Box::new(ta),
                op: operation_of(low),
                rhs: Box::new(
                    ExpressionView::BinOp {
                        lhs: Box::new(tb),
                        op: operation_of(high),
                        rhs: Box::new(tc),
                    },
                ),
            },
        ),
        build_expr(seq![a, high, b, low, c]) == Ok::<ExpressionView, ParseErrorView>(
            ExpressionView::BinOp {
                lhs: Box::new(
                    ExpressionView::BinOp {
                        lhs: Box::new(ta),
                        op: operation_of(high),
                        rhs: Box::new(tb),
                    },
                ),
                op: operation_of(low),
                rhs: Box::new(tc),
            },
        ),
{
    let run = seq![a, low, b, high, c];
    lemma_no_failure(run, 5);
    lemma_split(run, 0, 1, 5);
    lemma_split(run, 2, 3, 5);
    lemma_single(run, 0);
    lemma_single(run, 2);
    lemma_single(run, 4);
    let other = seq![a, high, b, low, c];
    lemma_no_failure(other, 5);
    lemma_split(other, 0, 3, 5);
    lemma_split(other, 0, 1, 3);
    lemma_single(other, 0);
    lemma_single(other, 2);
    lemma_single(other, 4);
}

/// Operators of one level associate to the left: in `a first b second c`
/// the operator `first` takes `a` and `b` first.
pub proof fn law_left_associativity(
    a: PairView,
    b: PairView,
    c: PairView,
    first: PairView,
    second: PairView,
    ta: ExpressionView,
    tb: ExpressionView,
    tc: ExpressionView,
)
    requires
        a.is_primary(),
        b.is_primary(),
        c.is_primary(),
        first.is_infix(),
        first.level() == second.level(),
        build_primary(a) == Ok::<ExpressionView, ParseErrorView>(ta),
        build_primary(b) == Ok::<ExpressionView, ParseErrorView>(tb),
        build_primary(c) == Ok::<ExpressionView, ParseErrorView>(tc),
    ensures
        build_expr(seq![a, first, b, second, c]) == Ok::<ExpressionView, ParseErrorView>(
            ExpressionView::BinOp {
                lhs: Box::new(
                    ExpressionView::BinOp {
                        lhs: Box::new(ta),
                        op: operation_of(first),
                        rhs: Box::new(tb),
                    },
                ),
                op: operation_of(second),
                rhs: Box::new(tc),
            },
        ),
{
    let run = seq![a, first, b, second, c];
    lemma_no_failure(run, 5);
    lemma_split(run, 0, 3, 5);
    lemma_split(run, 0, 1, 3);
    lemma_single(run, 0);
    lemma_single(run, 2);
    lemma_single(run, 4);
}

/// Unary minus binds tighter than any infix operator: in `- a op b` it
/// takes `a` alone.
pub proof fn law_unary_minus_binds_tightest(
    a: PairView,
    b: PairView,
    op: PairView,
    ta: ExpressionView,
    tb: ExpressionView,
)
    requires
        a.is_primary(),
        b.is_primary(),
        op.is_infix(),
        build_primary(a) == Ok::<ExpressionView, ParseErrorView>(ta),
        build_primary(b) == Ok::<ExpressionView, ParseErrorView>(tb),
    ensures
        build_expr(seq![PairView::UnaryMinus, a, op, b]) == Ok::<ExpressionView, ParseErrorView>(
            ExpressionView::BinOp {
                lhs: Box::new(ExpressionView::UnaryMinus(Box::new(ta))),
                op: operation_of(op),
                rhs: Box::new(tb),
            },
        ),
{
    let run = seq![PairView::UnaryMinus, a, op, b];
    lemma_no_failure(run, 4);
    lemma_split(run, 0, 2, 4);
    lemma_negated(run, 0, 2);
    lemma_single(run, 1);
    lemma_single(run, 3);
}

/// What is written for a number compiles just where it is a literal, to
/// the decimal that the literal writes; anything else, two points among
/// them, fails as a decimal that is none.
pub proof fn law_numbers_are_literals(text: Seq<char>)
    ensures
        is_literal(text) ==> build_expr(seq![PairView::Decimal(text)]) == Ok::<
            ExpressionView,
            ParseErrorView,
        >(ExpressionView::Decimal(literal_value(text))),
        !is_literal(text) ==> build_expr(seq![PairView::Decimal(text)]) == Err::<
            ExpressionView,
            ParseErrorView,
        >(ParseErrorView::FailedToParseBigDecimal(text)),
{
    let run = seq![PairView::Decimal(text)];
    assert(run[0] == PairView::Decimal(text));
    reveal_with_fuel(crate::parser::first_failure, 2);
    if is_literal(text) {
        lemma_single(run, 0);
    }
}

/// A rounding function called with other than one or two arguments does not
/// compile, whatever the arguments are: the error names the function, the
/// counts it takes and the count it was given.
pub proof fn law_wrong_argument_count(name: FunctionName, args: Seq<Seq<PairView>>)
    requires
        rounding_of(name) is Some,
        args.len() != 1,
        args.len() != 2,
    ensures
        build_function(name, args) == Err::<FunctionView, ParseErrorView>(
            ParseErrorView::WrongNumberOfArguments(name_text(name), "1..2"@, args.len()),
        ),
{
}

/// Looking up a property that the event does not have fails, and the error
/// names the property.
pub proof fn law_missing_property(name: Seq<char>, event: EventView)
    requires
        !event.properties.contains_key(name),
    ensures
        eval(ExpressionView::EventAttribute(AttributeView::Properties(name)), event) == Err::<
            ValueView,
            ErrorView,
        >(ErrorView::MissingVariable(name)),
{
}

/// A property stored as text evaluates to a number where the text reads as
/// a decimal, to the one it writes where it is a literal, and to the text
/// itself where it is no decimal.
pub proof fn law_textual_property(name: Seq<char>, text: Seq<char>, event: EventView)
    requires
        event.properties.contains_key(name),
        event.properties[name] == PropertyView::String(text),
    ensures
        is_literal(text) ==> eval(
            ExpressionView::EventAttribute(AttributeView::Properties(name)),
            event,
        ) == Ok::<ValueView, ErrorView>(ValueView::Number(literal_value(text))),
        decimal_of_text(text) is Some ==> eval(
            ExpressionView::EventAttribute(AttributeView::Properties(name)),
            event,
        ) == Ok::<ValueView, ErrorView>(ValueView::Number(decimal_of_text(text)->Some_0)),
        decimal_of_text(text) is None ==> eval(
            ExpressionView::EventAttribute(AttributeView::Properties(name)),
            event,
        ) == Ok::<ValueView, ErrorView>(ValueView::String(text)),
{
}

/// A binary operator on text that is no decimal fails for want of a
/// decimal: where its left side evaluates to such text, and where its left
/// side evaluates to a number and its right side to such text.
pub proof fn law_text_operand(
    lhs: ExpressionView,
    op: crate::ast::Operation,
    rhs: ExpressionView,
    event: EventView,
)
    requires
        eval(lhs, event) is Ok,
        as_decimal(eval(lhs, event)->Ok_0) is Err || (eval(rhs, event) is Ok && as_decimal(
            eval(rhs, event)->Ok_0,
        ) is Err),
    ensures
        eval(ExpressionView::BinOp { lhs: Box::new(lhs), op, rhs: Box::new(rhs) }, event) == Err::<
            ValueView,
            ErrorView,
        >(ErrorView::ExpectedDecimal),
{
}

/// Text counts as a number just where it reads as a decimal: as the one it
/// writes where it is a literal, and as none where it holds no digit.
pub proof fn law_text_as_number(text: Seq<char>)
    ensures
        is_literal(text) ==> as_decimal(ValueView::String(text)) == Ok::<DecimalView, ErrorView>(
            literal_value(text),
        ),
        !has_digit(text) ==> as_decimal(ValueView::String(text)) == Err::<DecimalView, ErrorView>(
            ErrorView::ExpectedDecimal,
        ),
{
    if is_literal(text) {
        assert(is_digit(text[0]));
    }
}

/// A difference is exact. Where one side is zero it is written at the scale
/// of the other side instead of the larger scale, and stands for the same
/// number.
pub proof fn law_difference_is_exact(a: DecimalView, b: DecimalView)
    ensures
        decimal_difference(a, b).same_number(
            DecimalView {
                unscaled: a.rescaled(max_int(a.scale, b.scale)) - b.rescaled(
                    max_int(a.scale, b.scale),
                ),
                scale: max_int(a.scale, b.scale),
            },
        ),
{
    let m = max_int(a.scale, b.scale);
    vstd::arithmetic::power::lemma_pow0(10);
    let pa = pow10((m - a.scale) as nat);
    let pb = pow10((m - b.scale) as nat);
    if b.unscaled == 0 {
        assert(a.unscaled * pa - 0 * pb == a.unscaled * pa) by (nonlinear_arith);
        assert((a.unscaled * pa) * 1 == a.unscaled * pa) by (nonlinear_arith);
    } else if a.unscaled == 0 {
        assert((0 * pa - b.unscaled * pb) * 1 == (-b.unscaled) * pb) by (nonlinear_arith);
    } else {
        assert((a.unscaled * pa - b.unscaled * pb) * 1 == a.unscaled * pa - b.unscaled * pb)
            by (nonlinear_arith);
    }
}

/// A product is exact. Where one factor is a short one the other factor is
/// handed back as it is written, and stands for the same number as the
/// product of the unscaled integers at the sum of the scales.
pub proof fn law_product_is_exact(a: DecimalView, b: DecimalView)
    ensures
        decimal_product(a, b).same_number(
            DecimalView { unscaled: a.unscaled * b.unscaled, scale: a.scale + b.scale },
        ),
{
    vstd::arithmetic::power::lemma_pow0(10);
    let u = a.unscaled * b.unscaled;
    assert(u * 1 == u) by (nonlinear_arith);
    if a.is_short_one() {
        let p = pow10(a.scale as nat);
        assert(b.unscaled * p == (p * b.unscaled) * 1) by (nonlinear_arith);
    } else if b.is_short_one() {
        let p = pow10(b.scale as nat);
        assert(a.unscaled * p == (a.unscaled * p) * 1) by (nonlinear_arith);
    }
}

/// A number that is multiplied by a short one stands for itself.
proof fn lemma_times_short_one(a: DecimalView, b: DecimalView)
    requires
        b.is_short_one(),
    ensures
        (DecimalView { unscaled: a.unscaled * b.unscaled, scale: a.scale + b.scale }).same_number(
            a,
        ),
{
    vstd::arithmetic::power::lemma_pow0(10);
    let p = pow10(b.scale as nat);
    let product = a.unscaled * b.unscaled;
    assert(product == a.unscaled * p);
    assert(pow10(0) == 1);
    assert(product * 1 == product) by (nonlinear_arith);
    assert(max_int(a.scale + b.scale, a.scale) == a.scale + b.scale);
}

/// Zero multiplied by any number stands for zero at any scale.
proof fn lemma_times_zero(a: DecimalView, b: DecimalView)
    requires
        a.unscaled == 0,
    ensures
        (DecimalView { unscaled: a.unscaled * b.unscaled, scale: a.scale + b.scale }).same_number(
            a,
        ),
{
    let m = max_int(a.scale + b.scale, a.scale);
    let left = pow10((m - (a.scale + b.scale)) as nat);
    let right = pow10((m - a.scale) as nat);
    assert(a.unscaled * b.unscaled == 0) by (nonlinear_arith)
        requires
            a.unscaled == 0,
    ;
    assert(0 * left == 0) by (nonlinear_arith);
    assert(0 * right == 0) by (nonlinear_arith);
}

/// Where the divisor's magnitude divides the dividend's, multiplied by a
/// power of ten, the signed quotient times the divisor is the dividend times
/// that power.
proof fn lemma_signed_quotient(n: int, d: int, p: int)
    requires
        d != 0,
        (magnitude(n) * p) % magnitude(d) == 0,
    ensures
        (if (n < 0) == (d < 0) {
            (magnitude(n) * p) / magnitude(d)
        } else {
            -((magnitude(n) * p) / magnitude(d))
        }) * d == n * p,
{
    let num = magnitude(n);
    let den = magnitude(d);
    let shifted = num * p;
    let whole = shifted / den;
    vstd::arithmetic::div_mod::lemma_fundamental_div_mod(shifted, den);
    assert(den * whole == shifted);
    if n < 0 {
        assert(num == -n);
        assert(n * p == -shifted) by (nonlinear_arith)
            requires
                num == -n,
                shifted == num * p,
        ;
    } else {
        assert(num == n);
        assert(n * p == shifted);
    }
    if d < 0 {
        assert(den == -d);
        assert(whole * d == -shifted) by (nonlinear_arith)
            requires
                den == -d,
                den * whole == shifted,
        ;
        assert((-whole) * d == shifted) by (nonlinear_arith)
            requires
                whole * d == -shifted,
        ;
    } else {
        assert(den == d);
        assert(whole * d == shifted) by (nonlinear_arith)
            requires
                den == d,
                den * whole == shifted,
        ;
        assert((-whole) * d == -shifted) by (nonlinear_arith)
            requires
                whole * d == shifted,
        ;
    }
}

/// A number written with `tens` more digits stands for itself.
proof fn lemma_padded(a: DecimalView, tens: nat)
    ensures
        (DecimalView { unscaled: a.unscaled * pow10(tens), scale: a.scale + tens }).same_number(a),
{
    vstd::arithmetic::power::lemma_pow0(10);
    let padded = a.unscaled * pow10(tens);
    assert(max_int(a.scale + tens, a.scale) == a.scale + tens);
    assert(pow10(0) == 1);
    assert(padded * 1 == padded) by (nonlinear_arith);
    assert((a.scale + tens - a.scale) as nat == tens);
}

/// A quotient that comes out at once is exact: multiplied by the divisor,
/// it stands for the same number as the dividend.
pub proof fn law_exact_quotient_is_exact(a: DecimalView, b: DecimalView)
    requires
        exact_quotient(a, b) is Some,
    ensures
        (DecimalView {
            unscaled: exact_quotient(a, b)->Some_0.unscaled * b.unscaled,
            scale: exact_quotient(a, b)->Some_0.scale + b.scale,
        }).same_number(a),
{
    let q = exact_quotient(a, b)->Some_0;
    if a.unscaled == 0 {
        assert(q == a);
        lemma_times_zero(a, b);
    } else if b.is_short_one() {
        assert(q == a);
        lemma_times_short_one(a, b);
    } else if a.unscaled == b.unscaled {
        assert(q == DecimalView { unscaled: 1, scale: a.scale - b.scale });
        assert(1 * b.unscaled == a.unscaled) by (nonlinear_arith)
            requires
                a.unscaled == b.unscaled,
        ;
        lemma_same_scale(
            DecimalView { unscaled: q.unscaled * b.unscaled, scale: q.scale + b.scale },
            a,
        );
    } else {
        let tens = tens_to_reach(magnitude(a.unscaled), magnitude(b.unscaled));
        let p = pow10(tens);
        lemma_signed_quotient(a.unscaled, b.unscaled, p);
        assert(q.unscaled * b.unscaled == a.unscaled * p);
        assert(q.scale + b.scale == a.scale + tens);
        lemma_padded(a, tens);
    }
}

/// What the floor of a quotient is: the largest integer that is not above
/// it.
proof fn lemma_floor(n: int, d: int)
    requires
        d > 0,
    ensures
        (n / d) * d <= n < (n / d + 1) * d,
{
    vstd::arithmetic::div_mod::lemma_fundamental_div_mod(n, d);
    vstd::arithmetic::div_mod::lemma_mod_bound(n, d);
    let q = n / d;
    assert(d * q == q * d) by (nonlinear_arith);
    assert((q + 1) * d == q * d + d) by (nonlinear_arith);
}

/// The three directions of rounding do what their names say. Of a quotient
/// `n / d`, `Floor` gives the largest integer not above it, `Ceiling` the
/// smallest not below it, and `HalfUp` the nearest integer, the one further
/// from zero where two are equally near.
pub proof fn law_rounding_directions(n: int, d: int)
    requires
        d > 0,
    ensures
        rounded_quotient(n, d, Rounding::Floor) * d <= n < (rounded_quotient(
            n,
            d,
            Rounding::Floor,
        ) + 1) * d,
        (rounded_quotient(n, d, Rounding::Ceiling) - 1) * d < n <= rounded_quotient(
            n,
            d,
            Rounding::Ceiling,
        ) * d,
        n >= 0 ==> 2 * rounded_quotient(n, d, Rounding::HalfUp) * d - d <= 2 * n < 2
            * rounded_quotient(n, d, Rounding::HalfUp) * d + d,
        n < 0 ==> 2 * rounded_quotient(n, d, Rounding::HalfUp) * d - d < 2 * n <= 2
            * rounded_quotient(n, d, Rounding::HalfUp) * d + d,
{
    lemma_floor(n, d);
    lemma_floor(-n, d);
    let c = rounded_quotient(n, d, Rounding::Ceiling);
    let m = (-n) / d;
    assert(c == -m);
    assert((c - 1) * d == -((m + 1) * d)) by (nonlinear_arith)
        requires
            c == -m,
    ;
    assert(c * d == -(m * d)) by (nonlinear_arith)
        requires
            c == -m,
    ;
    let h = rounded_quotient(n, d, Rounding::HalfUp);
    if n >= 0 {
        lemma_floor(2 * n + d, 2 * d);
        assert(h * (2 * d) == 2 * h * d) by (nonlinear_arith);
        assert((h + 1) * (2 * d) == 2 * h * d + 2 * d) by (nonlinear_arith);
    } else {
        lemma_floor(-2 * n + d, 2 * d);
        let k = (-2 * n + d) / (2 * d);
        assert(h == -k);
        assert(k * (2 * d) == -(2 * h * d)) by (nonlinear_arith)
            requires
                h == -k,
        ;
        assert((k + 1) * (2 * d) == -(2 * h * d) + 2 * d) by (nonlinear_arith)
            requires
                h == -k,
        ;
    }
}

/// The text of the first `n` arguments depends on those arguments alone.
proof fn lemma_texts_of_prefix(
    first: Seq<ExpressionView>,
    second: Seq<ExpressionView>,
    n: nat,
    event: EventView,
)
    requires
        n <= first.len(),
    ensures
        eval_texts(first + second, n, event) == eval_texts(first, n, event),
    decreases n,
{
    if n > 0 {
        lemma_texts_of_prefix(first, second, (n - 1) as nat, event);
        assert((first + second)[n - 1] == first[n - 1]);
    }
}

proof fn lemma_texts_joined(
    first: Seq<ExpressionView>,
    second: Seq<ExpressionView>,
    n: nat,
    event: EventView,
)
    requires
        n <= second.len(),
    ensures
        eval_texts(first + second, first.len() + n, event) == match eval_texts(
            first,
            first.len(),
            event,
        ) {
            Err(e) => Err(e),
            Ok(head) => match eval_texts(second, n, event) {
                Err(e) => Err(e),
                Ok(tail) => Ok(head + tail),
            },
        },
    decreases n,
{
    if n == 0 {
        lemma_texts_of_prefix(first, second, first.len(), event);
        if eval_texts(first, first.len(), event) is Ok {
            let head = eval_texts(first, first.len(), event)->Ok_0;
            assert(head + Seq::<char>::empty() =~= head);
        }
    } else {
        lemma_texts_joined(first, second, (n - 1) as nat, event);
        assert((first + second)[first.len() + n - 1] == second[n - 1]);
        if eval_texts(first, first.len(), event) is Ok && eval_texts(second, n, event) is Ok {
            let head = eval_texts(first, first.len(), event)->Ok_0;
            let before = eval_texts(second, (n - 1) as nat, event)->Ok_0;
            let tail = eval_texts(second, n, event)->Ok_0;
            let last = crate::evaluate::as_text(eval(second[n - 1], event)->Ok_0)->Ok_0;
            assert((head + before) + last =~= head + (before + last));
        }
    }
}

/// `concat` keeps the order of its arguments: the text of a call is the text
/// of its first arguments followed by the text of the others, and its
/// failure is the first failure among them.
pub proof fn law_concat_keeps_order(
    first: Seq<ExpressionView>,
    second: Seq<ExpressionView>,
    event: EventView,
)
    ensures
        eval_function(FunctionView::Concat(first + second), event) == match eval_function(
            FunctionView::Concat(first),
            event,
        ) {
            Err(e) => Err(e),
            Ok(head) => match eval_function(FunctionView::Concat(second), event) {
                Err(e) => Err(e),
                Ok(tail) => Ok(ValueView::String(head->String_0 + tail->String_0)),
            },
        },
{
    lemma_texts_joined(first, second, second.len(), event);
}

/// The first `n` texts joined in order.
pub open spec fn joined(texts: Seq<Seq<char>>, n: nat) -> Seq<char>
    decreases n,
{
    if n == 0 || n > texts.len() {
        Seq::empty()
    } else {
        joined(texts, (n - 1) as nat) + texts[n - 1]
    }
}

proof fn lemma_concat_joins(
    args: Seq<ExpressionView>,
    texts: Seq<Seq<char>>,
    n: nat,
    event: EventView,
)
    requires
        texts.len() == args.len(),
        n <= args.len(),
        forall|i: int|
            0 <= i < args.len() ==> eval(#[trigger] args[i], event) is Ok && as_text(
                eval(args[i], event)->Ok_0,
            ) == Ok::<Seq<char>, ErrorView>(texts[i]),
    ensures
        eval_texts(args, n, event) == Ok::<Seq<char>, ErrorView>(joined(texts, n)),
    decreases n,
{
    if n > 0 {
        lemma_concat_joins(args, texts, (n - 1) as nat, event);
        assert(eval(args[n - 1], event) is Ok);
    }
}

/// `concat` of arguments that all evaluate, to values that all render, is
/// text, whatever the values are: their texts joined in the order of the
/// arguments, a number in plain notation. Of no argument it is the empty
/// text.
pub proof fn law_concat_joins_texts(
    args: Seq<ExpressionView>,
    texts: Seq<Seq<char>>,
    event: EventView,
)
    requires
        texts.len() == args.len(),
        forall|i: int|
            0 <= i < args.len() ==> eval(#[trigger] args[i], event) is Ok && as_text(
                eval(args[i], event)->Ok_0,
            ) == Ok::<Seq<char>, ErrorView>(texts[i]),
    ensures
        eval_function(FunctionView::Concat(args), event) == Ok::<ValueView, ErrorView>(
            ValueView::String(joined(texts, texts.len())),
        ),
        args.len() == 0 ==> joined(texts, texts.len()) == Seq::<char>::empty(),
{
    lemma_concat_joins(args, texts, args.len(), event);
}

/// `least` and `greatest` of no argument fail.
pub proof fn law_nothing_to_compare(event: EventView)
    ensures
        eval_function(FunctionView::Least(Seq::empty()), event) == Err::<ValueView, ErrorView>(
            ErrorView::ExpectedDecimal,
        ),
        eval_function(FunctionView::Greatest(Seq::empty()), event) == Err::<ValueView, ErrorView>(
            ErrorView::ExpectedDecimal,
        ),
{
}

proof fn lemma_least(list: Seq<DecimalView>, n: nat) -> (at: int)
    requires
        1 <= n <= list.len(),
        least_of(list, n) is Ok,
    ensures
        0 <= at < n,
        list[at] == least_of(list, n)->Ok_0,
        forall|j: int| 0 <= j < n ==> list[at].le(#[trigger] list[j]),
        forall|j: int| 0 <= j < at ==> !(#[trigger] list[j]).le(list[at]),
    decreases n,
{
    if n == 1 {
        0
    } else {
        let before = lemma_least(list, (n - 1) as nat);
        let best = list[before];
        let x = list[n - 1];
        if best.le(x) {
            before
        } else {
            assert forall|j: int| 0 <= j < n implies x.le(#[trigger] list[j]) by {
                if j < n - 1 {
                    lemma_order_transitive(x, best, list[j]);
                }
            }
            assert forall|j: int| 0 <= j < n - 1 implies !(#[trigger] list[j]).le(x) by {
                if list[j].le(x) {
                    lemma_order_transitive(best, list[j], x);
                }
            }
            n - 1
        }
    }
}

proof fn lemma_greatest(list: Seq<DecimalView>, n: nat) -> (at: int)
    requires
        1 <= n <= list.len(),
        greatest_of(list, n) is Ok,
    ensures
        0 <= at < n,
        list[at] == greatest_of(list, n)->Ok_0,
        forall|j: int| 0 <= j < n ==> (#[trigger] list[j]).le(list[at]),
        forall|j: int| at < j < n ==> !list[at].le(#[trigger] list[j]),
    decreases n,
{
    if n == 1 {
        0
    } else {
        let before = lemma_greatest(list, (n - 1) as nat);
        let best = list[before];
        let x = list[n - 1];
        if best.le(x) {
            assert forall|j: int| 0 <= j < n implies (#[trigger] list[j]).le(x) by {
                if j < n - 1 {
                    lemma_order_transitive(list[j], best, x);
                }
            }
            n - 1
        } else {
            before
        }
    }
}

/// What `least` returns is one of the numbers, none of them is smaller, and
/// every number before it is larger.
pub proof fn law_least_is_smallest(list: Seq<DecimalView>)
    requires
        list.len() > 0,
        least_of(list, list.len()) is Ok,
    ensures
        exists|at: int|
            {
                &&& 0 <= at < list.len()
                &&& #[trigger] list[at] == least_of(list, list.len())->Ok_0
                &&& forall|j: int| 0 <= j < list.len() ==> list[at].le(#[trigger] list[j])
                &&& forall|j: int| 0 <= j < at ==> !(#[trigger] list[j]).le(list[at])
            },
{
    let at = lemma_least(list, list.len());
    assert(list[at] == least_of(list, list.len())->Ok_0);
}

/// What `greatest` returns is one of the numbers, none of them is larger,
/// and every number behind it is smaller.
pub proof fn law_greatest_is_largest(list: Seq<DecimalView>)
    requires
        list.len() > 0,
        greatest_of(list, list.len()) is Ok,
    ensures
        exists|at: int|
            {
                &&& 0 <= at < list.len()
                &&& #[trigger] list[at] == greatest_of(list, list.len())->Ok_0
                &&& forall|j: int| 0 <= j < list.len() ==> (#[trigger] list[j]).le(list[at])
                &&& forall|j: int| at < j < list.len() ==> !list[at].le(#[trigger] list[j])
            },
{
    let at = lemma_greatest(list, list.len());
    assert(list[at] == greatest_of(list, list.len())->Ok_0);
}

} // verus!
