//! The tree builder: from classified syntax to a typed tree, with operator
//! precedence, associativity and the arity of the rounding functions.

use crate::ast::expression_views;
use crate::ast::Expression;
use crate::ast::ExpressionView;
use crate::ast::Function;
use crate::ast::FunctionView;
use crate::ast::Operation;
use crate::decimal::digit_char;
use crate::decimal::digit_chars;
use crate::decimal::is_literal;
use crate::decimal::literal_value;
use crate::decimal::Decimal;
use crate::decimal::Rounding;
use crate::grammar::characters;
use crate::grammar::classified;
use crate::grammar::classify;
use crate::grammar::is_literal_text;
use crate::syntax::run_view;
use crate::syntax::runs_view;
use crate::syntax::well_formed;
use crate::syntax::well_formed_pair;
use crate::syntax::FunctionName;
use crate::syntax::Pair;
use crate::syntax::PairView;
use vstd::prelude::*;
use vstd::string::StringExecFns;

verus! {

/// Why a formula did not compile.
#[derive(Debug)]
pub enum ParseError {
    /// The text is no formula: the message says where it stops being one.
    FailedToParse(String),
    /// A rounding function was called with other than one or two arguments:
    /// its name, the counts it takes, and the count it was given.
    WrongNumberOfArguments(String, String, usize),
    /// What is written for a number is no decimal: it has two points, or
    /// lacks the digits that a point asks for. Holds what is written.
    FailedToParseBigDecimal(String),
}

/// The mathematical content of a compile error.
pub enum ParseErrorView {
    FailedToParse(Seq<char>),
    WrongNumberOfArguments(Seq<char>, Seq<char>, nat),
    FailedToParseBigDecimal(Seq<char>),
}

impl View for ParseError {
    type V = ParseErrorView;

    open spec fn view(&self) -> ParseErrorView {
        match self {
            ParseError::FailedToParse(message) => ParseErrorView::FailedToParse(message@),
            ParseError::WrongNumberOfArguments(name, expected, provided) =>
                ParseErrorView::WrongNumberOfArguments(name@, expected@, *provided as nat),
            ParseError::FailedToParseBigDecimal(literal) => ParseErrorView::FailedToParseBigDecimal(
                literal@,
            ),
        }
    }
}

/// What compiling returns.
pub type ParseResult<T> = Result<T, ParseError>;

/// The operator that an infix pair stands for.
pub open spec fn operation_of(p: PairView) -> Operation {
    match p {
        PairView::Subtract => Operation::Subtract,
        PairView::Multiply => Operation::Multiply,
        PairView::Divide => Operation::Divide,
        _ => Operation::Add,
    }
}

/// The name of a function as error messages write it.
pub open spec fn name_text(name: FunctionName) -> Seq<char> {
    match name {
        FunctionName::Concat => "concat"@,
        FunctionName::Ceil => "ceil"@,
        FunctionName::Round => "round"@,
        FunctionName::Floor => "floor"@,
        FunctionName::Least => "least"@,
        FunctionName::Greatest => "greatest"@,
    }
}

/// The direction in which a rounding function rounds.
pub open spec fn rounding_of(name: FunctionName) -> Option<Rounding> {
    match name {
        FunctionName::Ceil => Some(Rounding::Ceiling),
        FunctionName::Round => Some(Rounding::HalfUp),
        FunctionName::Floor => Some(Rounding::Floor),
        _ => None,
    }
}

/// The last place in `run[lo..hi]` that holds an infix operator of the given
/// level, or -1 where there is none.
pub open spec fn last_infix(run: Seq<PairView>, lo: int, hi: int, level: nat) -> int
    decreases hi - lo,
{
    if hi <= lo {
        -1
    } else if run[hi - 1].level() == level {
        hi - 1
    } else {
        last_infix(run, lo, hi - 1, level)
    }
}

/// What a primary compiles to.
pub open spec fn build_primary(p: PairView) -> Result<ExpressionView, ParseErrorView>
    decreases p, 0nat,
{
    match p {
        PairView::Function(name, args) => match build_function(name, args) {
            Ok(f) => Ok(ExpressionView::Function(f)),
            Err(e) => Err(e),
        },
        PairView::Decimal(text) => if is_literal(text) {
            Ok(ExpressionView::Decimal(literal_value(text)))
        } else {
            Err(ParseErrorView::FailedToParseBigDecimal(text))
        },
        PairView::Expr(inner) => build_expr(inner),
        PairView::Variable(a) => Ok(ExpressionView::EventAttribute(a)),
        PairView::String(s) => Ok(ExpressionView::String(s)),
        _ => Ok(ExpressionView::String(Seq::empty())),
    }
}

/// The first `n` arguments compiled in order, or the first failure among
/// them.
pub open spec fn build_arguments(args: Seq<Seq<PairView>>, n: nat) -> Result<
    Seq<ExpressionView>,
    ParseErrorView,
>
    decreases args, n,
{
    if n == 0 || n > args.len() {
        Ok(Seq::empty())
    } else {
        match build_arguments(args, (n - 1) as nat) {
            Err(e) => Err(e),
            Ok(prefix) => match build_expr(args[n - 1]) {
                Err(e) => Err(e),
                Ok(tree) => Ok(prefix.push(tree)),
            },
        }
    }
}

/// What a call compiles to. A rounding function takes one or two arguments:
/// with any other count the call fails, whatever its arguments hold.
pub open spec fn build_function(name: FunctionName, args: Seq<Seq<PairView>>) -> Result<
    FunctionView,
    ParseErrorView,
>
    decreases args, args.len() + 1,
{
    match rounding_of(name) {
        Some(mode) => if args.len() == 1 || args.len() == 2 {
            match build_arguments(args, args.len()) {
                Err(e) => Err(e),
                Ok(trees) => Ok(
                    FunctionView::Rounded(
                        mode,
                        Box::new(trees[0]),
                        if args.len() == 2 {
                            Some(Box::new(trees[1]))
                        } else {
                            None
                        },
                    ),
                ),
            }
        } else {
            Err(ParseErrorView::WrongNumberOfArguments(name_text(name), "1..2"@, args.len()))
        },
        None => match build_arguments(args, args.len()) {
            Err(e) => Err(e),
            Ok(trees) => Ok(
                match name {
                    FunctionName::Least => FunctionView::Least(trees),
                    FunctionName::Greatest => FunctionView::Greatest(trees),
                    _ => FunctionView::Concat(trees),
                },
            ),
        },
    }
}

/// The failure of the first primary in `run[lo..hi]` that does not compile.
pub open spec fn first_failure(run: Seq<PairView>, lo: int, hi: int) -> Option<ParseErrorView>
    decreases run, hi - lo,
{
    if hi <= lo || lo < 0 || hi > run.len() {
        None
    } else {
        match first_failure(run, lo, hi - 1) {
            Some(e) => Some(e),
            None => match build_primary(run[hi - 1]) {
                Err(e) => Some(e),
                Ok(_) => None,
            },
        }
    }
}

/// The tree of `run[lo..hi]`, every primary of which compiles. The run is
/// split at its last `+` or `-`; without one, at its last `*` or `/`;
/// without either it is one operand, whose unary minus signs wrap its
/// primary. Operators of one level so associate to the left, and `*` and `/`
/// bind tighter than `+` and `-`, and unary minus tighter than both.
pub open spec fn tree_of(run: Seq<PairView>, lo: int, hi: int) -> ExpressionView
    decreases run, hi - lo,
{
    let a = last_infix(run, lo, hi, 1);
    let m = last_infix(run, lo, hi, 2);
    if hi <= lo || lo < 0 || hi > run.len() {
        ExpressionView::String(Seq::empty())
    } else if lo <= a < hi {
        ExpressionView::BinOp {
            lhs: Box::new(tree_of(run, lo, a)),
            op: operation_of(run[a]),
            rhs: Box::new(tree_of(run, a + 1, hi)),
        }
    } else if lo <= m < hi {
        ExpressionView::BinOp {
            lhs: Box::new(tree_of(run, lo, m)),
            op: operation_of(run[m]),
            rhs: Box::new(tree_of(run, m + 1, hi)),
        }
    } else if run[lo].is_prefix() {
        ExpressionView::UnaryMinus(Box::new(tree_of(run, lo + 1, hi)))
    } else {
        match build_primary(run[lo]) {
            Ok(tree) => tree,
            Err(_) => ExpressionView::String(Seq::empty()),
        }
    }
}

/// What a run compiles to: the failure of its first primary that does not
/// compile, or its tree.
pub open spec fn build_expr(run: Seq<PairView>) -> Result<ExpressionView, ParseErrorView>
    decreases run, run.len() + 1,
{
    match first_failure(run, 0, run.len() as int) {
        Some(e) => Err(e),
        None => Ok(tree_of(run, 0, run.len() as int)),
    }
}

/// The outcome of compiling an expression, by its views.
pub open spec fn expression_outcome(r: ParseResult<Expression>) -> Result<
    ExpressionView,
    ParseErrorView,
> {
    match r {
        Ok(tree) => Ok(tree@),
        Err(e) => Err(e@),
    }
}

/// The outcome of compiling a call, by its views.
pub open spec fn function_outcome(r: ParseResult<Function>) -> Result<FunctionView, ParseErrorView> {
    match r {
        Ok(f) => Ok(f@),
        Err(e) => Err(e@),
    }
}

/// A range without an infix operator of a level has no last one.
proof fn lemma_no_infix(run: Seq<PairView>, lo: int, hi: int, level: nat)
    requires
        forall|i: int| lo <= i < hi ==> run[i].level() != level,
    ensures
        last_infix(run, lo, hi, level) == -1,
    decreases hi - lo,
{
    if hi > lo {
        lemma_no_infix(run, lo, hi - 1, level);
    }
}

/// The last infix operator of a level is the one behind which no other of
/// that level stands.
proof fn lemma_last_infix_at(run: Seq<PairView>, lo: int, at: int, hi: int, level: nat)
    requires
        lo <= at < hi,
        run[at].level() == level,
        forall|i: int| at < i < hi ==> run[i].level() != level,
    ensures
        last_infix(run, lo, hi, level) == at,
    decreases hi - at,
{
    if hi - 1 > at {
        lemma_last_infix_at(run, lo, at, hi - 1, level);
    }
}

/// A run splits at an operator that binds no tighter than those before it
/// and less tightly than those after it.
pub(crate) proof fn lemma_split(run: Seq<PairView>, lo: int, at: int, hi: int)
    requires
        0 <= lo < at < hi <= run.len(),
        run[at].is_infix(),
        forall|i: int| lo <= i < at && run[i].is_infix() ==> run[i].level() >= run[at].level(),
        forall|i: int| at < i < hi && run[i].is_infix() ==> run[i].level() > run[at].level(),
    ensures
        tree_of(run, lo, hi) == (ExpressionView::BinOp {
            lhs: Box::new(tree_of(run, lo, at)),
            op: operation_of(run[at]),
            rhs: Box::new(tree_of(run, at + 1, hi)),
        }),
{
    if run[at].level() == 1 {
        lemma_last_infix_at(run, lo, at, hi, 1);
    } else {
        assert(run[at].level() == 2);
        lemma_no_infix(run, lo, hi, 1);
        lemma_last_infix_at(run, lo, at, hi, 2);
    }
}

/// A run of one primary has the tree of that primary.
pub(crate) proof fn lemma_single(run: Seq<PairView>, at: int)
    requires
        0 <= at < run.len(),
        run[at].is_primary(),
        build_primary(run[at]) is Ok,
    ensures
        tree_of(run, at, at + 1) == build_primary(run[at])->Ok_0,
{
    lemma_no_infix(run, at, at + 1, 1);
    lemma_no_infix(run, at, at + 1, 2);
}

/// A run of a unary minus and what follows it, without an infix operator,
/// has the tree of what follows, negated.
pub(crate) proof fn lemma_negated(run: Seq<PairView>, lo: int, hi: int)
    requires
        0 <= lo < hi <= run.len(),
        run[lo].is_prefix(),
        forall|i: int| lo <= i < hi ==> !run[i].is_infix(),
    ensures
        tree_of(run, lo, hi) == ExpressionView::UnaryMinus(Box::new(tree_of(run, lo + 1, hi))),
{
    lemma_no_infix(run, lo, hi, 1);
    lemma_no_infix(run, lo, hi, 2);
}

/// A run in which every pair compiles has no failure.
pub(crate) proof fn lemma_no_failure(run: Seq<PairView>, n: int)
    requires
        0 <= n <= run.len(),
        forall|i: int| 0 <= i < n ==> build_primary(#[trigger] run[i]) is Ok,
    ensures
        first_failure(run, 0, n) is None,
    decreases n,
{
    if n > 0 {
        lemma_no_failure(run, n - 1);
    }
}

/// A failure among the first `k` pairs is the failure of any longer prefix.
proof fn lemma_failure_stays(run: Seq<PairView>, k: int, n: int)
    requires
        0 <= k <= n <= run.len(),
        first_failure(run, 0, k) is Some,
    ensures
        first_failure(run, 0, n) == first_failure(run, 0, k),
    decreases n - k,
{
    if k < n {
        lemma_failure_stays(run, k, n - 1);
    }
}

/// How tightly an infix operator binds.
fn infix_level(p: &Pair) -> (level: u8)
    ensures
        level == p@.level(),
{
    match p {
        Pair::Add => 1,
        Pair::Subtract => 1,
        Pair::Multiply => 2,
        Pair::Divide => 2,
        _ => 0,
    }
}

/// The operator that an infix pair stands for.
fn infix_operation(p: &Pair) -> (op: Operation)
    ensures
        op == operation_of(p@),
{
    match p {
        Pair::Subtract => Operation::Subtract,
        Pair::Multiply => Operation::Multiply,
        Pair::Divide => Operation::Divide,
        _ => Operation::Add,
    }
}

/// Compiles every argument of a call, from left to right, and stops at the
/// first that fails.
fn parse_arguments(args: &Vec<Vec<Pair>>) -> (r: ParseResult<Vec<Expression>>)
    requires
        forall|i: int| 0 <= i < args.len() ==> well_formed(#[trigger] runs_view(args@)[i]),
    ensures
        match r {
            Ok(trees) => build_arguments(runs_view(args@), args.len() as nat) == Ok::<
                Seq<ExpressionView>,
                ParseErrorView,
            >(expression_views(trees@)),
            Err(e) => build_arguments(runs_view(args@), args.len() as nat) == Err::<
                Seq<ExpressionView>,
                ParseErrorView,
            >(e@),
        },
    decreases args, 0nat, 0nat,
{
    let ghost runs = runs_view(args@);
    let mut trees: Vec<Expression> = Vec::new();
    let mut i: usize = 0;
    assert(expression_views(trees@) =~= Seq::empty());
    while i < args.len()
        invariant
            i <= args.len(),
            runs == runs_view(args@),
            forall|i: int| 0 <= i < args.len() ==> well_formed(#[trigger] runs[i]),
            build_arguments(runs, i as nat) == Ok::<Seq<ExpressionView>, ParseErrorView>(
                expression_views(trees@),
            ),
        decreases args.len() - i,
    {
        assert(well_formed(runs[i as int]));
        assert(runs[i as int] == run_view(args[i as int]@));
        match parse_expr(&args[i]) {
            Ok(tree) => {
                let ghost before = trees@;
                trees.push(tree);
                assert(expression_views(trees@) =~= expression_views(before).push(tree@));
            },
            Err(e) => {
                proof {
                    lemma_arguments_failure_stays(runs, (i + 1) as nat, args.len() as nat);
                }
                return Err(e);
            },
        }
        i += 1;
    }
    Ok(trees)
}

/// A failure among the first `k` arguments is the failure of any longer
/// prefix.
proof fn lemma_arguments_failure_stays(args: Seq<Seq<PairView>>, k: nat, n: nat)
    requires
        k <= n <= args.len(),
        build_arguments(args, k) is Err,
    ensures
        build_arguments(args, n) == build_arguments(args, k),
    decreases n,
{
    if k < n {
        lemma_arguments_failure_stays(args, k, (n - 1) as nat);
    }
}

/// The name of a function as error messages write it.
fn function_name_string(name: FunctionName) -> (r: String)
    ensures
        r@ == name_text(name),
{
    match name {
        FunctionName::Concat => String::from_str("concat"),
        FunctionName::Ceil => String::from_str("ceil"),
        FunctionName::Round => String::from_str("round"),
        FunctionName::Floor => String::from_str("floor"),
        FunctionName::Least => String::from_str("least"),
        FunctionName::Greatest => String::from_str("greatest"),
    }
}

/// Compiles a call of `round`, `ceil` or `floor`: one argument, or two.
pub fn parse_function_with_args(name: FunctionName, args: &Vec<Vec<Pair>>) -> (r: ParseResult<
    Function,
>)
    requires
        rounding_of(name) is Some,
        forall|i: int| 0 <= i < args.len() ==> well_formed(#[trigger] runs_view(args@)[i]),
    ensures
        function_outcome(r) == build_function(name, runs_view(args@)),
    decreases args, 1nat, 0nat,
{
    let n = args.len();
    if n != 1 && n != 2 {
        return Err(
            ParseError::WrongNumberOfArguments(
                function_name_string(name),
                String::from_str("1..2"),
                n,
            ),
        );
    }
    let ghost runs = runs_view(args@);
    assert(well_formed(runs[0]) && runs[0] == run_view(args[0]@));
    assert(build_arguments(runs, 0) == Ok::<Seq<ExpressionView>, ParseErrorView>(Seq::empty()));
    let value = match parse_expr(&args[0]) {
        Ok(tree) => Box::new(tree),
        Err(e) => {
            proof {
                lemma_arguments_failure_stays(runs, 1, n as nat);
            }
            return Err(e);
        },
    };
    let digits = if n == 2 {
        assert(well_formed(runs[1]) && runs[1] == run_view(args[1]@));
        match parse_expr(&args[1]) {
            Ok(tree) => Some(Box::new(tree)),
            Err(e) => { return Err(e); },
        }
    } else {
        None
    };
    Ok(
        match name {
            FunctionName::Ceil => Function::Ceil(value, digits),
            FunctionName::Floor => Function::Floor(value, digits),
            _ => Function::Round(value, digits),
        },
    )
}

/// Compiles a call: its name decides what becomes of the arguments.
pub fn parse_function(name: FunctionName, args: &Vec<Vec<Pair>>) -> (r: ParseResult<Function>)
    requires
        forall|i: int| 0 <= i < args.len() ==> well_formed(#[trigger] runs_view(args@)[i]),
    ensures
        function_outcome(r) == build_function(name, runs_view(args@)),
    decreases args, 2nat, 0nat,
{
    match name {
        FunctionName::Concat => match parse_arguments(args) {
            Ok(trees) => Ok(Function::Concat(trees)),
            Err(e) => Err(e),
        },
        FunctionName::Ceil => parse_function_with_args(name, args),
        FunctionName::Round => parse_function_with_args(name, args),
        FunctionName::Floor => parse_function_with_args(name, args),
        FunctionName::Least => match parse_arguments(args) {
            Ok(trees) => Ok(Function::Least(trees)),
            Err(e) => Err(e),
        },
        FunctionName::Greatest => match parse_arguments(args) {
            Ok(trees) => Ok(Function::Greatest(trees)),
            Err(e) => Err(e),
        },
    }
}

/// Compiles one primary.
fn parse_primary(pair: &Pair) -> (r: ParseResult<Expression>)
    requires
        well_formed_pair(pair@),
        pair@.is_primary(),
    ensures
        expression_outcome(r) == build_primary(pair@),
    decreases pair, 0nat, 0nat,
{
    match pair {
        Pair::Function(name, args) => {
            assert(pair@ == PairView::Function(*name, runs_view(args@)));
            assert forall|i: int| 0 <= i < args.len() implies well_formed(
                #[trigger] runs_view(args@)[i],
            ) by {}
            match parse_function(*name, args) {
                Ok(f) => Ok(Expression::Function(f)),
                Err(e) => Err(e),
            }
        },
        Pair::Decimal(text) => {
            let chars = characters(text.as_str());
            if !is_literal_text(&chars) {
                return Err(ParseError::FailedToParseBigDecimal(text.clone()));
            }
            // A literal always reads as the decimal it writes.
            match Decimal::parse(text.as_str()) {
                Some(d) => Ok(Expression::Decimal(d)),
                None => Err(ParseError::FailedToParseBigDecimal(text.clone())),
            }
        },
        Pair::Expr(inner) => parse_expr(inner),
        Pair::Variable(attribute) => Ok(Expression::EventAttribute(attribute.clone())),
        Pair::String(s) => Ok(Expression::String(s.clone())),
        _ => Ok(Expression::String(String::new())),
    }
}

/// Compiles the operand that starts at `pos`: its unary minus signs wrap
/// its primary.
fn parse_operand(pairs: &Vec<Pair>, pos: usize) -> (r: ParseResult<(Expression, usize)>)
    requires
        well_formed(run_view(pairs@)),
        pos < pairs.len(),
        !run_view(pairs@)[pos as int].is_infix(),
        first_failure(run_view(pairs@), 0, pos as int) is None,
    ensures
        match r {
            Ok((tree, end)) => {
                &&& pos < end <= pairs.len()
                &&& run_view(pairs@)[end - 1].is_primary()
                &&& forall|i: int| pos <= i < end ==> !run_view(pairs@)[i].is_infix()
                &&& tree@ == tree_of(run_view(pairs@), pos as int, end as int)
                &&& first_failure(run_view(pairs@), 0, end as int) is None
            },
            Err(e) => build_expr(run_view(pairs@)) == Err::<ExpressionView, ParseErrorView>(e@),
        },
    decreases pairs, pairs.len() - pos, 0nat,
{
    let ghost run = run_view(pairs@);
    match &pairs[pos] {
        Pair::UnaryMinus => {
            assert(run[pos as int].is_prefix());
            assert(!run[pos as int].is_primary());
            assert(build_primary(run[pos as int]) is Ok);
            match parse_operand(pairs, pos + 1) {
                Ok((inner, end)) => {
                    proof {
                        lemma_no_infix(run, pos as int, end as int, 1);
                        lemma_no_infix(run, pos as int, end as int, 2);
                    }
                    Ok((Expression::UnaryMinus(Box::new(inner)), end))
                },
                Err(e) => Err(e),
            }
        },
        pair => {
            assert(run[pos as int].is_primary());
            assert(well_formed_pair(run[pos as int]));
            match parse_primary(pair) {
                Ok(tree) => {
                    proof {
                        lemma_no_infix(run, pos as int, pos + 1, 1);
                        lemma_no_infix(run, pos as int, pos + 1, 2);
                    }
                    Ok((tree, pos + 1))
                },
                Err(e) => {
                    proof {
                        lemma_failure_stays(run, pos + 1, run.len() as int);
                    }
                    Err(e)
                },
            }
        },
    }
}

/// Precedence climbing: compiles the operand at `pos` and folds into it,
/// from the left, every following operator that binds at least as tightly
/// as `min_level`, each with a right-hand side of tighter operators only.
fn parse_climb(pairs: &Vec<Pair>, pos: usize, min_level: u8) -> (r: ParseResult<
    (Expression, usize),
>)
    requires
        well_formed(run_view(pairs@)),
        pos < pairs.len(),
        !run_view(pairs@)[pos as int].is_infix(),
        first_failure(run_view(pairs@), 0, pos as int) is None,
        1 <= min_level <= 3,
    ensures
        match r {
            Ok((tree, end)) => {
                &&& pos < end <= pairs.len()
                &&& run_view(pairs@)[end - 1].is_primary()
                &&& forall|i: int|
                    pos <= i < end && run_view(pairs@)[i].is_infix() ==> run_view(
                        pairs@,
                    )[i].level() >= min_level
                &&& end < pairs.len() ==> run_view(pairs@)[end as int].level() < min_level
                &&& tree@ == tree_of(run_view(pairs@), pos as int, end as int)
                &&& first_failure(run_view(pairs@), 0, end as int) is None
            },
            Err(e) => build_expr(run_view(pairs@)) == Err::<ExpressionView, ParseErrorView>(e@),
        },
    decreases pairs, pairs.len() - pos, 1nat,
{
    let ghost run = run_view(pairs@);
    let (mut lhs, mut end) = match parse_operand(pairs, pos) {
        Ok(found) => found,
        Err(e) => { return Err(e); },
    };
    let mut bound: u8 = 3;
    let mut done = false;
    while end < pairs.len() && !done
        invariant
            run == run_view(pairs@),
            well_formed(run),
            1 <= min_level <= bound <= 3,
            pos < end <= pairs.len(),
            run[end - 1].is_primary(),
            forall|i: int| pos <= i < end && run[i].is_infix() ==> run[i].level() >= bound,
            end < pairs.len() ==> run[end as int].level() <= bound,
            done ==> end < pairs.len() && run[end as int].level() < min_level,
            lhs@ == tree_of(run, pos as int, end as int),
            first_failure(run, 0, end as int) is None,
        decreases pairs.len() - end, if done { 0nat } else { 1nat },
    {
        let level = infix_level(&pairs[end]);
        assert(run[end as int].is_infix());
        if level < min_level {
            done = true;
        } else {
            let op = infix_operation(&pairs[end]);
            assert(!run[end as int].is_primary());
            assert(end + 1 < pairs.len());
            assert(!run[end + 1].is_infix());
            assert(build_primary(run[end as int]) is Ok);
            let (rhs, next) = match parse_climb(pairs, end + 1, level + 1) {
                Ok(found) => found,
                Err(e) => { return Err(e); },
            };
            proof {
                lemma_split(run, pos as int, end as int, next as int);
            }
            lhs = Expression::BinOp { lhs: Box::new(lhs), op, rhs: Box::new(rhs) };
            bound = level;
            end = next;
        }
    }
    Ok((lhs, end))
}

/// Compiles a run of classified pairs into a tree.
pub fn parse_expr(pairs: &Vec<Pair>) -> (r: ParseResult<Expression>)
    requires
        well_formed(run_view(pairs@)),
    ensures
        expression_outcome(r) == build_expr(run_view(pairs@)),
    decreases pairs, pairs.len() + 1, 0nat,
{
    match parse_climb(pairs, 0, 1) {
        Ok((tree, end)) => Ok(tree),
        Err(e) => Err(e),
    }
}

/// What the error of a text that is no formula says: the position at which
/// the text stops being one, counted in characters from 0.
pub open spec fn syntax_message(at: nat) -> Seq<char> {
    "Syntax error at position "@ + digit_chars(at)
}

/// What a text compiles to.
pub open spec fn compiled(text: Seq<char>) -> Result<ExpressionView, ParseErrorView> {
    match classified(text) {
        Err(at) => Err(ParseErrorView::FailedToParse(syntax_message(at as nat))),
        Ok(run) => build_expr(run),
    }
}

/// What an error says in words.
pub open spec fn error_text(e: ParseErrorView) -> Seq<char> {
    match e {
        ParseErrorView::FailedToParse(message) => message,
        ParseErrorView::WrongNumberOfArguments(name, expected, provided) =>
            "Wrong number of arguments to function "@ + name + ", expected: "@ + expected
                + ", provided: "@ + digit_chars(provided),
        ParseErrorView::FailedToParseBigDecimal(literal) => "bigdecimal parsing error: "@
            + literal,
    }
}

/// The text of one digit.
fn digit_text(d: usize) -> (r: &'static str)
    requires
        d < 10,
    ensures
        r@ == seq![digit_char(d as int)],
{
    proof {
        reveal_strlit("0");
        reveal_strlit("1");
        reveal_strlit("2");
        reveal_strlit("3");
        reveal_strlit("4");
        reveal_strlit("5");
        reveal_strlit("6");
        reveal_strlit("7");
        reveal_strlit("8");
        reveal_strlit("9");
    }
    let r = match d {
        0 => "0",
        1 => "1",
        2 => "2",
        3 => "3",
        4 => "4",
        5 => "5",
        6 => "6",
        7 => "7",
        8 => "8",
        _ => "9",
    };
    assert(r@ =~= seq![digit_char(d as int)]);
    r
}

/// The decimal digits of a number.
fn number_text(n: usize) -> (r: String)
    ensures
        r@ == digit_chars(n as nat),
    decreases n,
{
    if n < 10 {
        String::from_str(digit_text(n))
    } else {
        let mut r = number_text(n / 10);
        r.append(digit_text(n % 10));
        assert(r@ =~= digit_chars((n / 10) as nat).push(digit_char((n % 10) as int)));
        r
    }
}

impl ParseError {
    /// The error in words.
    pub fn message(&self) -> (r: String)
        ensures
            r@ == error_text(self@),
    {
        match self {
            ParseError::FailedToParse(message) => message.clone(),
            ParseError::WrongNumberOfArguments(name, expected, provided) => {
                let mut r = String::from_str("Wrong number of arguments to function ");
                r.append(name.as_str());
                r.append(", expected: ");
                r.append(expected.as_str());
                r.append(", provided: ");
                r.append(number_text(*provided).as_str());
                r
            },
            ParseError::FailedToParseBigDecimal(literal) => {
                let mut r = String::from_str("bigdecimal parsing error: ");
                r.append(literal.as_str());
                r
            },
        }
    }
}

/// The compiler of formulas.
pub struct ExpressionParser;

impl ExpressionParser {
    /// Compiles the text of a formula. The text is classified by the
    /// grammar first, so a text that is no formula fails as such even where
    /// it also holds a number that is no decimal or a call with a wrong
    /// number of arguments.
    pub fn parse_expression(input: &str) -> (r: ParseResult<Expression>)
        ensures
            expression_outcome(r) == compiled(input@),
    {
        match classify(input) {
            Ok(pairs) => parse_expr(&pairs),
            Err(at) => {
                let mut message = String::from_str("Syntax error at position ");
                message.append(number_text(at).as_str());
                Err(ParseError::FailedToParse(message))
            },
        }
    }
}

} // verus!
