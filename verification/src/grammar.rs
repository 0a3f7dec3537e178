//! The grammar of formulas: how text is classified into runs of pairs.
//!
//! ```text
//! root     := expr                        (the whole text)
//! expr     := operand (infix operand)*
//! operand  := '-' operand | primary
//! primary  := decimal | string | variable | call | '(' expr ')'
//! decimal  := digit+ ('.' digit+)?
//! string   := "'" (any character but "'")* "'"
//! variable := 'event.code' | 'event.timestamp' | 'event.properties.' word+
//! call     := name '(' (expr (',' expr)*)? ')'
//! ```
//!
//! `name` is one of `concat`, `round`, `ceil`, `floor`, `least`, `greatest`,
//! in lower or upper case or any mixture of them; `event` and what follows
//! it are written in lower case. A `word` character is an ASCII letter, a
//! digit or `_`. Blanks, which are space characters, may stand between any
//! two of the pieces above, but not inside a decimal, a variable or a name;
//! inside a string they belong to it. An infix operator is one of `+`, `-`,
//! `*` and `/`.
//!
//! Where a digit stands, all the digits and points that follow are taken
//! for one number. Whether they are a `decimal` is left to the tree builder,
//! which refuses a number with two points, or without the digits that a
//! point asks for, as a decimal that is none.
//!
//! The `scan_` functions below say what the grammar makes of a text. They
//! follow it from left to right without going back, and each gives the
//! pairs of the piece it recognises with the number of characters that the
//! piece takes up, or the position at which the text stops being a formula.
//! Positions count characters from 0. The `read_` functions do the same on
//! the characters of a text, and are proved to agree with them.

use crate::ast::AttributeView;
use crate::decimal::digits_at;
use crate::decimal::is_digit;
use crate::decimal::is_literal;
use crate::syntax::FunctionName;
use crate::syntax::PairView;
use crate::ast::EventAttribute;
use crate::syntax::run_view;
use crate::syntax::runs_view;
use crate::syntax::well_formed;
use crate::syntax::well_formed_pair;
use crate::syntax::Pair;
use vstd::prelude::*;
use vstd::string::StrSliceExecFns;
use vstd::string::StringExecFns;

verus! {

/// Whether `c` may stand in the name of a property.
pub open spec fn is_word(c: char) -> bool {
    ('a' <= c && c <= 'z') || ('A' <= c && c <= 'Z') || is_digit(c) || c == '_'
}

/// How many blanks stand at position `i`.
pub open spec fn blanks_at(s: Seq<char>, i: int) -> nat
    decreases s.len() - i,
{
    if 0 <= i < s.len() && s[i] == ' ' {
        1 + blanks_at(s, i + 1)
    } else {
        0
    }
}

/// How many word characters stand at position `i`.
pub open spec fn word_at(s: Seq<char>, i: int) -> nat
    decreases s.len() - i,
{
    if 0 <= i < s.len() && is_word(s[i]) {
        1 + word_at(s, i + 1)
    } else {
        0
    }
}

/// How many characters other than a quote stand at position `i`.
pub open spec fn unquoted_at(s: Seq<char>, i: int) -> nat
    decreases s.len() - i,
{
    if 0 <= i < s.len() && s[i] != '\'' {
        1 + unquoted_at(s, i + 1)
    } else {
        0
    }
}

/// Whether the keyword stands at position `i`, each of its letters in
/// either of the two cases given.
pub open spec fn keyword_at(s: Seq<char>, i: int, lower: Seq<char>, upper: Seq<char>) -> bool {
    &&& 0 <= i
    &&& i + lower.len() <= s.len()
    &&& forall|k: int|
        0 <= k < lower.len() ==> s[i + k] == lower[k] || s[i + k] == #[trigger] upper[k]
}

/// The function name that stands at position `i`, with its length.
pub open spec fn name_at(s: Seq<char>, i: int) -> Option<(FunctionName, nat)> {
    if keyword_at(s, i, "concat"@, "CONCAT"@) {
        Some((FunctionName::Concat, "concat"@.len()))
    } else if keyword_at(s, i, "round"@, "ROUND"@) {
        Some((FunctionName::Round, "round"@.len()))
    } else if keyword_at(s, i, "ceil"@, "CEIL"@) {
        Some((FunctionName::Ceil, "ceil"@.len()))
    } else if keyword_at(s, i, "floor"@, "FLOOR"@) {
        Some((FunctionName::Floor, "floor"@.len()))
    } else if keyword_at(s, i, "least"@, "LEAST"@) {
        Some((FunctionName::Least, "least"@.len()))
    } else if keyword_at(s, i, "greatest"@, "GREATEST"@) {
        Some((FunctionName::Greatest, "greatest"@.len()))
    } else {
        None
    }
}

/// The infix operator that a character writes.
pub open spec fn infix_of(c: char) -> Option<PairView> {
    if c == '+' {
        Some(PairView::Add)
    } else if c == '-' {
        Some(PairView::Subtract)
    } else if c == '*' {
        Some(PairView::Multiply)
    } else if c == '/' {
        Some(PairView::Divide)
    } else {
        None
    }
}

/// Whether `c` may stand in what is written for a number.
pub open spec fn is_numeric(c: char) -> bool {
    is_digit(c) || c == '.'
}

/// How many digits and points stand at position `i`. Where a digit stands
/// at `i`, these are taken for one number, well written or not.
pub open spec fn numeric_at(s: Seq<char>, i: int) -> nat
    decreases s.len() - i,
{
    if 0 <= i < s.len() && is_numeric(s[i]) {
        1 + numeric_at(s, i + 1)
    } else {
        0
    }
}

/// The variable at position `i`, where `event.` stands, with its length.
pub open spec fn scan_variable(s: Seq<char>, i: int) -> Result<(PairView, nat), int> {
    let at = i + "event."@.len();
    let name = at + "properties."@.len();
    if keyword_at(s, at, "code"@, "code"@) {
        Ok((PairView::Variable(AttributeView::Code), "event."@.len() + "code"@.len()))
    } else if keyword_at(s, at, "timestamp"@, "timestamp"@) {
        Ok((PairView::Variable(AttributeView::Timestamp), "event."@.len() + "timestamp"@.len()))
    } else if keyword_at(s, at, "properties."@, "properties."@) {
        if word_at(s, name) > 0 {
            Ok(
                (
                    PairView::Variable(
                        AttributeView::Properties(s.subrange(name, name + word_at(s, name))),
                    ),
                    "event."@.len() + "properties."@.len() + word_at(s, name),
                ),
            )
        } else {
            Err(name)
        }
    } else {
        Err(at)
    }
}

/// How many characters are left from position `i`.
pub open spec fn remaining(s: Seq<char>, i: int) -> nat {
    if i <= s.len() {
        (s.len() - i) as nat
    } else {
        0
    }
}

/// The primary at position `i`, where neither a blank nor a minus sign
/// stands.
pub open spec fn scan_primary(s: Seq<char>, i: int) -> Result<(PairView, nat), int>
    decreases remaining(s, i), 0nat,
{
    if !(0 <= i < s.len()) {
        Err(i)
    } else if s[i] == '(' {
        match scan_expr(s, i + 1) {
            Err(at) => Err(at),
            Ok((inner, width)) => if i + 1 + width < s.len() && s[i + 1 + width] == ')' {
                Ok((PairView::Expr(inner), width + 2))
            } else {
                Err(i + 1 + width)
            },
        }
    } else if s[i] == '\'' {
        let width = unquoted_at(s, i + 1);
        if i + 1 + width < s.len() {
            Ok((PairView::String(s.subrange(i + 1, i + 1 + width)), width + 2))
        } else {
            Err(s.len() as int)
        }
    } else if is_digit(s[i]) {
        Ok((PairView::Decimal(s.subrange(i, i + numeric_at(s, i))), numeric_at(s, i)))
    } else if keyword_at(s, i, "event."@, "event."@) {
        scan_variable(s, i)
    } else {
        match name_at(s, i) {
            None => Err(i),
            Some((name, length)) => {
                let open = i + length + blanks_at(s, i + length);
                if open < s.len() && s[open] == '(' {
                    match scan_arguments(s, open + 1) {
                        Err(at) => Err(at),
                        Ok((args, width)) => Ok(
                            (
                                PairView::Function(name, args),
                                length + blanks_at(s, i + length) + 1 + width,
                            ),
                        ),
                    }
                } else {
                    Err(open)
                }
            },
        }
    }
}

/// The operand at position `i`: blanks, unary minus signs, and a primary.
pub open spec fn scan_operand(s: Seq<char>, i: int) -> Result<(Seq<PairView>, nat), int>
    decreases remaining(s, i), 1nat,
{
    if !(0 <= i < s.len()) {
        Err(i)
    } else if s[i] == ' ' {
        match scan_operand(s, i + 1) {
            Err(at) => Err(at),
            Ok((run, width)) => Ok((run, width + 1)),
        }
    } else if s[i] == '-' {
        match scan_operand(s, i + 1) {
            Err(at) => Err(at),
            Ok((run, width)) => Ok((seq![PairView::UnaryMinus] + run, width + 1)),
        }
    } else {
        match scan_primary(s, i) {
            Err(at) => Err(at),
            Ok((pair, width)) => Ok((seq![pair], width)),
        }
    }
}

/// What follows an operand at position `i`: blanks, and as long as an infix
/// operator comes next, that operator and its operand.
pub open spec fn scan_tail(s: Seq<char>, i: int) -> Result<(Seq<PairView>, nat), int>
    decreases remaining(s, i), 2nat,
{
    if !(0 <= i < s.len()) {
        Ok((Seq::empty(), 0))
    } else if s[i] == ' ' {
        match scan_tail(s, i + 1) {
            Err(at) => Err(at),
            Ok((run, width)) => Ok((run, width + 1)),
        }
    } else {
        match infix_of(s[i]) {
            None => Ok((Seq::empty(), 0)),
            Some(op) => match scan_operand(s, i + 1) {
                Err(at) => Err(at),
                Ok((operand, width)) => match scan_tail(s, i + 1 + width) {
                    Err(at) => Err(at),
                    Ok((run, more)) => Ok((seq![op] + operand + run, 1 + width + more)),
                },
            },
        }
    }
}

/// The expression at position `i`, with the blanks around it.
pub open spec fn scan_expr(s: Seq<char>, i: int) -> Result<(Seq<PairView>, nat), int>
    decreases remaining(s, i), 3nat,
{
    match scan_operand(s, i) {
        Err(at) => Err(at),
        Ok((operand, width)) => match scan_tail(s, i + width) {
            Err(at) => Err(at),
            Ok((run, more)) => Ok((operand + run, width + more)),
        },
    }
}

/// What follows an argument at position `i`: the closing parenthesis, or a
/// comma and more arguments.
pub open spec fn scan_more_arguments(s: Seq<char>, i: int) -> Result<
    (Seq<Seq<PairView>>, nat),
    int,
>
    decreases remaining(s, i), 4nat,
{
    if !(0 <= i < s.len()) {
        Err(i)
    } else if s[i] == ')' {
        Ok((Seq::empty(), 1))
    } else if s[i] == ',' {
        match scan_expr(s, i + 1) {
            Err(at) => Err(at),
            Ok((argument, width)) => match scan_more_arguments(s, i + 1 + width) {
                Err(at) => Err(at),
                Ok((args, more)) => Ok((seq![argument] + args, 1 + width + more)),
            },
        }
    } else {
        Err(i)
    }
}

/// The arguments of a call from position `i`, behind its opening
/// parenthesis, up to the closing one.
pub open spec fn scan_arguments(s: Seq<char>, i: int) -> Result<(Seq<Seq<PairView>>, nat), int>
    decreases remaining(s, i), 5nat,
{
    if !(0 <= i < s.len()) {
        Err(i)
    } else if s[i] == ' ' {
        match scan_arguments(s, i + 1) {
            Err(at) => Err(at),
            Ok((args, width)) => Ok((args, width + 1)),
        }
    } else if s[i] == ')' {
        Ok((Seq::empty(), 1))
    } else {
        match scan_expr(s, i) {
            Err(at) => Err(at),
            Ok((argument, width)) => match scan_more_arguments(s, i + width) {
                Err(at) => Err(at),
                Ok((args, more)) => Ok((seq![argument] + args, width + more)),
            },
        }
    }
}

/// What the grammar makes of a whole text: its run of pairs, or the position
/// at which the text stops being a formula.
pub open spec fn classified(s: Seq<char>) -> Result<Seq<PairView>, int> {
    match scan_expr(s, 0) {
        Err(at) => Err(at),
        Ok((run, width)) => if width == s.len() {
            Ok(run)
        } else {
            Err(width as int)
        },
    }
}

/// The characters of a text, one by one.
pub(crate) fn characters(text: &str) -> (chars: Vec<char>)
    ensures
        chars@ == text@,
{
    let mut chars: Vec<char> = Vec::new();
    for c in iter: text.chars()
        invariant
            iter.seq() == text@,
            chars@ == text@.subrange(0, iter.index() as int),
    {
        chars.push(c);
        assert(chars@ =~= text@.subrange(0, iter.index() + 1));
    }
    assert(chars@ =~= text@);
    chars
}

/// The piece of the text between two positions.
fn piece(text: &str, from: usize, to: usize) -> (r: String)
    requires
        from <= to <= text@.len(),
    ensures
        r@ == text@.subrange(from as int, to as int),
{
    String::from_str(text.substring_char(from, to))
}

fn is_digit_char(c: char) -> (r: bool)
    ensures
        r == is_digit(c),
{
    '0' <= c && c <= '9'
}

fn is_word_char(c: char) -> (r: bool)
    ensures
        r == is_word(c),
{
    ('a' <= c && c <= 'z') || ('A' <= c && c <= 'Z') || is_digit_char(c) || c == '_'
}

/// The position behind the blanks at `i`.
fn skip_blanks(chars: &Vec<char>, i: usize) -> (end: usize)
    requires
        i <= chars.len(),
    ensures
        end == i + blanks_at(chars@, i as int),
        end <= chars.len(),
{
    let mut end = i;
    while end < chars.len() && chars[end] == ' '
        invariant
            i <= end <= chars.len(),
            i + blanks_at(chars@, i as int) == end + blanks_at(chars@, end as int),
        decreases chars.len() - end,
    {
        end += 1;
    }
    end
}

/// The position behind the digits at `i`.
fn skip_digits(chars: &Vec<char>, i: usize) -> (end: usize)
    requires
        i <= chars.len(),
    ensures
        end == i + digits_at(chars@, i as int),
        end <= chars.len(),
{
    let mut end = i;
    while end < chars.len() && is_digit_char(chars[end])
        invariant
            i <= end <= chars.len(),
            i + digits_at(chars@, i as int) == end + digits_at(chars@, end as int),
        decreases chars.len() - end,
    {
        end += 1;
    }
    end
}

/// The position behind the digits and points at `i`.
fn skip_numeric(chars: &Vec<char>, i: usize) -> (end: usize)
    requires
        i <= chars.len(),
    ensures
        end == i + numeric_at(chars@, i as int),
        end <= chars.len(),
{
    let mut end = i;
    while end < chars.len() && (is_digit_char(chars[end]) || chars[end] == '.')
        invariant
            i <= end <= chars.len(),
            i + numeric_at(chars@, i as int) == end + numeric_at(chars@, end as int),
        decreases chars.len() - end,
    {
        end += 1;
    }
    end
}

/// Whether the characters are a literal: digits, then optionally a point
/// and more digits.
pub(crate) fn is_literal_text(chars: &Vec<char>) -> (r: bool)
    ensures
        r == is_literal(chars@),
{
    let whole = skip_digits(chars, 0);
    if whole == 0 {
        false
    } else if whole == chars.len() {
        true
    } else if chars[whole] != '.' {
        false
    } else {
        let end = skip_digits(chars, whole + 1);
        end > whole + 1 && end == chars.len()
    }
}

/// The position behind the word characters at `i`.
fn skip_word(chars: &Vec<char>, i: usize) -> (end: usize)
    requires
        i <= chars.len(),
    ensures
        end == i + word_at(chars@, i as int),
        end <= chars.len(),
{
    let mut end = i;
    while end < chars.len() && is_word_char(chars[end])
        invariant
            i <= end <= chars.len(),
            i + word_at(chars@, i as int) == end + word_at(chars@, end as int),
        decreases chars.len() - end,
    {
        end += 1;
    }
    end
}

/// The position of the next quote from `i`, or the end of the text.
fn skip_unquoted(chars: &Vec<char>, i: usize) -> (end: usize)
    requires
        i <= chars.len(),
    ensures
        end == i + unquoted_at(chars@, i as int),
        end <= chars.len(),
{
    let mut end = i;
    while end < chars.len() && chars[end] != '\''
        invariant
            i <= end <= chars.len(),
            i + unquoted_at(chars@, i as int) == end + unquoted_at(chars@, end as int),
        decreases chars.len() - end,
    {
        end += 1;
    }
    end
}

/// Whether the keyword stands at `i`, in either case.
fn has_keyword(chars: &Vec<char>, i: usize, lower: &str, upper: &str) -> (r: bool)
    requires
        i <= chars.len(),
        lower@.len() == upper@.len(),
    ensures
        r == keyword_at(chars@, i as int, lower@, upper@),
{
    let n = lower.unicode_len();
    if n > chars.len() - i {
        return false;
    }
    let mut k: usize = 0;
    while k < n
        invariant
            k <= n,
            n == lower@.len(),
            n == upper@.len(),
            i + n <= chars.len(),
            forall|j: int|
                0 <= j < k ==> chars@[i + j] == lower@[j] || chars@[i + j] == #[trigger] upper@[j],
        decreases n - k,
    {
        let c = chars[i + k];
        if c != lower.get_char(k) && c != upper.get_char(k) {
            assert(!(chars@[i + k] == lower@[k as int] || chars@[i + k] == upper@[k as int]));
            return false;
        }
        k += 1;
    }
    true
}

/// Whether a run is one operand: unary minus signs and a primary.
pub open spec fn operand_shape(run: Seq<PairView>) -> bool {
    &&& run.len() > 0
    &&& run.last().is_primary()
    &&& well_formed_pair(run.last())
    &&& forall|i: int| 0 <= i < run.len() - 1 ==> #[trigger] run[i].is_prefix()
}

/// Whether a run is what may follow an operand: nothing, or infix operators
/// each with its operand.
pub open spec fn tail_shape(run: Seq<PairView>) -> bool {
    &&& run.len() > 0 ==> run[0].is_infix() && run.last().is_primary()
    &&& forall|i: int|
        0 <= i < run.len() - 1 ==> (#[trigger] run[i].is_primary() <==> run[i + 1].is_infix())
    &&& forall|i: int| 0 <= i < run.len() ==> well_formed_pair(#[trigger] run[i])
}

proof fn lemma_operand_with_tail(operand: Seq<PairView>, tail: Seq<PairView>)
    requires
        operand_shape(operand),
        tail_shape(tail),
    ensures
        well_formed(operand + tail),
{
    let run = operand + tail;
    let n = operand.len() as int;
    assert forall|i: int| 0 <= i < run.len() - 1 implies (#[trigger] run[i].is_primary()
        <==> run[i + 1].is_infix()) by {
        if i < n - 1 {
            assert(operand[i].is_prefix());
            assert(run[i + 1] == operand[i + 1]);
            if i + 1 < n - 1 {
                assert(operand[i + 1].is_prefix());
            }
        } else if i == n - 1 {
            assert(run[i + 1] == tail[0]);
        } else {
            assert(run[i] == tail[i - n]);
            assert(run[i + 1] == tail[i - n + 1]);
        }
    }
    assert forall|i: int| 0 <= i < run.len() implies well_formed_pair(#[trigger] run[i]) by {
        if i < n - 1 {
            assert(operand[i].is_prefix());
        } else if i >= n {
            assert(run[i] == tail[i - n]);
        }
    }
    if n > 1 {
        assert(operand[0].is_prefix());
    }
    if tail.len() > 0 {
        assert(run.last() == tail.last());
    } else {
        assert(run.last() == operand.last());
    }
}

proof fn lemma_longer_tail(op: PairView, operand: Seq<PairView>, tail: Seq<PairView>)
    requires
        op.is_infix(),
        operand_shape(operand),
        tail_shape(tail),
    ensures
        tail_shape(seq![op] + operand + tail),
{
    let rest = operand + tail;
    lemma_operand_with_tail(operand, tail);
    let run = seq![op] + operand + tail;
    assert(run =~= seq![op] + rest);
    assert forall|i: int| 0 <= i < run.len() - 1 implies (#[trigger] run[i].is_primary()
        <==> run[i + 1].is_infix()) by {
        if i > 0 {
            assert(run[i] == rest[i - 1]);
            assert(run[i + 1] == rest[i]);
        } else {
            assert(run[1] == rest[0]);
        }
    }
    assert forall|i: int| 0 <= i < run.len() implies well_formed_pair(#[trigger] run[i]) by {
        if i > 0 {
            assert(run[i] == rest[i - 1]);
        }
    }
    assert(run.last() == rest.last());
}

proof fn lemma_negated_operand(operand: Seq<PairView>)
    requires
        operand_shape(operand),
    ensures
        operand_shape(seq![PairView::UnaryMinus] + operand),
{
    let run = seq![PairView::UnaryMinus] + operand;
    assert(run.last() == operand.last());
    assert forall|i: int| 0 <= i < run.len() - 1 implies #[trigger] run[i].is_prefix() by {
        if i > 0 {
            assert(run[i] == operand[i - 1]);
        }
    }
}

proof fn lemma_run_view_push(run: Seq<Pair>, pair: Pair)
    ensures
        run_view(run.push(pair)) == run_view(run).push(pair@),
{
    assert(run_view(run.push(pair)) =~= run_view(run).push(pair@));
}

proof fn lemma_runs_view_push(runs: Seq<Vec<Pair>>, run: Vec<Pair>)
    ensures
        runs_view(runs.push(run)) == runs_view(runs).push(run_view(run@)),
{
    assert(runs_view(runs.push(run)) =~= runs_view(runs).push(run_view(run@)));
}

/// Whether what was read agrees with what the grammar says of position
/// `i`: the same end, or the same place of failure.
pub open spec fn agrees<T>(r: Result<usize, usize>, i: usize, model: Result<(T, nat), int>) -> bool {
    match r {
        Ok(end) => model is Ok && end == i + model->Ok_0.1,
        Err(at) => model == Err::<(T, nat), int>(at as int),
    }
}

/// The function name at `i`, with its length.
fn read_name(chars: &Vec<char>, i: usize) -> (r: Option<(FunctionName, usize)>)
    requires
        i <= chars.len(),
    ensures
        match r {
            Some((name, length)) => name_at(chars@, i as int) == Some((name, length as nat)) && i
                + length <= chars.len(),
            None => name_at(chars@, i as int) is None,
        },
{
    proof {
        reveal_strlit("concat");
        reveal_strlit("CONCAT");
        reveal_strlit("round");
        reveal_strlit("ROUND");
        reveal_strlit("ceil");
        reveal_strlit("CEIL");
        reveal_strlit("floor");
        reveal_strlit("FLOOR");
        reveal_strlit("least");
        reveal_strlit("LEAST");
        reveal_strlit("greatest");
        reveal_strlit("GREATEST");
    }
    if has_keyword(chars, i, "concat", "CONCAT") {
        Some((FunctionName::Concat, 6))
    } else if has_keyword(chars, i, "round", "ROUND") {
        Some((FunctionName::Round, 5))
    } else if has_keyword(chars, i, "ceil", "CEIL") {
        Some((FunctionName::Ceil, 4))
    } else if has_keyword(chars, i, "floor", "FLOOR") {
        Some((FunctionName::Floor, 5))
    } else if has_keyword(chars, i, "least", "LEAST") {
        Some((FunctionName::Least, 5))
    } else if has_keyword(chars, i, "greatest", "GREATEST") {
        Some((FunctionName::Greatest, 8))
    } else {
        None
    }
}

/// Reads the variable at `i`, where `event.` stands.
pub(crate) fn parse_event_attribute(chars: &Vec<char>, text: &str, i: usize) -> (r: Result<
    (Pair, usize),
    usize,
>)
    requires
        chars@ == text@,
        i <= chars.len(),
        keyword_at(chars@, i as int, "event."@, "event."@),
    ensures
        match r {
            Ok((pair, end)) => scan_variable(chars@, i as int) == Ok::<(PairView, nat), int>(
                (pair@, (end - i) as nat),
            ) && i < end <= chars.len() && pair@.is_primary() && well_formed_pair(pair@),
            Err(at) => scan_variable(chars@, i as int) == Err::<(PairView, nat), int>(at as int)
                && at <= chars.len(),
        },
{
    proof {
        reveal_strlit("event.");
        reveal_strlit("code");
        reveal_strlit("timestamp");
        reveal_strlit("properties.");
    }
    let at = i + 6;
    if has_keyword(chars, at, "code", "code") {
        Ok((Pair::Variable(EventAttribute::Code), at + 4))
    } else if has_keyword(chars, at, "timestamp", "timestamp") {
        Ok((Pair::Variable(EventAttribute::Timestamp), at + 9))
    } else if has_keyword(chars, at, "properties.", "properties.") {
        let name = at + 11;
        let end = skip_word(chars, name);
        if end > name {
            Ok((Pair::Variable(EventAttribute::Properties(piece(text, name, end))), end))
        } else {
            Err(name)
        }
    } else {
        Err(at)
    }
}

/// Reads the primary at `i`, where neither a blank nor a minus sign stands.
fn read_primary(chars: &Vec<char>, text: &str, i: usize) -> (r: Result<(Pair, usize), usize>)
    requires
        chars@ == text@,
        i <= chars.len(),
    ensures
        match r {
            Ok((pair, end)) => scan_primary(chars@, i as int) == Ok::<(PairView, nat), int>(
                (pair@, (end - i) as nat),
            ) && i < end <= chars.len() && pair@.is_primary() && well_formed_pair(pair@),
            Err(at) => scan_primary(chars@, i as int) == Err::<(PairView, nat), int>(at as int)
                && at <= chars.len(),
        },
    decreases chars.len() - i, 0nat,
{
    proof {
        reveal_strlit("event.");
    }
    if i >= chars.len() {
        return Err(i);
    }
    let c = chars[i];
    if c == '(' {
        match read_expr(chars, text, i + 1) {
            Err(at) => Err(at),
            Ok((inner, end)) => if end < chars.len() && chars[end] == ')' {
                Ok((Pair::Expr(inner), end + 1))
            } else {
                Err(end)
            },
        }
    } else if c == '\'' {
        let end = skip_unquoted(chars, i + 1);
        if end < chars.len() {
            Ok((Pair::String(piece(text, i + 1, end)), end + 1))
        } else {
            Err(chars.len())
        }
    } else if is_digit_char(c) {
        let end = skip_numeric(chars, i);
        Ok((Pair::Decimal(piece(text, i, end)), end))
    } else if has_keyword(chars, i, "event.", "event.") {
        parse_event_attribute(chars, text, i)
    } else {
        match read_name(chars, i) {
            None => Err(i),
            Some((name, length)) => {
                let open = skip_blanks(chars, i + length);
                if open < chars.len() && chars[open] == '(' {
                    let mut args: Vec<Vec<Pair>> = Vec::new();
                    assert(runs_view(args@) =~= Seq::empty());
                    match read_arguments(chars, text, open + 1, &mut args) {
                        Err(at) => Err(at),
                        Ok(end) => {
                            assert(runs_view(args@) =~= scan_arguments(
                                chars@,
                                open + 1,
                            )->Ok_0.0);
                            Ok((Pair::Function(name, args), end))
                        },
                    }
                } else {
                    Err(open)
                }
            },
        }
    }
}

/// Reads the operand at `i` onto the end of `run`.
fn read_operand(chars: &Vec<char>, text: &str, i: usize, run: &mut Vec<Pair>) -> (r: Result<
    usize,
    usize,
>)
    requires
        chars@ == text@,
        i <= chars.len(),
    ensures
        agrees(r, i, scan_operand(chars@, i as int)),
        match r {
            Ok(end) => {
                &&& i < end <= chars.len()
                &&& operand_shape(scan_operand(chars@, i as int)->Ok_0.0)
                &&& run_view(final(run)@) == run_view(old(run)@) + scan_operand(
                    chars@,
                    i as int,
                )->Ok_0.0
            },
            Err(at) => at <= chars.len(),
        },
    decreases chars.len() - i, 1nat,
{
    if i >= chars.len() {
        return Err(i);
    }
    let c = chars[i];
    if c == ' ' {
        read_operand(chars, text, i + 1, run)
    } else if c == '-' {
        proof {
            lemma_run_view_push(run@, Pair::UnaryMinus);
        }
        run.push(Pair::UnaryMinus);
        let ghost pushed = run_view(run@);
        match read_operand(chars, text, i + 1, run) {
            Err(at) => Err(at),
            Ok(end) => {
                proof {
                    let rest = scan_operand(chars@, i + 1)->Ok_0.0;
                    lemma_negated_operand(rest);
                    assert(run_view(run@) =~= run_view(old(run)@) + (seq![PairView::UnaryMinus]
                        + rest));
                }
                Ok(end)
            },
        }
    } else {
        match read_primary(chars, text, i) {
            Err(at) => Err(at),
            Ok((pair, end)) => {
                proof {
                    lemma_run_view_push(run@, pair);
                    assert(run_view(run@).push(pair@) =~= run_view(run@) + seq![pair@]);
                }
                run.push(pair);
                Ok(end)
            },
        }
    }
}

/// Reads what follows an operand at `i` onto the end of `run`.
fn read_tail(chars: &Vec<char>, text: &str, i: usize, run: &mut Vec<Pair>) -> (r: Result<
    usize,
    usize,
>)
    requires
        chars@ == text@,
        i <= chars.len(),
    ensures
        agrees(r, i, scan_tail(chars@, i as int)),
        match r {
            Ok(end) => {
                &&& i <= end <= chars.len()
                &&& tail_shape(scan_tail(chars@, i as int)->Ok_0.0)
                &&& run_view(final(run)@) == run_view(old(run)@) + scan_tail(
                    chars@,
                    i as int,
                )->Ok_0.0
            },
            Err(at) => at <= chars.len(),
        },
    decreases chars.len() - i, 2nat,
{
    if i >= chars.len() {
        assert(run_view(run@) =~= run_view(run@) + Seq::<PairView>::empty());
        return Ok(i);
    }
    let c = chars[i];
    if c == ' ' {
        return read_tail(chars, text, i + 1, run);
    }
    let op = if c == '+' {
        Pair::Add
    } else if c == '-' {
        Pair::Subtract
    } else if c == '*' {
        Pair::Multiply
    } else if c == '/' {
        Pair::Divide
    } else {
        assert(run_view(run@) =~= run_view(run@) + Seq::<PairView>::empty());
        return Ok(i);
    };
    let ghost op_view = op@;
    proof {
        lemma_run_view_push(run@, op);
    }
    run.push(op);
    let after = match read_operand(chars, text, i + 1, run) {
        Err(at) => { return Err(at); },
        Ok(after) => after,
    };
    let ghost operand = scan_operand(chars@, i + 1)->Ok_0.0;
    match read_tail(chars, text, after, run) {
        Err(at) => Err(at),
        Ok(end) => {
            proof {
                let tail = scan_tail(chars@, after as int)->Ok_0.0;
                lemma_longer_tail(op_view, operand, tail);
                assert(run_view(run@) =~= run_view(old(run)@) + (seq![op_view] + operand
                    + tail));
            }
            Ok(end)
        },
    }
}

/// Reads the expression at `i`, with the blanks around it.
fn read_expr(chars: &Vec<char>, text: &str, i: usize) -> (r: Result<(Vec<Pair>, usize), usize>)
    requires
        chars@ == text@,
        i <= chars.len(),
    ensures
        match r {
            Ok((run, end)) => scan_expr(chars@, i as int) == Ok::<(Seq<PairView>, nat), int>(
                (run_view(run@), (end - i) as nat),
            ) && i < end <= chars.len() && well_formed(run_view(run@)),
            Err(at) => scan_expr(chars@, i as int) == Err::<(Seq<PairView>, nat), int>(at as int)
                && at <= chars.len(),
        },
    decreases chars.len() - i, 3nat,
{
    let mut run: Vec<Pair> = Vec::new();
    assert(run_view(run@) =~= Seq::empty());
    let after = match read_operand(chars, text, i, &mut run) {
        Err(at) => { return Err(at); },
        Ok(after) => after,
    };
    let ghost operand = scan_operand(chars@, i as int)->Ok_0.0;
    match read_tail(chars, text, after, &mut run) {
        Err(at) => Err(at),
        Ok(end) => {
            proof {
                let tail = scan_tail(chars@, after as int)->Ok_0.0;
                lemma_operand_with_tail(operand, tail);
                assert(run_view(run@) =~= operand + tail);
            }
            Ok((run, end))
        },
    }
}

/// Reads what follows an argument at `i` onto the end of `args`.
fn read_more_arguments(
    chars: &Vec<char>,
    text: &str,
    i: usize,
    args: &mut Vec<Vec<Pair>>,
) -> (r: Result<usize, usize>)
    requires
        chars@ == text@,
        i <= chars.len(),
    ensures
        agrees(r, i, scan_more_arguments(chars@, i as int)),
        match r {
            Ok(end) => {
                &&& i < end <= chars.len()
                &&& forall|k: int|
                    0 <= k < scan_more_arguments(chars@, i as int)->Ok_0.0.len() ==> well_formed(
                        #[trigger] scan_more_arguments(chars@, i as int)->Ok_0.0[k],
                    )
                &&& runs_view(final(args)@) == runs_view(old(args)@) + scan_more_arguments(
                    chars@,
                    i as int,
                )->Ok_0.0
            },
            Err(at) => at <= chars.len(),
        },
    decreases chars.len() - i, 4nat,
{
    if i >= chars.len() {
        return Err(i);
    }
    let c = chars[i];
    if c == ')' {
        assert(runs_view(args@) =~= runs_view(args@) + Seq::<Seq<PairView>>::empty());
        Ok(i + 1)
    } else if c == ',' {
        let (argument, after) = match read_expr(chars, text, i + 1) {
            Err(at) => { return Err(at); },
            Ok(found) => found,
        };
        let ghost first = run_view(argument@);
        proof {
            lemma_runs_view_push(args@, argument);
        }
        args.push(argument);
        match read_more_arguments(chars, text, after, args) {
            Err(at) => Err(at),
            Ok(end) => {
                proof {
                    let rest = scan_more_arguments(chars@, after as int)->Ok_0.0;
                    let all = seq![first] + rest;
                    assert(runs_view(args@) =~= runs_view(old(args)@) + all);
                    assert forall|k: int| 0 <= k < all.len() implies well_formed(
                        #[trigger] all[k],
                    ) by {
                        if k > 0 {
                            assert(all[k] == rest[k - 1]);
                        }
                    }
                }
                Ok(end)
            },
        }
    } else {
        Err(i)
    }
}

/// Reads the arguments of a call from `i`, behind its opening parenthesis,
/// onto the end of `args`.
fn read_arguments(chars: &Vec<char>, text: &str, i: usize, args: &mut Vec<Vec<Pair>>) -> (r:
    Result<usize, usize>)
    requires
        chars@ == text@,
        i <= chars.len(),
    ensures
        agrees(r, i, scan_arguments(chars@, i as int)),
        match r {
            Ok(end) => {
                &&& i < end <= chars.len()
                &&& forall|k: int|
                    0 <= k < scan_arguments(chars@, i as int)->Ok_0.0.len() ==> well_formed(
                        #[trigger] scan_arguments(chars@, i as int)->Ok_0.0[k],
                    )
                &&& runs_view(final(args)@) == runs_view(old(args)@) + scan_arguments(
                    chars@,
                    i as int,
                )->Ok_0.0
            },
            Err(at) => at <= chars.len(),
        },
    decreases chars.len() - i, 5nat,
{
    if i >= chars.len() {
        return Err(i);
    }
    let c = chars[i];
    if c == ' ' {
        read_arguments(chars, text, i + 1, args)
    } else if c == ')' {
        assert(runs_view(args@) =~= runs_view(args@) + Seq::<Seq<PairView>>::empty());
        Ok(i + 1)
    } else {
        let (argument, after) = match read_expr(chars, text, i) {
            Err(at) => { return Err(at); },
            Ok(found) => found,
        };
        let ghost first = run_view(argument@);
        proof {
            lemma_runs_view_push(args@, argument);
        }
        args.push(argument);
        match read_more_arguments(chars, text, after, args) {
            Err(at) => Err(at),
            Ok(end) => {
                proof {
                    let rest = scan_more_arguments(chars@, after as int)->Ok_0.0;
                    let all = seq![first] + rest;
                    assert(runs_view(args@) =~= runs_view(old(args)@) + all);
                    assert forall|k: int| 0 <= k < all.len() implies well_formed(
                        #[trigger] all[k],
                    ) by {
                        if k > 0 {
                            assert(all[k] == rest[k - 1]);
                        }
                    }
                }
                Ok(end)
            },
        }
    }
}

/// Classifies a whole text: its run of pairs, or the position at which it
/// stops being a formula.
pub fn classify(text: &str) -> (r: Result<Vec<Pair>, usize>)
    ensures
        match r {
            Ok(run) => classified(text@) == Ok::<Seq<PairView>, int>(run_view(run@))
                && well_formed(run_view(run@)),
            Err(at) => classified(text@) == Err::<Seq<PairView>, int>(at as int) && at
                <= text@.len(),
        },
{
    let chars = characters(text);
    match read_expr(&chars, text, 0) {
        Err(at) => Err(at),
        Ok((run, end)) => if end == chars.len() {
            Ok(run)
        } else {
            Err(end)
        },
    }
}

} // verus!
