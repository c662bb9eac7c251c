//! What holds of every parse: laws about the parse functions.
//!
//! Together they say which tree a successful parse returns, without running it: the
//! tree is a sum, its tokens read from left to right are the lookahead and the tokens
//! that the scanner gave next, and the parse went on until a token that is no operator.

use vstd::prelude::*;
use crate::chars::is_decimal_digit;
use crate::error::Error;
use crate::expr::ExprView;
use crate::expr_laws::{lemma_infix_starts_with_number, lemma_sum_is_determined_by_its_tokens};
use crate::parser::{
    lemma_parse_mul_progress, lookahead_ok, parse_add_rest, parse_add_spec, parse_expr_spec,
    parse_factor_spec, parse_mul_rest, parse_mul_spec, parse_spec, pull, ParseView, Parsed,
    Pulled,
};
use crate::scanner_laws::{lemma_digits_alone, lemma_scan_token_form};
use crate::token::{
    decimal_value, is_digit_string, lemma_decimal_value_is_positional, positional_value,
    TokenView,
};
use crate::tokenizer::{digit_values, lemma_scan_token_progress, scan_token};

verus! {

/// Where the cursor stands after the scanner, started at `pos`, has given exactly
/// `tokens`, one after the other; `None` if it gives anything else.
pub open spec fn spelled(input: Seq<char>, pos: nat, tokens: Seq<TokenView>) -> Option<nat>
    decreases tokens.len(),
{
    if tokens.len() == 0 {
        Some(pos)
    } else {
        let scanned = scan_token(input, pos);
        if scanned.token == Ok::<TokenView, Error>(tokens.first()) {
            spelled(input, scanned.cursor, tokens.drop_first())
        } else {
            None
        }
    }
}

/// `tree` is what was read between the two states: its first token was the lookahead
/// before, its other tokens came from the scanner in order, and the token after them is
/// the lookahead now.
pub open spec fn reads_as(before: ParseView, tree: ExprView, after: ParseView) -> bool {
    &&& after.input == before.input
    &&& tree.infix().first() == before.current
    &&& spelled(before.input, before.cursor, tree.infix().drop_first().push(after.current))
        == Some(after.cursor)
}

/// Scanning two runs of tokens in a row is scanning the first and then, from where that
/// ended, the second.
pub proof fn lemma_spelled_concat(
    input: Seq<char>,
    pos: nat,
    first: Seq<TokenView>,
    second: Seq<TokenView>,
)
    ensures
        spelled(input, pos, first + second) == match spelled(input, pos, first) {
            Some(mid) => spelled(input, mid, second),
            None => None,
        },
    decreases first.len(),
{
    if first.len() == 0 {
        assert(first + second =~= second);
    } else {
        assert((first + second).first() == first.first());
        assert((first + second).drop_first() =~= first.drop_first() + second);
        let scanned = scan_token(input, pos);
        if scanned.token == Ok::<TokenView, Error>(first.first()) {
            lemma_spelled_concat(input, scanned.cursor, first.drop_first(), second);
        }
    }
}

proof fn lemma_factor_grammar(s: ParseView)
    ensures
        parse_factor_spec(s).result matches Ok(tree) ==> {
            &&& tree is Number
            &&& reads_as(s, tree, parse_factor_spec(s).state)
        },
{
    let parsed = parse_factor_spec(s);
    if let Ok(tree) = parsed.result {
        let tokens = tree.infix().drop_first().push(parsed.state.current);
        assert(tokens =~= seq![parsed.state.current]);
        assert(tokens.drop_first() =~= Seq::<TokenView>::empty());
        reveal_with_fuel(spelled, 2);
    }
}

/// Joining one more operand on the right of what was read so far.
proof fn lemma_join_reads_as(
    origin: ParseView,
    left: ExprView,
    s: ParseView,
    right: ExprView,
    after: ParseView,
)
    requires
        reads_as(origin, left, s),
        pull(s).token is Ok,
        reads_as(pull(s).state, right, after),
    ensures
        reads_as(
            origin,
            ExprView::Op { left: Box::new(left), right: Box::new(right), op: s.current },
            after,
        ),
{
    let joined = ExprView::Op { left: Box::new(left), right: Box::new(right), op: s.current };
    let next = pull(s).state;
    lemma_infix_starts_with_number(left);
    lemma_infix_starts_with_number(right);
    let head = left.infix().drop_first().push(s.current);
    let tail = right.infix().push(after.current);
    assert(joined.infix().first() == left.infix().first());
    assert(joined.infix().drop_first().push(after.current) =~= head + tail);
    lemma_spelled_concat(origin.input, origin.cursor, head, tail);
    assert(tail.first() == next.current);
    assert(tail.drop_first() =~= right.infix().drop_first().push(after.current));
}

proof fn lemma_mul_rest_grammar(origin: ParseView, s: ParseView, left: ExprView)
    requires
        reads_as(origin, left, s),
        left.is_product(),
    ensures
        parse_mul_rest(s, left).result matches Ok(tree) ==> {
            &&& tree.is_product()
            &&& reads_as(origin, tree, parse_mul_rest(s, left).state)
            &&& !parse_mul_rest(s, left).state.current.is_multiplicative()
        },
    decreases s.input.len() - s.cursor,
{
    if s.current.is_multiplicative() {
        let next = pull(s);
        if next.token is Ok {
            let operand = parse_factor_spec(next.state);
            if let Ok(right) = operand.result {
                lemma_factor_grammar(next.state);
                lemma_join_reads_as(origin, left, s, right, operand.state);
                let joined = ExprView::Op {
                    left: Box::new(left),
                    right: Box::new(right),
                    op: s.current,
                };
                if parse_mul_rest(operand.state, joined).result is Ok {
                    lemma_scan_token_progress(s.input, s.cursor);
                    lemma_scan_token_progress(s.input, next.state.cursor);
                    lemma_mul_rest_grammar(origin, operand.state, joined);
                }
            }
        }
    }
}

proof fn lemma_mul_grammar(s: ParseView)
    ensures
        parse_mul_spec(s).result matches Ok(tree) ==> {
            &&& tree.is_product()
            &&& reads_as(s, tree, parse_mul_spec(s).state)
            &&& !parse_mul_spec(s).state.current.is_multiplicative()
        },
{
    let first = parse_factor_spec(s);
    if let Ok(left) = first.result {
        lemma_factor_grammar(s);
        lemma_mul_rest_grammar(s, first.state, left);
    }
}

proof fn lemma_add_rest_grammar(origin: ParseView, s: ParseView, left: ExprView)
    requires
        reads_as(origin, left, s),
        left.is_sum(),
        !s.current.is_multiplicative(),
    ensures
        parse_add_rest(s, left).result matches Ok(tree) ==> {
            &&& tree.is_sum()
            &&& reads_as(origin, tree, parse_add_rest(s, left).state)
            &&& !parse_add_rest(s, left).state.current.is_operator()
        },
    decreases s.input.len() - s.cursor,
{
    if s.current.is_additive() {
        let next = pull(s);
        if next.token is Ok {
            let operand = parse_mul_spec(next.state);
            if let Ok(right) = operand.result {
                lemma_mul_grammar(next.state);
                lemma_join_reads_as(origin, left, s, right, operand.state);
                let joined = ExprView::Op {
                    left: Box::new(left),
                    right: Box::new(right),
                    op: s.current,
                };
                if parse_add_rest(operand.state, joined).result is Ok {
                    lemma_scan_token_progress(s.input, s.cursor);
                    lemma_parse_mul_progress(next.state);
                    lemma_add_rest_grammar(origin, operand.state, joined);
                }
            }
        }
    }
}

/// The tree of a multiplicative expression is a product: it holds no `+` and no `-`,
/// and its operations are grouped to the left.
pub proof fn lemma_parse_mul_shape(s: ParseView)
    ensures
        parse_mul_spec(s).result matches Ok(tree) ==> tree.is_product(),
{
    lemma_mul_grammar(s);
}

/// The tree of a successful parse is a sum: `*` and `/` bind tighter than `+` and `-`,
/// and operators of one tier are grouped to the left.
pub proof fn lemma_parse_expr_shape(s: ParseView)
    ensures
        parse_expr_spec(s).result matches Ok(tree) ==> tree.is_sum(),
{
    lemma_parse_expr_grammar(s);
}

/// The tree of a successful parse holds the tokens that were read, in the order in
/// which they were read: the lookahead first, then what the scanner gave. The token
/// after them is the new lookahead, and nothing beyond it has been scanned.
pub proof fn lemma_parse_expr_reads_tokens(s: ParseView)
    ensures
        parse_expr_spec(s).result matches Ok(tree) ==> reads_as(
            s,
            tree,
            parse_expr_spec(s).state,
        ),
{
    lemma_parse_expr_grammar(s);
}

/// A successful parse goes on as long as it can: the lookahead after it is no operator.
pub proof fn lemma_parse_expr_is_maximal(s: ParseView)
    ensures
        parse_expr_spec(s).result is Ok ==> !parse_expr_spec(s).state.current.is_operator(),
{
    lemma_parse_expr_grammar(s);
}

/// The tree of a successful parse is the only sum with its tokens: every sum that reads
/// the same from left to right is that tree.
pub proof fn lemma_parse_expr_is_the_only_reading(s: ParseView, other: ExprView)
    requires
        other.is_sum(),
        parse_expr_spec(s).result matches Ok(tree) && tree.infix() == other.infix(),
    ensures
        parse_expr_spec(s).result == Ok::<ExprView, Error>(other),
{
    lemma_parse_expr_grammar(s);
    lemma_sum_is_determined_by_its_tokens(parse_expr_spec(s).result->Ok_0, other);
}

/// Where a run of tokens can be scanned, its front part can be scanned too, and the
/// rest from where the front part ended.
proof fn lemma_spelled_split(
    input: Seq<char>,
    pos: nat,
    first: Seq<TokenView>,
    second: Seq<TokenView>,
) -> (mid: nat)
    requires
        spelled(input, pos, first + second) is Some,
    ensures
        spelled(input, pos, first) == Some(mid),
        spelled(input, mid, second) == spelled(input, pos, first + second),
{
    lemma_spelled_concat(input, pos, first, second);
    spelled(input, pos, first)->Some_0
}

proof fn lemma_factor_complete(s: ParseView, tree: ExprView, after: ParseView)
    requires
        tree is Number,
        reads_as(s, tree, after),
    ensures
        parse_factor_spec(s) == (Parsed { result: Ok(tree), state: after }),
{
    let tokens = tree.infix().drop_first().push(after.current);
    assert(tokens =~= seq![after.current]);
    assert(tokens.drop_first() =~= Seq::<TokenView>::empty());
    reveal_with_fuel(spelled, 2);
}

/// Once a product has been read, the parse of a multiplicative expression stands where
/// the loop would stand with that product as its left operand.
proof fn lemma_mul_reaches(s: ParseView, left: ExprView, mid: ParseView)
    requires
        left.is_product(),
        reads_as(s, left, mid),
    ensures
        parse_mul_spec(s) == parse_mul_rest(mid, left),
    decreases left,
{
    match left {
        ExprView::Number(_) => {
            lemma_factor_complete(s, left, mid);
        },
        ExprView::Op { left: inner, right, op } => {
            lemma_infix_starts_with_number(*inner);
            let operand = right.infix().first();
            assert(right.infix() =~= seq![operand]);
            let front = inner.infix().drop_first().push(op);
            let back = seq![operand, mid.current];
            assert(left.infix().drop_first().push(mid.current) =~= front + back);
            assert(left.infix().first() == inner.infix().first());
            let at_op = lemma_spelled_split(s.input, s.cursor, front, back);
            let before_op = ParseView { input: s.input, cursor: at_op, current: op };
            lemma_mul_reaches(s, *inner, before_op);
            reveal_with_fuel(spelled, 3);
            assert(back.drop_first() =~= seq![mid.current]);
            assert(back.drop_first().drop_first() =~= Seq::<TokenView>::empty());
            let next = pull(before_op);
            assert(next.token == Ok::<TokenView, Error>(operand));
            let tokens = right.infix().drop_first().push(mid.current);
            assert(tokens =~= seq![mid.current]);
            assert(tokens.drop_first() =~= Seq::<TokenView>::empty());
            lemma_factor_complete(next.state, *right, mid);
        },
    }
}

proof fn lemma_mul_complete(s: ParseView, tree: ExprView, after: ParseView)
    requires
        tree.is_product(),
        reads_as(s, tree, after),
        !after.current.is_multiplicative(),
    ensures
        parse_mul_spec(s) == (Parsed { result: Ok(tree), state: after }),
{
    lemma_mul_reaches(s, tree, after);
}

/// Once a sum has been read, the parse of an additive expression stands where the loop
/// would stand with that sum as its left operand.
proof fn lemma_add_reaches(s: ParseView, left: ExprView, mid: ParseView)
    requires
        left.is_sum(),
        reads_as(s, left, mid),
        !mid.current.is_multiplicative(),
    ensures
        parse_add_spec(s) == parse_add_rest(mid, left),
    decreases left,
{
    if left.is_product() {
        lemma_mul_complete(s, left, mid);
    } else {
        match left {
            ExprView::Op { left: inner, right, op } => {
                lemma_infix_starts_with_number(*inner);
                lemma_infix_starts_with_number(*right);
                let front = inner.infix().drop_first().push(op);
                let back = right.infix().push(mid.current);
                assert(left.infix().drop_first().push(mid.current) =~= front + back);
                assert(left.infix().first() == inner.infix().first());
                let at_op = lemma_spelled_split(s.input, s.cursor, front, back);
                let before_op = ParseView { input: s.input, cursor: at_op, current: op };
                lemma_add_reaches(s, *inner, before_op);
                assert(back.first() == right.infix().first());
                assert(back.drop_first() =~= right.infix().drop_first().push(mid.current));
                let next = pull(before_op);
                assert(next.token == Ok::<TokenView, Error>(right.infix().first()));
                lemma_mul_complete(next.state, *right, mid);
            },
            _ => {},
        }
    }
}

/// A parse succeeds wherever it can: if the lookahead and the tokens that the scanner
/// gives next spell a sum, and the token after them is no operator, then the parse
/// returns that sum and stops in front of that token.
pub proof fn lemma_parse_expr_is_complete(s: ParseView, tree: ExprView, after: ParseView)
    requires
        tree.is_sum(),
        reads_as(s, tree, after),
        !after.current.is_operator(),
    ensures
        parse_expr_spec(s) == (Parsed { result: Ok(tree), state: after }),
{
    lemma_add_reaches(s, tree, after);
}

/// When a parse succeeds, and with what: exactly if the lookahead and the tokens that
/// follow spell a sum and then a token that is no operator; the sum is returned.
pub proof fn lemma_parse_expr_succeeds_exactly(s: ParseView, tree: ExprView, after: ParseView)
    ensures
        parse_expr_spec(s) == (Parsed { result: Ok(tree), state: after }) <==> {
            &&& tree.is_sum()
            &&& reads_as(s, tree, after)
            &&& !after.current.is_operator()
        },
{
    if parse_expr_spec(s) == (Parsed { result: Ok(tree), state: after }) {
        lemma_parse_expr_grammar(s);
    }
    if tree.is_sum() && reads_as(s, tree, after) && !after.current.is_operator() {
        lemma_parse_expr_is_complete(s, tree, after);
    }
}

proof fn lemma_parse_expr_grammar(s: ParseView)
    ensures
        parse_expr_spec(s).result matches Ok(tree) ==> {
            &&& tree.is_sum()
            &&& reads_as(s, tree, parse_expr_spec(s).state)
            &&& !parse_expr_spec(s).state.current.is_operator()
        },
{
    let first = parse_mul_spec(s);
    if let Ok(left) = first.result {
        lemma_mul_grammar(s);
        lemma_add_rest_grammar(s, first.state, left);
    }
}

/// A source text of decimal digits only parses as one number leaf that holds the value
/// of every digit in order. What the leaf denotes is the number that the text spells in
/// base ten, however long the text is.
pub proof fn lemma_digits_parse_as_number(source: Seq<char>)
    requires
        source.len() > 0,
        forall|i: int| 0 <= i < source.len() ==> is_decimal_digit(#[trigger] source[i]),
    ensures
        parse_spec(source) == Ok::<ExprView, Error>(ExprView::Number(digit_values(source))),
        is_digit_string(digit_values(source)),
        decimal_value(digit_values(source)) == positional_value(digit_values(source)),
{
    lemma_digits_alone(source);
    lemma_scan_token_progress(source, source.len());
    lemma_decimal_value_is_positional(digit_values(source));
    let start = ParseView { input: source, cursor: 0, current: TokenView::Unknown };
    let first = pull(start);
    let leaf = parse_factor_spec(first.state);
    assert(leaf.result == Ok::<ExprView, Error>(ExprView::Number(digit_values(source))));
    assert(leaf.state.current == TokenView::EOF);
}

/// Once the end of the input is the lookahead, it stays: further requests for a token
/// change nothing.
pub proof fn lemma_end_of_input_is_permanent(s: ParseView)
    requires
        s.current is EOF,
        s.cursor >= s.input.len(),
    ensures
        pull(s) == (Pulled { token: Ok(TokenView::EOF), state: s }),
        pull(pull(s).state) == pull(s),
{
    lemma_scan_token_progress(s.input, s.cursor);
}

/// One request for a token keeps the lookahead of the promised form.
pub proof fn lemma_pull_form(s: ParseView)
    requires
        lookahead_ok(s.current),
    ensures
        lookahead_ok(pull(s).state.current),
{
    lemma_scan_token_form(s.input, s.cursor);
}

/// A primary that was parsed is well formed, and the lookahead stays of the promised
/// form.
pub proof fn lemma_parse_factor_well_formed(s: ParseView)
    requires
        lookahead_ok(s.current),
    ensures
        lookahead_ok(parse_factor_spec(s).state.current),
        parse_factor_spec(s).result matches Ok(tree) ==> tree.well_formed(),
{
    lemma_pull_form(s);
}

proof fn lemma_mul_rest_form(s: ParseView, left: ExprView)
    requires
        lookahead_ok(s.current),
        left.well_formed(),
    ensures
        lookahead_ok(parse_mul_rest(s, left).state.current),
        parse_mul_rest(s, left).result matches Ok(tree) ==> tree.well_formed(),
    decreases s.input.len() - s.cursor,
{
    if s.current.is_multiplicative() {
        let next = pull(s);
        lemma_pull_form(s);
        if next.token is Ok {
            let operand = parse_factor_spec(next.state);
            lemma_parse_factor_well_formed(next.state);
            if let Ok(right) = operand.result {
                lemma_scan_token_progress(s.input, s.cursor);
                lemma_scan_token_progress(s.input, next.state.cursor);
                lemma_mul_rest_form(
                    operand.state,
                    ExprView::Op { left: Box::new(left), right: Box::new(right), op: s.current },
                );
            }
        }
    }
}

/// A multiplicative expression that was parsed is well formed, and the lookahead stays
/// of the promised form.
pub proof fn lemma_parse_mul_well_formed(s: ParseView)
    requires
        lookahead_ok(s.current),
    ensures
        lookahead_ok(parse_mul_spec(s).state.current),
        parse_mul_spec(s).result matches Ok(tree) ==> tree.well_formed(),
{
    lemma_parse_factor_well_formed(s);
    let first = parse_factor_spec(s);
    if let Ok(left) = first.result {
        lemma_mul_rest_form(first.state, left);
    }
}

proof fn lemma_add_rest_form(s: ParseView, left: ExprView)
    requires
        lookahead_ok(s.current),
        left.well_formed(),
    ensures
        lookahead_ok(parse_add_rest(s, left).state.current),
        parse_add_rest(s, left).result matches Ok(tree) ==> tree.well_formed(),
    decreases s.input.len() - s.cursor,
{
    if s.current.is_additive() {
        let next = pull(s);
        lemma_pull_form(s);
        if next.token is Ok {
            let operand = parse_mul_spec(next.state);
            lemma_parse_mul_well_formed(next.state);
            if let Ok(right) = operand.result {
                lemma_scan_token_progress(s.input, s.cursor);
                lemma_parse_mul_progress(next.state);
                lemma_add_rest_form(
                    operand.state,
                    ExprView::Op { left: Box::new(left), right: Box::new(right), op: s.current },
                );
            }
        }
    }
}

/// The tree of a successful parse is well formed: every operation carries one of the
/// four operators and every leaf a digit string. The lookahead stays of the promised
/// form, whether the parse succeeds or not.
pub proof fn lemma_parse_expr_well_formed(s: ParseView)
    requires
        lookahead_ok(s.current),
    ensures
        lookahead_ok(parse_expr_spec(s).state.current),
        parse_expr_spec(s).result matches Ok(tree) ==> tree.well_formed(),
{
    lemma_parse_mul_well_formed(s);
    let first = parse_mul_spec(s);
    if let Ok(left) = first.result {
        lemma_add_rest_form(first.state, left);
    }
}

/// A parse fails in exactly three ways: the two ways of the scanner, and a lookahead
/// that is no number where an operand must stand.
pub proof fn lemma_parse_expr_failures(s: ParseView)
    ensures
        parse_expr_spec(s).result matches Err(e) ==> e == Error::UnknownCharacter || e
            == Error::InvalidDigit || e == Error::UnexpectedToken,
        !(s.current is Number) ==> parse_expr_spec(s) == (Parsed {
            result: Err(Error::UnexpectedToken),
            state: s,
        }),
{
    lemma_add_failures(s);
}

proof fn lemma_mul_rest_failures(s: ParseView, left: ExprView)
    ensures
        parse_mul_rest(s, left).result matches Err(e) ==> e == Error::UnknownCharacter || e
            == Error::InvalidDigit || e == Error::UnexpectedToken,
    decreases s.input.len() - s.cursor,
{
    if s.current.is_multiplicative() {
        let next = pull(s);
        if next.token is Ok {
            let operand = parse_factor_spec(next.state);
            if let Ok(right) = operand.result {
                lemma_scan_token_progress(s.input, s.cursor);
                lemma_scan_token_progress(s.input, next.state.cursor);
                lemma_mul_rest_failures(
                    operand.state,
                    ExprView::Op { left: Box::new(left), right: Box::new(right), op: s.current },
                );
            }
        }
    }
}

proof fn lemma_mul_failures(s: ParseView)
    ensures
        parse_mul_spec(s).result matches Err(e) ==> e == Error::UnknownCharacter || e
            == Error::InvalidDigit || e == Error::UnexpectedToken,
{
    let first = parse_factor_spec(s);
    if let Ok(left) = first.result {
        lemma_mul_rest_failures(first.state, left);
    }
}

proof fn lemma_add_rest_failures(s: ParseView, left: ExprView)
    ensures
        parse_add_rest(s, left).result matches Err(e) ==> e == Error::UnknownCharacter || e
            == Error::InvalidDigit || e == Error::UnexpectedToken,
    decreases s.input.len() - s.cursor,
{
    if s.current.is_additive() {
        let next = pull(s);
        if next.token is Ok {
            let operand = parse_mul_spec(next.state);
            lemma_mul_failures(next.state);
            if let Ok(right) = operand.result {
                lemma_scan_token_progress(s.input, s.cursor);
                lemma_parse_mul_progress(next.state);
                lemma_add_rest_failures(
                    operand.state,
                    ExprView::Op { left: Box::new(left), right: Box::new(right), op: s.current },
                );
            }
        }
    }
}

proof fn lemma_add_failures(s: ParseView)
    ensures
        parse_add_spec(s).result matches Err(e) ==> e == Error::UnknownCharacter || e
            == Error::InvalidDigit || e == Error::UnexpectedToken,
{
    lemma_mul_failures(s);
    let first = parse_mul_spec(s);
    if let Ok(left) = first.result {
        lemma_add_rest_failures(first.state, left);
    }
}

} // verus!
