//! The parser: recursive descent over two precedence tiers, with one token of lookahead.
//!
//! ```text
//! expression := additive
//! additive   := multiplicative (("+" | "-") multiplicative)*
//! multiplicative := primary (("*" | "/") primary)*
//! primary    := NUMBER
//! ```
//!
//! Operators of one tier associate to the left. Tokens are pulled from the scanner one
//! at a time, so a parse looks at no more of the input than it needs: it stops in front
//! of the first token that cannot continue the expression and leaves it as lookahead.

use vstd::prelude::*;
use crate::error::Error;
use crate::expr::{Expr, ExprNumber, ExprOp, ExprView};
use crate::parser_laws::{
    lemma_parse_expr_shape, lemma_parse_expr_well_formed, lemma_parse_factor_well_formed,
    lemma_parse_mul_shape, lemma_parse_mul_well_formed,
};
use crate::scanner_laws::{lemma_scan_token_form, scanner_made};
use crate::token::{Token, TokenView};
use crate::tokenizer::{
    get_token, lemma_scan_token_progress, scan_token, token_result_view, Tokenizer,
};

verus! {

/// A scanner together with the lookahead token: the token that was read last and has not
/// been used yet.
pub struct ParseState {
    tokenizer: Box<Tokenizer>,
    current_token: Lookahead,
}

/// A lookahead token: the placeholder, or a token that the scanner made.
struct Lookahead {
    token: Token,
}

/// The mathematical content of a [`ParseState`].
pub struct ParseView {
    pub input: Seq<char>,
    pub cursor: nat,
    pub current: TokenView,
}

impl Lookahead {
    #[verifier::type_invariant]
    spec fn placeholder_or_scanned(self) -> bool {
        lookahead_ok(self.token@)
    }
}

/// What can be a lookahead: the placeholder, or a token of the form that the scanner
/// promises.
pub open spec fn lookahead_ok(token: TokenView) -> bool {
    token is Unknown || scanner_made(token)
}

impl View for ParseState {
    type V = ParseView;

    closed spec fn view(&self) -> ParseView {
        ParseView {
            input: self.tokenizer.input(),
            cursor: self.tokenizer.cursor(),
            current: self.current_token.token@,
        }
    }
}

/// The answer to one request for a token, and the parse state after it.
pub struct Pulled {
    pub token: Result<TokenView, Error>,
    pub state: ParseView,
}

/// What one request for a token does to a parse state: the scanner moves on, and the
/// token, if there is one, becomes the lookahead. After a failure the lookahead is the
/// old one.
pub open spec fn pull(s: ParseView) -> Pulled {
    let scanned = scan_token(s.input, s.cursor);
    Pulled {
        token: scanned.token,
        state: ParseView {
            input: s.input,
            cursor: scanned.cursor,
            current: match scanned.token {
                Ok(token) => token,
                Err(_) => s.current,
            },
        },
    }
}

/// A tree, or the reason why there is none, and the parse state afterwards.
pub struct Parsed {
    pub result: Result<ExprView, Error>,
    pub state: ParseView,
}

/// A primary expression: the lookahead must be a number. It becomes a leaf, and the
/// next token is pulled. Any other lookahead is refused and nothing is consumed.
pub open spec fn parse_factor_spec(s: ParseView) -> Parsed {
    match s.current {
        TokenView::Number(digits) => {
            let next = pull(s);
            Parsed {
                result: match next.token {
                    Ok(_) => Ok(ExprView::Number(digits)),
                    Err(e) => Err(e),
                },
                state: next.state,
            }
        },
        _ => Parsed { result: Err(Error::UnexpectedToken), state: s },
    }
}

/// The rest of a multiplicative expression whose operands so far make up `left`: as long
/// as the lookahead is `*` or `/`, one more primary is parsed and joined on the right.
pub open spec fn parse_mul_rest(s: ParseView, left: ExprView) -> Parsed
    decreases s.input.len() - s.cursor,
{
    if s.current.is_multiplicative() {
        let next = pull(s);
        match next.token {
            Err(e) => Parsed { result: Err(e), state: next.state },
            Ok(_) => {
                let operand = parse_factor_spec(next.state);
                match operand.result {
                    Err(e) => operand,
                    Ok(right) => {
                        proof {
                            lemma_scan_token_progress(s.input, s.cursor);
                            lemma_scan_token_progress(s.input, next.state.cursor);
                        }
                        parse_mul_rest(
                            operand.state,
                            ExprView::Op {
                                left: Box::new(left),
                                right: Box::new(right),
                                op: s.current,
                            },
                        )
                    },
                }
            },
        }
    } else {
        Parsed { result: Ok(left), state: s }
    }
}

/// A multiplicative expression: primaries joined by `*` and `/`, grouped to the left.
pub open spec fn parse_mul_spec(s: ParseView) -> Parsed {
    let first = parse_factor_spec(s);
    match first.result {
        Err(e) => first,
        Ok(left) => parse_mul_rest(first.state, left),
    }
}

/// A parse state is never carried backwards, nor from inside the input to beyond its
/// end, and its input stays the same.
pub open spec fn moved_forward(before: ParseView, after: ParseView) -> bool {
    &&& after.input == before.input
    &&& before.cursor <= after.cursor
    &&& before.cursor <= before.input.len() ==> after.cursor <= before.input.len()
}

/// Parsing a primary moves the state forward.
pub proof fn lemma_parse_factor_progress(s: ParseView)
    ensures
        moved_forward(s, parse_factor_spec(s).state),
{
    lemma_scan_token_progress(s.input, s.cursor);
}

/// Parsing the rest of a multiplicative expression moves the state forward.
pub proof fn lemma_parse_mul_rest_progress(s: ParseView, left: ExprView)
    ensures
        moved_forward(s, parse_mul_rest(s, left).state),
    decreases s.input.len() - s.cursor,
{
    if s.current.is_multiplicative() {
        let next = pull(s);
        lemma_scan_token_progress(s.input, s.cursor);
        if next.token is Ok {
            let operand = parse_factor_spec(next.state);
            lemma_parse_factor_progress(next.state);
            if let Ok(right) = operand.result {
                lemma_parse_mul_rest_progress(
                    operand.state,
                    ExprView::Op { left: Box::new(left), right: Box::new(right), op: s.current },
                );
            }
        }
    }
}

/// Parsing a multiplicative expression moves the state forward.
pub proof fn lemma_parse_mul_progress(s: ParseView)
    ensures
        moved_forward(s, parse_mul_spec(s).state),
{
    lemma_parse_factor_progress(s);
    let first = parse_factor_spec(s);
    if let Ok(left) = first.result {
        lemma_parse_mul_rest_progress(first.state, left);
    }
}

/// Parsing the rest of an additive expression moves the state forward.
pub proof fn lemma_parse_add_rest_progress(s: ParseView, left: ExprView)
    ensures
        moved_forward(s, parse_add_rest(s, left).state),
    decreases s.input.len() - s.cursor,
{
    if s.current.is_additive() {
        let next = pull(s);
        lemma_scan_token_progress(s.input, s.cursor);
        if next.token is Ok {
            let operand = parse_mul_spec(next.state);
            lemma_parse_mul_progress(next.state);
            if let Ok(right) = operand.result {
                lemma_parse_add_rest_progress(
                    operand.state,
                    ExprView::Op { left: Box::new(left), right: Box::new(right), op: s.current },
                );
            }
        }
    }
}

/// Parsing an additive expression, and so an expression, moves the state forward.
pub proof fn lemma_parse_add_progress(s: ParseView)
    ensures
        moved_forward(s, parse_add_spec(s).state),
{
    lemma_parse_mul_progress(s);
    let first = parse_mul_spec(s);
    if let Ok(left) = first.result {
        lemma_parse_add_rest_progress(first.state, left);
    }
}

/// The rest of an additive expression whose operands so far make up `left`: as long as
/// the lookahead is `+` or `-`, one more multiplicative expression is parsed and joined
/// on the right.
pub open spec fn parse_add_rest(s: ParseView, left: ExprView) -> Parsed
    decreases s.input.len() - s.cursor,
{
    if s.current.is_additive() {
        let next = pull(s);
        match next.token {
            Err(e) => Parsed { result: Err(e), state: next.state },
            Ok(_) => {
                let operand = parse_mul_spec(next.state);
                match operand.result {
                    Err(e) => operand,
                    Ok(right) => {
                        proof {
                            lemma_scan_token_progress(s.input, s.cursor);
                            lemma_parse_mul_progress(next.state);
                        }
                        parse_add_rest(
                            operand.state,
                            ExprView::Op {
                                left: Box::new(left),
                                right: Box::new(right),
                                op: s.current,
                            },
                        )
                    },
                }
            },
        }
    } else {
        Parsed { result: Ok(left), state: s }
    }
}

/// An additive expression: multiplicative expressions joined by `+` and `-`, grouped to
/// the left.
pub open spec fn parse_add_spec(s: ParseView) -> Parsed {
    let first = parse_mul_spec(s);
    match first.result {
        Err(e) => first,
        Ok(left) => parse_add_rest(first.state, left),
    }
}

/// An expression is an additive expression.
pub open spec fn parse_expr_spec(s: ParseView) -> Parsed {
    parse_add_spec(s)
}

/// The mathematical content of a parser's answer.
pub open spec fn expr_result_view(r: Result<Box<Expr>, Error>) -> Result<ExprView, Error> {
    match r {
        Ok(expr) => Ok(expr@),
        Err(e) => Err(e),
    }
}

impl ParseState {
    /// A parse state on `tokenizer`, with no token read yet: the lookahead is
    /// [`Token::Unknown`] until the first call of [`ParseState::get_token`].
    pub fn new(tokenizer: Box<Tokenizer>) -> (state: ParseState)
        ensures
            state@ == (ParseView {
                input: tokenizer.input(),
                cursor: tokenizer.cursor(),
                current: TokenView::Unknown,
            }),
    {
        ParseState { tokenizer, current_token: Lookahead { token: Token::Unknown } }
    }

    /// Pulls the next token from the scanner, makes it the lookahead and returns it.
    ///
    /// Where the scanner fails, the failure is returned and the lookahead stays.
    pub fn get_token(&mut self) -> (r: Result<Token, Error>)
        ensures
            final(self)@ == pull(old(self)@).state,
            token_result_view(r) == pull(old(self)@).token,
            moved_forward(old(self)@, final(self)@),
            lookahead_ok(final(self)@.current),
    {
        proof {
            use_type_invariant(&self.current_token);
            lemma_scan_token_progress(self.tokenizer.input(), self.tokenizer.cursor());
            lemma_scan_token_form(self.tokenizer.input(), self.tokenizer.cursor());
        }
        match get_token(&mut *self.tokenizer) {
            Ok(token) => {
                self.current_token = Lookahead { token: token.clone() };
                Ok(token)
            },
            Err(e) => Err(e),
        }
    }
}

/// Parses a primary expression: a number.
///
/// The lookahead must be a number; it becomes a leaf and the next token is pulled. With
/// any other lookahead, the end of the input included, the answer is
/// [`Error::UnexpectedToken`] and the state is left as it was.
pub fn parse_factor(state: &mut ParseState) -> (r: Result<Box<Expr>, Error>)
    ensures
        final(state)@ == parse_factor_spec(old(state)@).state,
        expr_result_view(r) == parse_factor_spec(old(state)@).result,
        r matches Ok(expr) ==> expr@.well_formed(),
        moved_forward(old(state)@, final(state)@),
        lookahead_ok(final(state)@.current),
{
    proof {
        lemma_parse_factor_progress(state@);
        use_type_invariant(&state.current_token);
        lemma_parse_factor_well_formed(state@);
    }
    let number = match &state.current_token.token {
        Token::Number(digits) => digits.clone(),
        _ => {
            return Err(Error::UnexpectedToken);
        },
    };
    match state.get_token() {
        Ok(_) => Ok(Box::new(Expr::Number(ExprNumber { number }))),
        Err(e) => Err(e),
    }
}

/// Parses a multiplicative expression: primaries joined by `*` and `/`, grouped to the
/// left.
pub fn parse_mul(state: &mut ParseState) -> (r: Result<Box<Expr>, Error>)
    ensures
        final(state)@ == parse_mul_spec(old(state)@).state,
        expr_result_view(r) == parse_mul_spec(old(state)@).result,
        r matches Ok(expr) ==> expr@.well_formed() && expr@.is_product(),
        moved_forward(old(state)@, final(state)@),
        lookahead_ok(final(state)@.current),
{
    proof {
        lemma_parse_mul_shape(state@);
        lemma_parse_mul_progress(state@);
        use_type_invariant(&state.current_token);
        lemma_parse_mul_well_formed(state@);
    }
    let mut left = match parse_factor(state) {
        Ok(expr) => expr,
        Err(e) => {
            return Err(e);
        },
    };
    while state.current_token.token.is_multiplicative()
        invariant
            parse_mul_spec(old(state)@) == parse_mul_rest(state@, left@),
            moved_forward(old(state)@, parse_mul_spec(old(state)@).state),
            lookahead_ok(parse_mul_spec(old(state)@).state.current),
        decreases state@.input.len() - state@.cursor,
    {
        proof {
            lemma_scan_token_progress(state@.input, state@.cursor);
            lemma_parse_factor_progress(pull(state@).state);
        }
        let op = state.current_token.token.clone();
        match state.get_token() {
            Ok(_) => {},
            Err(e) => {
                return Err(e);
            },
        }
        let right = match parse_factor(state) {
            Ok(expr) => expr,
            Err(e) => {
                return Err(e);
            },
        };
        left = ExprOp::new_boxed(left, right, op);
    }
    Ok(left)
}

/// Parses an additive expression: multiplicative expressions joined by `+` and `-`,
/// grouped to the left.
pub fn parse_add(state: &mut ParseState) -> (r: Result<Box<Expr>, Error>)
    ensures
        final(state)@ == parse_add_spec(old(state)@).state,
        expr_result_view(r) == parse_add_spec(old(state)@).result,
        r matches Ok(expr) ==> expr@.well_formed() && expr@.is_sum(),
        moved_forward(old(state)@, final(state)@),
        lookahead_ok(final(state)@.current),
{
    proof {
        lemma_parse_expr_shape(state@);
        lemma_parse_add_progress(state@);
        use_type_invariant(&state.current_token);
        lemma_parse_expr_well_formed(state@);
    }
    let mut left = match parse_mul(state) {
        Ok(expr) => expr,
        Err(e) => {
            return Err(e);
        },
    };
    while state.current_token.token.is_additive()
        invariant
            parse_add_spec(old(state)@) == parse_add_rest(state@, left@),
            moved_forward(old(state)@, parse_add_spec(old(state)@).state),
            lookahead_ok(parse_add_spec(old(state)@).state.current),
        decreases state@.input.len() - state@.cursor,
    {
        proof {
            lemma_scan_token_progress(state@.input, state@.cursor);
            lemma_parse_mul_progress(pull(state@).state);
        }
        let op = state.current_token.token.clone();
        match state.get_token() {
            Ok(_) => {},
            Err(e) => {
                return Err(e);
            },
        }
        let right = match parse_mul(state) {
            Ok(expr) => expr,
            Err(e) => {
                return Err(e);
            },
        };
        left = ExprOp::new_boxed(left, right, op);
    }
    Ok(left)
}

/// Parses an expression from the lookahead on.
///
/// The parse ends in front of the first token that cannot continue the expression; that
/// token is the lookahead afterwards, and whatever follows it has not been read. The
/// tree is a sum: `*` and `/` bind tighter than `+` and `-`, and operators of one tier
/// are grouped to the left.
pub fn parse_expr(state: &mut ParseState) -> (r: Result<Box<Expr>, Error>)
    ensures
        final(state)@ == parse_expr_spec(old(state)@).state,
        expr_result_view(r) == parse_expr_spec(old(state)@).result,
        r matches Ok(expr) ==> expr@.well_formed() && expr@.is_sum(),
        moved_forward(old(state)@, final(state)@),
        lookahead_ok(final(state)@.current),
{
    parse_add(state)
}

/// What [`parse`] gives for a source text: the first token is pulled, then an
/// expression is parsed.
pub open spec fn parse_spec(source: Seq<char>) -> Result<ExprView, Error> {
    let first = pull(ParseView { input: source, cursor: 0, current: TokenView::Unknown });
    match first.token {
        Err(e) => Err(e),
        Ok(_) => parse_expr_spec(first.state).result,
    }
}

/// Parses the expression at the start of `source`.
pub fn parse(source: String) -> (r: Result<Box<Expr>, Error>)
    ensures
        expr_result_view(r) == parse_spec(source@),
        r matches Ok(expr) ==> expr@.well_formed() && expr@.is_sum(),
{
    let mut state = ParseState::new(Box::new(Tokenizer::new(source)));
    match state.get_token() {
        Ok(_) => parse_expr(&mut state),
        Err(e) => Err(e),
    }
}

} // verus!
