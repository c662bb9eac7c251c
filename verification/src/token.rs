//! Tokens, and what a number literal denotes.

use vstd::prelude::*;

verus! {

/// One lexical unit of the input.
///
/// A number carries its decimal digits, most significant first, each as a value from 0 to 9.
/// The digits are kept rather than a machine number so that a literal of any length is
/// represented exactly; [`decimal_value`] is the number they denote.
#[derive(Debug, PartialEq)]
pub enum Token {
    /// Placeholder held by a parse state before its first token is read. The scanner
    /// never produces it.
    Unknown,
    Plus,
    Minus,
    Multiply,
    Divide,
    Identifier(String),
    Number(Vec<u8>),
    /// End of input.
    EOF,
}

/// The mathematical content of a [`Token`].
pub enum TokenView {
    Unknown,
    Plus,
    Minus,
    Multiply,
    Divide,
    Identifier(Seq<char>),
    Number(Seq<u8>),
    EOF,
}

impl View for Token {
    type V = TokenView;

    open spec fn view(&self) -> TokenView {
        match self {
            Token::Unknown => TokenView::Unknown,
            Token::Plus => TokenView::Plus,
            Token::Minus => TokenView::Minus,
            Token::Multiply => TokenView::Multiply,
            Token::Divide => TokenView::Divide,
            Token::Identifier(text) => TokenView::Identifier(text@),
            Token::Number(digits) => TokenView::Number(digits@),
            Token::EOF => TokenView::EOF,
        }
    }
}

impl TokenView {
    /// `+` or `-`: the operators of the lower precedence tier.
    pub open spec fn is_additive(self) -> bool {
        self is Plus || self is Minus
    }

    /// `*` or `/`: the operators of the higher precedence tier.
    pub open spec fn is_multiplicative(self) -> bool {
        self is Multiply || self is Divide
    }

    /// One of the four binary operators.
    pub open spec fn is_operator(self) -> bool {
        self.is_additive() || self.is_multiplicative()
    }
}

/// Every element is a decimal digit value, and there is at least one.
pub open spec fn is_digit_string(digits: Seq<u8>) -> bool {
    &&& digits.len() > 0
    &&& forall|i: int| 0 <= i < digits.len() ==> digits[i] < 10
}

/// The natural number that a digit string denotes in base ten: each further digit
/// multiplies what came before by ten and adds itself.
pub open spec fn decimal_value(digits: Seq<u8>) -> nat
    decreases digits.len(),
{
    if digits.len() == 0 {
        0
    } else {
        decimal_value(digits.drop_last()) * 10 + digits.last() as nat
    }
}

/// Ten to the power of `n`.
pub open spec fn power_of_ten(n: nat) -> nat
    decreases n,
{
    if n == 0 {
        1
    } else {
        10 * power_of_ten((n - 1) as nat)
    }
}

/// The sum of the digits, each weighted by the power of ten of its place: the last
/// digit counts ones, the one before it tens, and so on.
pub open spec fn positional_value(digits: Seq<u8>) -> nat
    decreases digits.len(),
{
    if digits.len() == 0 {
        0
    } else {
        digits.first() as nat * power_of_ten((digits.len() - 1) as nat) + positional_value(
            digits.drop_first(),
        )
    }
}

/// One more digit at the end multiplies the positional value by ten and adds the digit.
pub proof fn lemma_positional_value_push(digits: Seq<u8>, last: u8)
    ensures
        positional_value(digits.push(last)) == positional_value(digits) * 10 + last as nat,
    decreases digits.len(),
{
    let longer = digits.push(last);
    if digits.len() == 0 {
        assert(longer.drop_first() =~= Seq::<u8>::empty());
        assert(positional_value(longer.drop_first()) == 0);
        assert(power_of_ten(0) == 1);
        assert(longer.first() == last);
        assert(positional_value(longer) == last as nat * power_of_ten(0));
        assert(positional_value(digits) == 0);
    } else {
        let rest = digits.drop_first();
        assert(longer.first() == digits.first());
        assert(longer.drop_first() =~= rest.push(last));
        lemma_positional_value_push(rest, last);
        let head = digits.first() as nat;
        let weight = power_of_ten((digits.len() - 1) as nat);
        let tail = positional_value(rest);
        assert(power_of_ten(digits.len()) == 10 * weight);
        assert(positional_value(digits) == head * weight + tail);
        assert(positional_value(longer) == head * (10 * weight) + (tail * 10 + last as nat));
        assert(head * (10 * weight) + tail * 10 == (head * weight + tail) * 10)
            by (nonlinear_arith);
    }
}

/// What [`decimal_value`] builds digit by digit is the positional value of the digit
/// string.
pub proof fn lemma_decimal_value_is_positional(digits: Seq<u8>)
    ensures
        decimal_value(digits) == positional_value(digits),
    decreases digits.len(),
{
    if digits.len() > 0 {
        lemma_decimal_value_is_positional(digits.drop_last());
        lemma_positional_value_push(digits.drop_last(), digits.last());
        assert(digits.drop_last().push(digits.last()) =~= digits);
    }
}

impl Clone for Token {
    fn clone(&self) -> (r: Self)
        ensures
            r@ == self@,
    {
        match self {
            Token::Unknown => Token::Unknown,
            Token::Plus => Token::Plus,
            Token::Minus => Token::Minus,
            Token::Multiply => Token::Multiply,
            Token::Divide => Token::Divide,
            Token::Identifier(text) => Token::Identifier(text.clone()),
            Token::Number(digits) => Token::Number(digits.clone()),
            Token::EOF => Token::EOF,
        }
    }
}

impl Token {
    /// Whether this is `+` or `-`.
    pub fn is_additive(&self) -> (r: bool)
        ensures
            r == self@.is_additive(),
    {
        matches!(self, Token::Plus | Token::Minus)
    }

    /// Whether this is `*` or `/`.
    pub fn is_multiplicative(&self) -> (r: bool)
        ensures
            r == self@.is_multiplicative(),
    {
        matches!(self, Token::Multiply | Token::Divide)
    }

    /// Whether this is one of the four binary operators.
    pub fn is_operator(&self) -> (r: bool)
        ensures
            r == self@.is_operator(),
    {
        self.is_additive() || self.is_multiplicative()
    }
}

} // verus!
