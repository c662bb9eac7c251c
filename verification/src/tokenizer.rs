//! The scanner: a cursor over the input text that hands out one token per request.

use vstd::prelude::*;
use vstd::string::StrSliceExecFns;
use crate::chars::{
    alphabetic, alphanumeric, decimal_digit, digit_of, is_decimal_digit, numeric, white_space,
};
use crate::error::Error;
use crate::scanner_laws::{lemma_scan_token_form, scanner_made};
use crate::token::{Token, TokenView};

verus! {

/// The character at `pos`, and the null character where `pos` lies outside the input.
pub open spec fn char_at(input: Seq<char>, pos: nat) -> char {
    if pos < input.len() {
        input[pos as int]
    } else {
        '\0'
    }
}

/// The input text and the position of the next unread character.
///
/// The cursor only ever grows. Scanning never moves it beyond the end of the input;
/// [`Tokenizer::next_char`] and [`Tokenizer::skip`] move it by one wherever it stands.
pub struct Tokenizer {
    at: String,
    len: usize,
    index: usize,
}

impl Tokenizer {
    #[verifier::type_invariant]
    spec fn length_is_cached(self) -> bool {
        self.len == self.at@.len()
    }

    /// The whole input, as a sequence of characters.
    pub closed spec fn input(&self) -> Seq<char> {
        self.at@
    }

    /// The position of the next unread character.
    pub closed spec fn cursor(&self) -> nat {
        self.index as nat
    }

    /// The cursor has not passed the end of the input.
    pub open spec fn in_bounds(&self) -> bool {
        self.cursor() <= self.input().len()
    }

    /// A scanner at the start of `at`.
    pub fn new(at: String) -> (t: Self)
        ensures
            t.input() == at@,
            t.cursor() == 0,
            t.in_bounds(),
    {
        let len = at.as_str().unicode_len();
        Tokenizer { at, len, index: 0 }
    }

    /// The position of the next unread character, counted in characters from the start.
    pub fn position(&self) -> (pos: usize)
        ensures
            pos == self.cursor(),
    {
        self.index
    }

    /// Returns the character under the cursor, or the null character at or past the end
    /// of the input, and moves the cursor forward by one in either case.
    pub fn next_char(&mut self) -> (c: char)
        requires
            old(self).cursor() < usize::MAX,
        ensures
            c == char_at(old(self).input(), old(self).cursor()),
            final(self).cursor() == old(self).cursor() + 1,
            final(self).input() == old(self).input(),
    {
        proof {
            use_type_invariant(&*self);
        }
        let c = self.peek_char();
        self.index = self.index + 1;
        c
    }

    /// Returns the character under the cursor, or the null character at or past the end
    /// of the input. The scanner is left as it was, so a second call gives the same answer.
    pub fn peek_char(&self) -> (c: char)
        ensures
            c == char_at(self.input(), self.cursor()),
    {
        proof {
            use_type_invariant(self);
        }
        if self.index < self.len {
            self.at.as_str().get_char(self.index)
        } else {
            '\0'
        }
    }

    /// Moves the cursor forward by one without reading.
    pub fn skip(&mut self)
        requires
            old(self).cursor() < usize::MAX,
        ensures
            final(self).cursor() == old(self).cursor() + 1,
            final(self).input() == old(self).input(),
    {
        proof {
            use_type_invariant(&*self);
        }
        self.index = self.index + 1;
    }
}

/// The first position at or after `pos` that holds no white space: the end of the input
/// if only white space follows, and `pos` itself if it lies past the end.
pub open spec fn whitespace_end(input: Seq<char>, pos: nat) -> nat
    decreases input.len() - pos,
{
    if pos < input.len() && white_space(input[pos as int]) {
        whitespace_end(input, pos + 1)
    } else {
        pos
    }
}

/// Moves the cursor past the white space that starts under it, if any.
pub fn remove_whitespace(tokenizer: &mut Tokenizer)
    ensures
        final(tokenizer).cursor() == whitespace_end(
            old(tokenizer).input(),
            old(tokenizer).cursor(),
        ),
        final(tokenizer).input() == old(tokenizer).input(),
        final(tokenizer).cursor() >= old(tokenizer).cursor(),
        old(tokenizer).in_bounds() ==> final(tokenizer).in_bounds(),
{
    proof {
        lemma_whitespace_end(tokenizer.input(), tokenizer.cursor());
    }
    while tokenizer.peek_char().is_whitespace()
        invariant
            tokenizer.input() == old(tokenizer).input(),
            whitespace_end(tokenizer.input(), tokenizer.cursor()) == whitespace_end(
                old(tokenizer).input(),
                old(tokenizer).cursor(),
            ),
        decreases tokenizer.input().len() - tokenizer.cursor(),
    {
        proof {
            use_type_invariant(&*tokenizer);
        }
        tokenizer.skip();
    }
}

/// The end of the longest run of letters and numeric characters that starts at `pos`.
pub open spec fn alphanumeric_end(input: Seq<char>, pos: nat) -> nat
    decreases input.len() - pos,
{
    if pos < input.len() && alphanumeric(input[pos as int]) {
        alphanumeric_end(input, pos + 1)
    } else {
        pos
    }
}

/// The end of the longest run of ASCII decimal digits that starts at `pos`.
pub open spec fn digit_end(input: Seq<char>, pos: nat) -> nat
    decreases input.len() - pos,
{
    if pos < input.len() && is_decimal_digit(input[pos as int]) {
        digit_end(input, pos + 1)
    } else {
        pos
    }
}

/// The digit values of a run of ASCII decimal digits, in the same order.
pub open spec fn digit_values(text: Seq<char>) -> Seq<u8> {
    Seq::new(text.len(), |i: int| digit_of(text[i]))
}

/// A token, or the reason why there is none, and where the cursor stands afterwards.
pub struct Scanned {
    pub token: Result<TokenView, Error>,
    pub cursor: nat,
}

/// What scanning a number literal gives, where `start` holds a numeric character.
///
/// The literal is the longest run of decimal digits from `start`. It must not run into a
/// further letter or numeric character: that character is consumed and the literal is
/// refused. A numeric character that is no ASCII decimal digit is refused in the same way.
pub open spec fn scan_number(input: Seq<char>, start: nat) -> Scanned {
    let end = digit_end(input, start);
    if end < input.len() && alphanumeric(input[end as int]) {
        Scanned { token: Err(Error::InvalidDigit), cursor: end + 1 }
    } else {
        Scanned {
            token: Ok(TokenView::Number(digit_values(input.subrange(start as int, end as int)))),
            cursor: end,
        }
    }
}

/// What one request for a token gives when the cursor stands at `pos`.
///
/// White space is passed over first. At the end of the input the token is `EOF` and the
/// cursor stays; everywhere else at least one character is consumed. A null character in
/// the input reads as `EOF` too. An identifier is a letter and the longest run of letters
/// and numeric characters after it.
pub open spec fn scan_token(input: Seq<char>, pos: nat) -> Scanned {
    let start = whitespace_end(input, pos);
    if start >= input.len() {
        Scanned { token: Ok(TokenView::EOF), cursor: start }
    } else {
        let c = input[start as int];
        if c == '\0' {
            Scanned { token: Ok(TokenView::EOF), cursor: start + 1 }
        } else if c == '+' {
            Scanned { token: Ok(TokenView::Plus), cursor: start + 1 }
        } else if c == '-' {
            Scanned { token: Ok(TokenView::Minus), cursor: start + 1 }
        } else if c == '*' {
            Scanned { token: Ok(TokenView::Multiply), cursor: start + 1 }
        } else if c == '/' {
            Scanned { token: Ok(TokenView::Divide), cursor: start + 1 }
        } else if alphabetic(c) {
            let end = alphanumeric_end(input, start + 1);
            Scanned {
                token: Ok(TokenView::Identifier(input.subrange(start as int, end as int))),
                cursor: end,
            }
        } else if numeric(c) {
            scan_number(input, start)
        } else {
            Scanned { token: Err(Error::UnknownCharacter), cursor: start + 1 }
        }
    }
}

/// The mathematical content of a scanner's answer.
pub open spec fn token_result_view(r: Result<Token, Error>) -> Result<TokenView, Error> {
    match r {
        Ok(token) => Ok(token@),
        Err(e) => Err(e),
    }
}

/// Reads the letters and numeric characters that follow the first letter of an identifier.
fn scan_identifier(tokenizer: &mut Tokenizer, start: usize) -> (text: String)
    requires
        start < old(tokenizer).input().len(),
        old(tokenizer).cursor() == start + 1,
    ensures
        final(tokenizer).input() == old(tokenizer).input(),
        final(tokenizer).cursor() == alphanumeric_end(old(tokenizer).input(), (start + 1) as nat),
        text@ == old(tokenizer).input().subrange(start as int, final(tokenizer).cursor() as int),
{
    while tokenizer.peek_char().is_alphanumeric()
        invariant
            tokenizer.input() == old(tokenizer).input(),
            start < tokenizer.cursor() <= tokenizer.input().len(),
            alphanumeric_end(tokenizer.input(), tokenizer.cursor()) == alphanumeric_end(
                old(tokenizer).input(),
                (start + 1) as nat,
            ),
        decreases tokenizer.input().len() - tokenizer.cursor(),
    {
        proof {
            use_type_invariant(&*tokenizer);
        }
        tokenizer.skip();
    }
    proof {
        use_type_invariant(&*tokenizer);
    }
    tokenizer.at.as_str().substring_char(start, tokenizer.index).to_owned()
}

/// Reads a number literal whose first character, already consumed, is `first`.
fn scan_digits(tokenizer: &mut Tokenizer, start: usize, first: char) -> (r: Result<Token, Error>)
    requires
        start < old(tokenizer).input().len(),
        old(tokenizer).cursor() == start + 1,
        first == old(tokenizer).input()[start as int],
        numeric(first),
    ensures
        final(tokenizer).input() == old(tokenizer).input(),
        final(tokenizer).cursor() == scan_number(old(tokenizer).input(), start as nat).cursor,
        token_result_view(r) == scan_number(old(tokenizer).input(), start as nat).token,
{
    let mut digits: Vec<u8> = Vec::new();
    match decimal_digit(first) {
        Some(d) => digits.push(d),
        None => {
            return Err(Error::InvalidDigit);
        },
    }
    while tokenizer.peek_char().is_alphanumeric()
        invariant
            tokenizer.input() == old(tokenizer).input(),
            start < tokenizer.cursor() <= tokenizer.input().len(),
            digit_end(tokenizer.input(), tokenizer.cursor()) == digit_end(
                tokenizer.input(),
                start as nat,
            ),
            digits@ == digit_values(
                tokenizer.input().subrange(start as int, tokenizer.cursor() as int),
            ),
        decreases tokenizer.input().len() - tokenizer.cursor(),
    {
        proof {
            use_type_invariant(&*tokenizer);
        }
        let c = tokenizer.next_char();
        match decimal_digit(c) {
            Some(d) => digits.push(d),
            None => {
                return Err(Error::InvalidDigit);
            },
        }
    }
    Ok(Token::Number(digits))
}

/// Scans the next token.
///
/// The answer and the new cursor are those of [`scan_token`]; the input is never changed.
pub fn get_token(tokenizer: &mut Tokenizer) -> (r: Result<Token, Error>)
    ensures
        final(tokenizer).input() == old(tokenizer).input(),
        final(tokenizer).cursor() == scan_token(
            old(tokenizer).input(),
            old(tokenizer).cursor(),
        ).cursor,
        token_result_view(r) == scan_token(old(tokenizer).input(), old(tokenizer).cursor()).token,
        final(tokenizer).cursor() >= old(tokenizer).cursor(),
        old(tokenizer).cursor() < old(tokenizer).input().len() ==> final(tokenizer).cursor()
            > old(tokenizer).cursor(),
        old(tokenizer).in_bounds() ==> final(tokenizer).in_bounds(),
        r matches Ok(token) ==> scanner_made(token@),
{
    proof {
        lemma_scan_token_progress(tokenizer.input(), tokenizer.cursor());
        lemma_scan_token_form(tokenizer.input(), tokenizer.cursor());
    }
    remove_whitespace(tokenizer);
    proof {
        use_type_invariant(&*tokenizer);
    }
    if tokenizer.index >= tokenizer.len {
        return Ok(Token::EOF);
    }
    let start = tokenizer.index;
    let c = tokenizer.next_char();
    if c == '\0' {
        Ok(Token::EOF)
    } else if c == '+' {
        Ok(Token::Plus)
    } else if c == '-' {
        Ok(Token::Minus)
    } else if c == '*' {
        Ok(Token::Multiply)
    } else if c == '/' {
        Ok(Token::Divide)
    } else if c.is_alphabetic() {
        Ok(Token::Identifier(scan_identifier(tokenizer, start)))
    } else if c.is_numeric() {
        scan_digits(tokenizer, start, c)
    } else {
        Err(Error::UnknownCharacter)
    }
}

/// A request for a token never moves the cursor backwards and never carries it from
/// inside the input to beyond its end. Before the end it consumes at least one
/// character; at or past the end it answers `EOF` and leaves the cursor where it was.
pub proof fn lemma_scan_token_progress(input: Seq<char>, pos: nat)
    ensures
        pos < input.len() ==> pos < scan_token(input, pos).cursor <= input.len(),
        pos >= input.len() ==> scan_token(input, pos) == (Scanned {
            token: Ok(TokenView::EOF),
            cursor: pos,
        }),
{
    lemma_whitespace_end(input, pos);
    let start = whitespace_end(input, pos);
    if start < input.len() {
        lemma_alphanumeric_end(input, start + 1);
        lemma_digit_end(input, start);
    }
}

/// Everything from `pos` up to [`whitespace_end`] is white space, and what stands there
/// is not.
pub proof fn lemma_whitespace_end(input: Seq<char>, pos: nat)
    ensures
        pos <= whitespace_end(input, pos),
        pos <= input.len() ==> whitespace_end(input, pos) <= input.len(),
        forall|i: int| pos <= i < whitespace_end(input, pos) ==> white_space(#[trigger] input[i]),
        whitespace_end(input, pos) < input.len() ==> !white_space(
            input[whitespace_end(input, pos) as int],
        ),
    decreases input.len() - pos,
{
    if pos < input.len() && white_space(input[pos as int]) {
        lemma_whitespace_end(input, pos + 1);
    }
}

/// Everything from `pos` up to [`alphanumeric_end`] is a letter or a numeric character,
/// and what stands there is not.
pub proof fn lemma_alphanumeric_end(input: Seq<char>, pos: nat)
    ensures
        pos <= alphanumeric_end(input, pos),
        pos <= input.len() ==> alphanumeric_end(input, pos) <= input.len(),
        forall|i: int|
            pos <= i < alphanumeric_end(input, pos) ==> alphanumeric(#[trigger] input[i]),
        alphanumeric_end(input, pos) < input.len() ==> !alphanumeric(
            input[alphanumeric_end(input, pos) as int],
        ),
    decreases input.len() - pos,
{
    if pos < input.len() && alphanumeric(input[pos as int]) {
        lemma_alphanumeric_end(input, pos + 1);
    }
}

/// Everything from `pos` up to [`digit_end`] is a decimal digit, and what stands there
/// is not.
pub proof fn lemma_digit_end(input: Seq<char>, pos: nat)
    ensures
        pos <= digit_end(input, pos),
        pos <= input.len() ==> digit_end(input, pos) <= input.len(),
        forall|i: int| pos <= i < digit_end(input, pos) ==> is_decimal_digit(#[trigger] input[i]),
        digit_end(input, pos) < input.len() ==> !is_decimal_digit(
            input[digit_end(input, pos) as int],
        ),
    decreases input.len() - pos,
{
    if pos < input.len() && is_decimal_digit(input[pos as int]) {
        lemma_digit_end(input, pos + 1);
    }
}

/// [`whitespace_end`] is the only position that ends a run of white space from `pos`.
pub proof fn lemma_whitespace_end_unique(input: Seq<char>, pos: nat, end: nat)
    requires
        pos <= end <= input.len(),
        forall|i: int| pos <= i < end ==> white_space(#[trigger] input[i]),
        end < input.len() ==> !white_space(input[end as int]),
    ensures
        whitespace_end(input, pos) == end,
    decreases end - pos,
{
    if pos < end {
        assert(white_space(input[pos as int]));
        lemma_whitespace_end_unique(input, pos + 1, end);
    }
}

/// [`alphanumeric_end`] is the only position that ends a run of letters and numeric
/// characters from `pos`.
pub proof fn lemma_alphanumeric_end_unique(input: Seq<char>, pos: nat, end: nat)
    requires
        pos <= end <= input.len(),
        forall|i: int| pos <= i < end ==> alphanumeric(#[trigger] input[i]),
        end < input.len() ==> !alphanumeric(input[end as int]),
    ensures
        alphanumeric_end(input, pos) == end,
    decreases end - pos,
{
    if pos < end {
        assert(alphanumeric(input[pos as int]));
        lemma_alphanumeric_end_unique(input, pos + 1, end);
    }
}

/// [`digit_end`] is the only position that ends a run of decimal digits from `pos`.
pub proof fn lemma_digit_end_unique(input: Seq<char>, pos: nat, end: nat)
    requires
        pos <= end <= input.len(),
        forall|i: int| pos <= i < end ==> is_decimal_digit(#[trigger] input[i]),
        end < input.len() ==> !is_decimal_digit(input[end as int]),
    ensures
        digit_end(input, pos) == end,
    decreases end - pos,
{
    if pos < end {
        assert(is_decimal_digit(input[pos as int]));
        lemma_digit_end_unique(input, pos + 1, end);
    }
}

/// All the tokens up to the first `EOF`, or the first failure, and where the cursor
/// stands afterwards.
pub struct ScannedAll {
    pub tokens: Result<Seq<TokenView>, Error>,
    pub cursor: nat,
}

/// Puts the tokens already read in front of what the rest of the scan gives.
pub open spec fn scanned_after(read: Seq<TokenView>, rest: ScannedAll) -> ScannedAll {
    ScannedAll {
        tokens: match rest.tokens {
            Ok(tokens) => Ok(read + tokens),
            Err(e) => Err(e),
        },
        cursor: rest.cursor,
    }
}

/// What repeated requests for a token give, from `pos` until the first `EOF`, which is
/// consumed and left out, or until the first failure.
pub open spec fn scan_all(input: Seq<char>, pos: nat) -> ScannedAll
    decreases input.len() - pos,
{
    let first = scan_token(input, pos);
    match first.token {
        Err(e) => ScannedAll { tokens: Err(e), cursor: first.cursor },
        Ok(TokenView::EOF) => ScannedAll { tokens: Ok(Seq::empty()), cursor: first.cursor },
        Ok(token) => {
            proof {
                lemma_scan_token_progress(input, pos);
            }
            scanned_after(seq![token], scan_all(input, first.cursor))
        },
    }
}

/// The mathematical content of a vector of tokens.
pub open spec fn token_views(tokens: Seq<Token>) -> Seq<TokenView> {
    Seq::new(tokens.len(), |i: int| tokens[i]@)
}

/// The mathematical content of the answer of [`get_all_tokens`].
pub open spec fn tokens_result_view(r: Result<Vec<Token>, Error>) -> Result<
    Seq<TokenView>,
    Error,
> {
    match r {
        Ok(tokens) => Ok(token_views(tokens@)),
        Err(e) => Err(e),
    }
}

/// Scans tokens until the first `EOF` and returns those before it, in order.
///
/// The first failure ends the scan and is returned in place of the tokens.
pub fn get_all_tokens(tokenizer: &mut Tokenizer) -> (r: Result<Vec<Token>, Error>)
    ensures
        final(tokenizer).input() == old(tokenizer).input(),
        final(tokenizer).cursor() == scan_all(
            old(tokenizer).input(),
            old(tokenizer).cursor(),
        ).cursor,
        tokens_result_view(r) == scan_all(old(tokenizer).input(), old(tokenizer).cursor()).tokens,
        final(tokenizer).cursor() >= old(tokenizer).cursor(),
        old(tokenizer).in_bounds() ==> final(tokenizer).in_bounds(),
        r matches Ok(tokens) ==> forall|i: int|
            0 <= i < tokens.len() ==> scanner_made(#[trigger] tokens[i]@) && !(tokens[i]@ is EOF),
{
    let mut res: Vec<Token> = Vec::new();
    loop
        invariant
            tokenizer.input() == old(tokenizer).input(),
            tokenizer.cursor() >= old(tokenizer).cursor(),
            old(tokenizer).in_bounds() ==> tokenizer.in_bounds(),
            forall|i: int|
                0 <= i < res.len() ==> scanner_made(#[trigger] res[i]@) && !(res[i]@ is EOF),
            scan_all(old(tokenizer).input(), old(tokenizer).cursor()) == scanned_after(
                token_views(res@),
                scan_all(tokenizer.input(), tokenizer.cursor()),
            ),
        decreases tokenizer.input().len() - tokenizer.cursor(),
    {
        let ghost before = tokenizer.cursor();
        let ghost read = token_views(res@);
        proof {
            lemma_scan_token_progress(tokenizer.input(), before);
        }
        match get_token(tokenizer) {
            Err(e) => {
                return Err(e);
            },
            Ok(Token::EOF) => {
                assert(read + Seq::<TokenView>::empty() =~= read);
                return Ok(res);
            },
            Ok(token) => {
                res.push(token);
                proof {
                    let rest = scan_all(tokenizer.input(), tokenizer.cursor());
                    assert(token_views(res@) =~= read + seq![token@]);
                    if let Ok(tokens) = rest.tokens {
                        assert(read + (seq![token@] + tokens) =~= (read + seq![token@]) + tokens);
                    }
                }
            },
        }
    }
}

} // verus!
