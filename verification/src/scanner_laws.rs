//! What holds of every scan: laws about [`scan_token`] and [`scan_all`].

use vstd::prelude::*;
use crate::chars::{
    alphabetic, alphanumeric, is_ascii_letter, is_decimal_digit, numeric, white_space,
};
use crate::error::Error;
use crate::token::{is_digit_string, TokenView};
use crate::tokenizer::{
    alphanumeric_end, digit_end, digit_values, lemma_alphanumeric_end, lemma_digit_end,
    lemma_scan_token_progress, lemma_whitespace_end, scan_all, scan_token, Scanned, ScannedAll,
    whitespace_end,
};

verus! {

/// What the scanner promises of a token: a number is a digit string, and an identifier is
/// a letter followed by letters and numeric characters. The placeholder is never
/// produced.
pub open spec fn scanner_made(token: TokenView) -> bool {
    match token {
        TokenView::Unknown => false,
        TokenView::Number(digits) => is_digit_string(digits),
        TokenView::Identifier(text) => {
            &&& text.len() > 0
            &&& alphabetic(text[0])
            &&& forall|i: int| 1 <= i < text.len() ==> alphanumeric(#[trigger] text[i])
        },
        _ => true,
    }
}

/// Every token that a scan yields is of the promised form.
pub proof fn lemma_scan_token_form(input: Seq<char>, pos: nat)
    ensures
        scan_token(input, pos).token matches Ok(token) ==> scanner_made(token),
{
    lemma_whitespace_end(input, pos);
    let start = whitespace_end(input, pos);
    if start < input.len() {
        lemma_alphanumeric_end(input, start + 1);
        lemma_digit_end(input, start);
    }
}

/// White space in front of a token is invisible: a scan from a position that holds white
/// space gives what a scan from the next position gives.
pub proof fn lemma_whitespace_is_skipped(input: Seq<char>, pos: nat)
    requires
        pos < input.len(),
        white_space(input[pos as int]),
    ensures
        scan_token(input, pos) == scan_token(input, pos + 1),
        scan_all(input, pos) == scan_all(input, pos + 1),
{
    lemma_scan_token_progress(input, pos);
    lemma_scan_token_progress(input, pos + 1);
}

/// A scan gives the same from anywhere within a run of white space as from its end.
pub proof fn lemma_whitespace_run_is_skipped(input: Seq<char>, pos: nat)
    ensures
        scan_token(input, pos) == scan_token(input, whitespace_end(input, pos)),
        scan_all(input, pos) == scan_all(input, whitespace_end(input, pos)),
    decreases input.len() - pos,
{
    if pos < input.len() && white_space(input[pos as int]) {
        lemma_whitespace_is_skipped(input, pos);
        lemma_whitespace_run_is_skipped(input, pos + 1);
    }
}

/// An input that is a letter followed by letters and numeric characters scans as one
/// identifier that holds the whole input, and then the input is at its end.
pub proof fn lemma_identifier_alone(input: Seq<char>)
    requires
        input.len() > 0,
        alphabetic(input[0]),
        !white_space(input[0]),
        forall|i: int| 1 <= i < input.len() ==> alphanumeric(#[trigger] input[i]),
    ensures
        scan_token(input, 0) == (Scanned {
            token: Ok(TokenView::Identifier(input)),
            cursor: input.len(),
        }),
        scan_all(input, 0) == (ScannedAll {
            tokens: Ok(seq![TokenView::Identifier(input)]),
            cursor: input.len(),
        }),
{
    reveal_with_fuel(scan_all, 2);
    lemma_alphanumeric_end(input, 1);
    assert(alphanumeric_end(input, 1) == input.len());
    assert(input.subrange(0, input.len() as int) =~= input);
    lemma_scan_token_progress(input, input.len());
    assert(seq![TokenView::Identifier(input)] + Seq::<TokenView>::empty() =~= seq![
        TokenView::Identifier(input),
    ]);
}

/// An input of ASCII letters only scans as one identifier that holds the whole input.
pub proof fn lemma_letters_alone(input: Seq<char>)
    requires
        input.len() > 0,
        forall|i: int| 0 <= i < input.len() ==> is_ascii_letter(#[trigger] input[i]),
    ensures
        scan_all(input, 0) == (ScannedAll {
            tokens: Ok(seq![TokenView::Identifier(input)]),
            cursor: input.len(),
        }),
{
    assert(is_ascii_letter(input[0]));
    assert forall|i: int| 1 <= i < input.len() implies alphanumeric(#[trigger] input[i]) by {
        assert(is_ascii_letter(input[i]));
    }
    lemma_identifier_alone(input);
}

/// An input of decimal digits only scans as one number that holds the value of every
/// digit in order, and then the input is at its end.
pub proof fn lemma_digits_alone(input: Seq<char>)
    requires
        input.len() > 0,
        forall|i: int| 0 <= i < input.len() ==> is_decimal_digit(#[trigger] input[i]),
    ensures
        scan_token(input, 0) == (Scanned {
            token: Ok(TokenView::Number(digit_values(input))),
            cursor: input.len(),
        }),
        scan_all(input, 0) == (ScannedAll {
            tokens: Ok(seq![TokenView::Number(digit_values(input))]),
            cursor: input.len(),
        }),
        is_digit_string(digit_values(input)),
{
    reveal_with_fuel(scan_all, 2);
    assert(is_decimal_digit(input[0]));
    lemma_digit_end(input, 0);
    assert(digit_end(input, 0) == input.len());
    assert(input.subrange(0, input.len() as int) =~= input);
    lemma_scan_token_progress(input, input.len());
    assert(seq![TokenView::Number(digit_values(input))] + Seq::<TokenView>::empty() =~= seq![
        TokenView::Number(digit_values(input)),
    ]);
    assert forall|i: int| 0 <= i < digit_values(input).len() implies digit_values(input)[i]
        < 10 by {
        assert(is_decimal_digit(input[i]));
    }
}

/// The character is an operator sign or the null character.
pub open spec fn is_sign_or_null(c: char) -> bool {
    c == '\0' || c == '+' || c == '-' || c == '*' || c == '/'
}

/// When a scan fails, and how. With `c` the first character behind the white space:
/// the scan fails on an unknown character exactly if `c` is there and is neither a sign,
/// nor the null character, nor a letter, nor a numeric character. It fails on a digit
/// exactly if `c` is a numeric character that is no sign, no letter, and the decimal
/// digits from there on run into a letter or a numeric character. In every other case
/// there is a token.
pub proof fn lemma_scan_token_failures(input: Seq<char>, pos: nat)
    ensures
        ({
            let start = whitespace_end(input, pos);
            let c = input[start as int];
            let end = digit_end(input, start);
            let scanned = scan_token(input, pos).token;
            &&& scanned == Err::<TokenView, Error>(Error::UnknownCharacter) <==> {
                &&& start < input.len()
                &&& !is_sign_or_null(c)
                &&& !alphabetic(c)
                &&& !numeric(c)
            }
            &&& scanned == Err::<TokenView, Error>(Error::InvalidDigit) <==> {
                &&& start < input.len()
                &&& !is_sign_or_null(c)
                &&& !alphabetic(c)
                &&& numeric(c)
                &&& end < input.len()
                &&& alphanumeric(input[end as int])
            }
            &&& scanned is Err ==> scanned == Err::<TokenView, Error>(Error::UnknownCharacter)
                || scanned == Err::<TokenView, Error>(Error::InvalidDigit)
        }),
{
}

} // verus!
