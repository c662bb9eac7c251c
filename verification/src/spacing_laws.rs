//! White space between tokens does not change what is scanned.
//!
//! A scan looks at the text only from its cursor on, so a text scans alike wherever it
//! stands behind other text. From that and from the rule that white space is passed
//! over in front of a token follows the law of this file: white space put in anywhere
//! but between two characters that could belong to one identifier or number leaves the
//! tokens as they were.

use vstd::prelude::*;
use crate::chars::{
    alphabetic, alphanumeric, is_ascii_whitespace, is_decimal_digit, numeric, white_space,
};
use crate::expr::ExprView;
use crate::parser::{
    lemma_parse_mul_progress, parse_add_rest, parse_expr_spec, parse_factor_spec,
    parse_mul_rest, parse_mul_spec, parse_spec, pull, ParseView, Parsed,
};
use crate::scanner_laws::lemma_whitespace_run_is_skipped;
use crate::token::TokenView;
use crate::tokenizer::{
    alphanumeric_end, digit_end, lemma_alphanumeric_end, lemma_alphanumeric_end_unique,
    lemma_digit_end, lemma_digit_end_unique, lemma_scan_token_progress, lemma_whitespace_end,
    lemma_whitespace_end_unique, scan_all, scan_token, whitespace_end, Scanned,
};

verus! {

/// The same answer with the cursor moved on by `by`.
pub open spec fn shifted(scanned: Scanned, by: nat) -> Scanned {
    Scanned { token: scanned.token, cursor: scanned.cursor + by }
}

proof fn lemma_whitespace_end_behind(before: Seq<char>, text: Seq<char>, pos: nat)
    ensures
        whitespace_end(before + text, before.len() + pos) == before.len() + whitespace_end(
            text,
            pos,
        ),
{
    let whole = before + text;
    let end = whitespace_end(text, pos);
    lemma_whitespace_end(text, pos);
    if pos <= text.len() {
        assert forall|i: int| before.len() + pos <= i < before.len() + end implies white_space(
            #[trigger] whole[i],
        ) by {
            assert(whole[i] == text[i - before.len()]);
        }
        if end < text.len() {
            assert(whole[(before.len() + end) as int] == text[end as int]);
        }
        lemma_whitespace_end_unique(whole, before.len() + pos, before.len() + end);
    }
}

proof fn lemma_alphanumeric_end_behind(before: Seq<char>, text: Seq<char>, pos: nat)
    ensures
        alphanumeric_end(before + text, before.len() + pos) == before.len() + alphanumeric_end(
            text,
            pos,
        ),
{
    let whole = before + text;
    let end = alphanumeric_end(text, pos);
    lemma_alphanumeric_end(text, pos);
    if pos <= text.len() {
        assert forall|i: int| before.len() + pos <= i < before.len() + end implies alphanumeric(
            #[trigger] whole[i],
        ) by {
            assert(whole[i] == text[i - before.len()]);
        }
        if end < text.len() {
            assert(whole[(before.len() + end) as int] == text[end as int]);
        }
        lemma_alphanumeric_end_unique(whole, before.len() + pos, before.len() + end);
    }
}

proof fn lemma_digit_end_behind(before: Seq<char>, text: Seq<char>, pos: nat)
    ensures
        digit_end(before + text, before.len() + pos) == before.len() + digit_end(text, pos),
{
    let whole = before + text;
    let end = digit_end(text, pos);
    lemma_digit_end(text, pos);
    if pos <= text.len() {
        assert forall|i: int| before.len() + pos <= i < before.len() + end implies is_decimal_digit(
            #[trigger] whole[i],
        ) by {
            assert(whole[i] == text[i - before.len()]);
        }
        if end < text.len() {
            assert(whole[(before.len() + end) as int] == text[end as int]);
        }
        lemma_digit_end_unique(whole, before.len() + pos, before.len() + end);
    }
}

/// A scan does not look back: behind any other text, a text gives the token that it
/// gives alone, and the cursor moves as far.
pub proof fn lemma_scan_token_behind(before: Seq<char>, text: Seq<char>, pos: nat)
    ensures
        scan_token(before + text, before.len() + pos) == shifted(
            scan_token(text, pos),
            before.len(),
        ),
{
    let whole = before + text;
    let m = before.len();
    lemma_whitespace_end_behind(before, text, pos);
    lemma_whitespace_end(text, pos);
    let start = whitespace_end(text, pos);
    if start < text.len() {
        assert(whole[(m + start) as int] == text[start as int]);
        lemma_alphanumeric_end_behind(before, text, start + 1);
        lemma_alphanumeric_end(text, start + 1);
        lemma_digit_end_behind(before, text, start);
        lemma_digit_end(text, start);
        let word_end = alphanumeric_end(text, start + 1);
        assert(whole.subrange((m + start) as int, (m + word_end) as int) =~= text.subrange(
            start as int,
            word_end as int,
        ));
        let number_end = digit_end(text, start);
        assert(whole.subrange((m + start) as int, (m + number_end) as int) =~= text.subrange(
            start as int,
            number_end as int,
        ));
        if number_end < text.len() {
            assert(whole[(m + number_end) as int] == text[number_end as int]);
        }
    }
}

/// White space that is neither a letter nor a numeric character. Every white-space
/// character of ASCII is of this kind.
pub open spec fn separator(c: char) -> bool {
    white_space(c) && !alphanumeric(c)
}

/// Space, tab, line feed, vertical tab, form feed and carriage return are separators.
pub proof fn lemma_ascii_whitespace_separates(c: char)
    requires
        is_ascii_whitespace(c),
    ensures
        separator(c),
{
}

/// The place where `head` ends and `tail` begins does not lie between two characters
/// that are both letters or numeric characters, so no identifier or number reaches
/// across it.
pub open spec fn between_tokens(head: Seq<char>, tail: Seq<char>) -> bool {
    head.len() == 0 || tail.len() == 0 || !alphanumeric(head.last()) || !alphanumeric(
        tail.first(),
    )
}

/// How a cursor in `head + tail` relates to one in `head + gap + tail`: in front of the
/// gap they are the same, behind it they differ by its length. At the gap both hold.
pub open spec fn corresponds(head_len: nat, gap_len: nat, pos: nat, spaced_pos: nat) -> bool {
    ||| pos <= head_len && spaced_pos == pos
    ||| pos >= head_len && spaced_pos == pos + gap_len
}

proof fn lemma_whitespace_end_within_run(input: Seq<char>, pos: nat, end: nat)
    requires
        pos <= end <= input.len(),
        forall|i: int| pos <= i < end ==> white_space(#[trigger] input[i]),
    ensures
        whitespace_end(input, pos) == whitespace_end(input, end),
    decreases end - pos,
{
    if pos < end {
        assert(white_space(input[pos as int]));
        lemma_whitespace_end_within_run(input, pos + 1, end);
    }
}

/// From a cursor behind the gap.
proof fn lemma_scan_token_behind_gap(
    head: Seq<char>,
    gap: Seq<char>,
    tail: Seq<char>,
    pos: nat,
)
    requires
        pos >= head.len(),
    ensures
        scan_token(head + gap + tail, pos + gap.len()) == shifted(
            scan_token(head + tail, pos),
            gap.len(),
        ),
        scan_token(head + tail, pos).cursor >= head.len(),
{
    let behind = (pos - head.len()) as nat;
    lemma_scan_token_behind(head, tail, behind);
    lemma_scan_token_behind(head + gap, tail, behind);
    lemma_scan_token_progress(head + tail, pos);
}

/// From a cursor at the gap.
proof fn lemma_scan_token_at_gap(head: Seq<char>, gap: Seq<char>, tail: Seq<char>)
    requires
        forall|i: int| 0 <= i < gap.len() ==> separator(#[trigger] gap[i]),
    ensures
        scan_token(head + gap + tail, head.len()) == shifted(
            scan_token(head + tail, head.len()),
            gap.len(),
        ),
        scan_token(head + tail, head.len()).cursor >= head.len(),
{
    let spaced = head + gap + tail;
    let n = head.len();
    assert forall|i: int| n <= i < n + gap.len() implies white_space(#[trigger] spaced[i]) by {
        assert(spaced[i] == gap[i - n]);
        assert(separator(gap[i - n]));
    }
    lemma_whitespace_end_within_run(spaced, n, n + gap.len());
    lemma_whitespace_run_is_skipped(spaced, n);
    lemma_whitespace_run_is_skipped(spaced, n + gap.len());
    lemma_scan_token_behind_gap(head, gap, tail, n);
}

/// From a cursor in front of the gap, where a token starts in front of the gap too.
proof fn lemma_scan_token_before_gap(
    head: Seq<char>,
    gap: Seq<char>,
    tail: Seq<char>,
    pos: nat,
)
    requires
        forall|i: int| 0 <= i < gap.len() ==> separator(#[trigger] gap[i]),
        between_tokens(head, tail),
        whitespace_end(head + tail, pos) < head.len(),
    ensures
        scan_token(head + gap + tail, pos) == scan_token(head + tail, pos),
        scan_token(head + tail, pos).cursor <= head.len(),
{
    let plain = head + tail;
    let spaced = head + gap + tail;
    let n = head.len();
    let start = whitespace_end(plain, pos);
    assert forall|i: int| 0 <= i < n implies #[trigger] spaced[i] == plain[i] by {}
    if gap.len() > 0 {
        assert(spaced[n as int] == gap[0]);
        assert(separator(gap[0]));
    } else {
        assert(spaced =~= plain);
    }
    lemma_whitespace_end(plain, pos);
    assert forall|i: int| pos <= i < start implies white_space(#[trigger] spaced[i]) by {
        assert(spaced[i] == plain[i]);
    }
    assert(spaced[start as int] == plain[start as int]);
    lemma_whitespace_end_unique(spaced, pos, start);
    let c = plain[start as int];
    assert(head.last() == plain[n - 1]);
    if tail.len() > 0 {
        assert(tail.first() == plain[n as int]);
    }
    if c != '\0' && c != '+' && c != '-' && c != '*' && c != '/' {
        if alphabetic(c) {
            let end = alphanumeric_end(plain, start + 1);
            lemma_alphanumeric_end(plain, start + 1);
            if end > n {
                assert(alphanumeric(plain[n - 1]));
                assert(alphanumeric(plain[n as int]));
                assert(false);
            }
            assert forall|i: int| start + 1 <= i < end implies alphanumeric(
                #[trigger] spaced[i],
            ) by {
                assert(spaced[i] == plain[i]);
            }
            if end < n {
                assert(spaced[end as int] == plain[end as int]);
            }
            lemma_alphanumeric_end_unique(spaced, start + 1, end);
            assert(spaced.subrange(start as int, end as int) =~= plain.subrange(
                start as int,
                end as int,
            ));
        } else if numeric(c) {
            let end = digit_end(plain, start);
            lemma_digit_end(plain, start);
            if end > n {
                assert(is_decimal_digit(plain[n - 1]));
                assert(is_decimal_digit(plain[n as int]));
                assert(false);
            }
            assert forall|i: int| start <= i < end implies is_decimal_digit(
                #[trigger] spaced[i],
            ) by {
                assert(spaced[i] == plain[i]);
            }
            if end < n {
                assert(spaced[end as int] == plain[end as int]);
            } else {
                assert(is_decimal_digit(plain[n - 1]));
            }
            lemma_digit_end_unique(spaced, start, end);
            assert(spaced.subrange(start as int, end as int) =~= plain.subrange(
                start as int,
                end as int,
            ));
        }
    }
}

/// One request for a token gives the same token with and without the gap, and the
/// cursors correspond afterwards as they did before.
pub proof fn lemma_scan_token_spaced(
    head: Seq<char>,
    gap: Seq<char>,
    tail: Seq<char>,
    pos: nat,
    spaced_pos: nat,
)
    requires
        forall|i: int| 0 <= i < gap.len() ==> separator(#[trigger] gap[i]),
        between_tokens(head, tail),
        corresponds(head.len(), gap.len(), pos, spaced_pos),
    ensures
        scan_token(head + gap + tail, spaced_pos).token == scan_token(head + tail, pos).token,
        corresponds(
            head.len(),
            gap.len(),
            scan_token(head + tail, pos).cursor,
            scan_token(head + gap + tail, spaced_pos).cursor,
        ),
{
    let plain = head + tail;
    let spaced = head + gap + tail;
    let n = head.len();
    if pos >= n && spaced_pos == pos + gap.len() {
        lemma_scan_token_behind_gap(head, gap, tail, pos);
    } else if pos == n {
        lemma_scan_token_at_gap(head, gap, tail);
    } else if whitespace_end(plain, pos) < n {
        lemma_scan_token_before_gap(head, gap, tail, pos);
    } else {
        lemma_whitespace_end(plain, pos);
        assert forall|i: int| pos <= i < n implies white_space(#[trigger] spaced[i]) by {
            assert(spaced[i] == plain[i]);
        }
        lemma_whitespace_end_within_run(plain, pos, n);
        lemma_whitespace_end_within_run(spaced, pos, n);
        lemma_whitespace_run_is_skipped(plain, pos);
        lemma_whitespace_run_is_skipped(plain, n);
        lemma_whitespace_run_is_skipped(spaced, pos);
        lemma_whitespace_run_is_skipped(spaced, n);
        lemma_scan_token_at_gap(head, gap, tail);
    }
}

/// The tokens from corresponding cursors on are the same with and without the gap.
pub proof fn lemma_scan_all_spaced(
    head: Seq<char>,
    gap: Seq<char>,
    tail: Seq<char>,
    pos: nat,
    spaced_pos: nat,
)
    requires
        forall|i: int| 0 <= i < gap.len() ==> separator(#[trigger] gap[i]),
        between_tokens(head, tail),
        corresponds(head.len(), gap.len(), pos, spaced_pos),
    ensures
        scan_all(head + gap + tail, spaced_pos).tokens == scan_all(head + tail, pos).tokens,
    decreases (head + tail).len() - pos,
{
    let plain = scan_token(head + tail, pos);
    let spaced = scan_token(head + gap + tail, spaced_pos);
    lemma_scan_token_spaced(head, gap, tail, pos, spaced_pos);
    lemma_scan_token_progress(head + tail, pos);
    lemma_scan_token_progress(head + gap + tail, spaced_pos);
    match plain.token {
        Ok(TokenView::EOF) => {},
        Ok(_) => {
            lemma_scan_all_spaced(head, gap, tail, plain.cursor, spaced.cursor);
        },
        Err(_) => {},
    }
}

/// White space is transparent to the scanner: put in at the start of a text, at its
/// end, or anywhere within it except between two characters that are both letters or
/// numeric characters, it leaves the tokens of the text, or its first failure, as they
/// were.
pub proof fn lemma_whitespace_is_transparent(head: Seq<char>, gap: Seq<char>, tail: Seq<char>)
    requires
        forall|i: int| 0 <= i < gap.len() ==> separator(#[trigger] gap[i]),
        between_tokens(head, tail),
    ensures
        scan_all(head + gap + tail, 0).tokens == scan_all(head + tail, 0).tokens,
{
    lemma_scan_all_spaced(head, gap, tail, 0, 0);
}

/// Two parse states that differ by the gap only: one reads `head + tail`, the other
/// `head + gap + tail`; their cursors correspond and their lookaheads are the same.
pub open spec fn states_correspond(
    head: Seq<char>,
    gap: Seq<char>,
    tail: Seq<char>,
    plain: ParseView,
    spaced: ParseView,
) -> bool {
    &&& plain.input == head + tail
    &&& spaced.input == head + gap + tail
    &&& plain.current == spaced.current
    &&& corresponds(head.len(), gap.len(), plain.cursor, spaced.cursor)
}

/// Two parses that differ by the gap only: they give the same tree or the same failure,
/// and leave states that correspond.
pub open spec fn parses_correspond(
    head: Seq<char>,
    gap: Seq<char>,
    tail: Seq<char>,
    plain: Parsed,
    spaced: Parsed,
) -> bool {
    &&& plain.result == spaced.result
    &&& states_correspond(head, gap, tail, plain.state, spaced.state)
}

proof fn lemma_pull_spaced(
    head: Seq<char>,
    gap: Seq<char>,
    tail: Seq<char>,
    plain: ParseView,
    spaced: ParseView,
)
    requires
        forall|i: int| 0 <= i < gap.len() ==> separator(#[trigger] gap[i]),
        between_tokens(head, tail),
        states_correspond(head, gap, tail, plain, spaced),
    ensures
        pull(plain).token == pull(spaced).token,
        states_correspond(head, gap, tail, pull(plain).state, pull(spaced).state),
{
    lemma_scan_token_spaced(head, gap, tail, plain.cursor, spaced.cursor);
}

proof fn lemma_parse_factor_spaced(
    head: Seq<char>,
    gap: Seq<char>,
    tail: Seq<char>,
    plain: ParseView,
    spaced: ParseView,
)
    requires
        forall|i: int| 0 <= i < gap.len() ==> separator(#[trigger] gap[i]),
        between_tokens(head, tail),
        states_correspond(head, gap, tail, plain, spaced),
    ensures
        parses_correspond(
            head,
            gap,
            tail,
            parse_factor_spec(plain),
            parse_factor_spec(spaced),
        ),
{
    lemma_pull_spaced(head, gap, tail, plain, spaced);
}

proof fn lemma_parse_mul_rest_spaced(
    head: Seq<char>,
    gap: Seq<char>,
    tail: Seq<char>,
    plain: ParseView,
    spaced: ParseView,
    left: ExprView,
)
    requires
        forall|i: int| 0 <= i < gap.len() ==> separator(#[trigger] gap[i]),
        between_tokens(head, tail),
        states_correspond(head, gap, tail, plain, spaced),
    ensures
        parses_correspond(
            head,
            gap,
            tail,
            parse_mul_rest(plain, left),
            parse_mul_rest(spaced, left),
        ),
    decreases plain.input.len() - plain.cursor,
{
    if plain.current.is_multiplicative() {
        lemma_pull_spaced(head, gap, tail, plain, spaced);
        let next = pull(plain);
        let spaced_next = pull(spaced);
        if next.token is Ok {
            lemma_parse_factor_spaced(head, gap, tail, next.state, spaced_next.state);
            let operand = parse_factor_spec(next.state);
            let spaced_operand = parse_factor_spec(spaced_next.state);
            if let Ok(right) = operand.result {
                lemma_scan_token_progress(plain.input, plain.cursor);
                lemma_scan_token_progress(plain.input, next.state.cursor);
                lemma_parse_mul_rest_spaced(
                    head,
                    gap,
                    tail,
                    operand.state,
                    spaced_operand.state,
                    ExprView::Op {
                        left: Box::new(left),
                        right: Box::new(right),
                        op: plain.current,
                    },
                );
            }
        }
    }
}

proof fn lemma_parse_mul_spaced(
    head: Seq<char>,
    gap: Seq<char>,
    tail: Seq<char>,
    plain: ParseView,
    spaced: ParseView,
)
    requires
        forall|i: int| 0 <= i < gap.len() ==> separator(#[trigger] gap[i]),
        between_tokens(head, tail),
        states_correspond(head, gap, tail, plain, spaced),
    ensures
        parses_correspond(head, gap, tail, parse_mul_spec(plain), parse_mul_spec(spaced)),
{
    lemma_parse_factor_spaced(head, gap, tail, plain, spaced);
    let first = parse_factor_spec(plain);
    if let Ok(left) = first.result {
        lemma_parse_mul_rest_spaced(
            head,
            gap,
            tail,
            first.state,
            parse_factor_spec(spaced).state,
            left,
        );
    }
}

proof fn lemma_parse_add_rest_spaced(
    head: Seq<char>,
    gap: Seq<char>,
    tail: Seq<char>,
    plain: ParseView,
    spaced: ParseView,
    left: ExprView,
)
    requires
        forall|i: int| 0 <= i < gap.len() ==> separator(#[trigger] gap[i]),
        between_tokens(head, tail),
        states_correspond(head, gap, tail, plain, spaced),
    ensures
        parses_correspond(
            head,
            gap,
            tail,
            parse_add_rest(plain, left),
            parse_add_rest(spaced, left),
        ),
    decreases plain.input.len() - plain.cursor,
{
    if plain.current.is_additive() {
        lemma_pull_spaced(head, gap, tail, plain, spaced);
        let next = pull(plain);
        let spaced_next = pull(spaced);
        if next.token is Ok {
            lemma_parse_mul_spaced(head, gap, tail, next.state, spaced_next.state);
            let operand = parse_mul_spec(next.state);
            let spaced_operand = parse_mul_spec(spaced_next.state);
            if let Ok(right) = operand.result {
                lemma_scan_token_progress(plain.input, plain.cursor);
                lemma_parse_mul_progress(next.state);
                lemma_parse_add_rest_spaced(
                    head,
                    gap,
                    tail,
                    operand.state,
                    spaced_operand.state,
                    ExprView::Op {
                        left: Box::new(left),
                        right: Box::new(right),
                        op: plain.current,
                    },
                );
            }
        }
    }
}

/// From states that differ by the gap only, an expression parses to the same tree or
/// fails in the same way.
pub proof fn lemma_parse_expr_spaced(
    head: Seq<char>,
    gap: Seq<char>,
    tail: Seq<char>,
    plain: ParseView,
    spaced: ParseView,
)
    requires
        forall|i: int| 0 <= i < gap.len() ==> separator(#[trigger] gap[i]),
        between_tokens(head, tail),
        states_correspond(head, gap, tail, plain, spaced),
    ensures
        parses_correspond(head, gap, tail, parse_expr_spec(plain), parse_expr_spec(spaced)),
{
    lemma_parse_mul_spaced(head, gap, tail, plain, spaced);
    let first = parse_mul_spec(plain);
    if let Ok(left) = first.result {
        lemma_parse_add_rest_spaced(
            head,
            gap,
            tail,
            first.state,
            parse_mul_spec(spaced).state,
            left,
        );
    }
}

/// White space is transparent to the parser as it is to the scanner: put in anywhere
/// except between two characters that are both letters or numeric characters, it
/// leaves the tree of a source text, or its failure, as it was.
pub proof fn lemma_whitespace_keeps_the_tree(head: Seq<char>, gap: Seq<char>, tail: Seq<char>)
    requires
        forall|i: int| 0 <= i < gap.len() ==> separator(#[trigger] gap[i]),
        between_tokens(head, tail),
    ensures
        parse_spec(head + gap + tail) == parse_spec(head + tail),
{
    let plain = ParseView { input: head + tail, cursor: 0, current: TokenView::Unknown };
    let spaced = ParseView { input: head + gap + tail, cursor: 0, current: TokenView::Unknown };
    lemma_pull_spaced(head, gap, tail, plain, spaced);
    if pull(plain).token is Ok {
        lemma_parse_expr_spaced(head, gap, tail, pull(plain).state, pull(spaced).state);
    }
}

} // verus!
