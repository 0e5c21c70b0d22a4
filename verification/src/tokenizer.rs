use crate::ast::{spans_fit, Operator, ParenthesisType, RawSyntax};
use crate::chars::{
    blank_char, is_blank_char, is_name_char, is_number_char, name_char, number_char,
};
use crate::error::EquationParseError;
use vstd::prelude::*;
use vstd::std_specs::iter::IteratorSpec;

verus! {

/// Whether a character goes on a run of the given class: a number takes
/// numeric characters and decimal points, a name takes letters.
pub open spec fn in_run(c: char, number: bool) -> bool {
    if number {
        number_char(c)
    } else {
        name_char(c)
    }
}

/// Where the run of one class that covers `from` stops: the first index at
/// or behind `from` whose character is not of the class, or the end of the
/// text.
pub open spec fn run_end(text: Seq<char>, from: int, number: bool) -> int
    decreases text.len() - from,
{
    if 0 <= from < text.len() && in_run(text[from], number) {
        run_end(text, from + 1, number)
    } else {
        from
    }
}

/// The token that a single character outside of runs stands for.
pub open spec fn symbol_token(c: char) -> Option<RawSyntax> {
    if c == ',' {
        Some(RawSyntax::Comma)
    } else if c == '|' {
        Some(RawSyntax::Abs)
    } else if ParenthesisType::of_char(c) is Some {
        Some(RawSyntax::Parenthesis(ParenthesisType::of_char(c)->0))
    } else if Operator::of_char(c) is Some {
        Some(RawSyntax::Operator(Operator::of_char(c)->0))
    } else {
        None
    }
}

/// Puts tokens that are already known in front of what the rest of the
/// text gives. A failure in the rest is the failure of the whole.
pub open spec fn after(
    known: Seq<RawSyntax>,
    rest: Result<Seq<RawSyntax>, EquationParseError>,
) -> Result<Seq<RawSyntax>, EquationParseError> {
    match rest {
        Ok(tokens) => Ok(known + tokens),
        Err(e) => Err(e),
    }
}

/// The token of the name that fills `[start, end)`: a function name where
/// `(` follows at once, a plain name otherwise.
pub open spec fn name_token(text: Seq<char>, start: int, end: int) -> RawSyntax {
    if end < text.len() && text[end] == '(' {
        RawSyntax::Function { start: start as usize, end: end as usize }
    } else {
        RawSyntax::ValueIdent { start: start as usize, end: end as usize }
    }
}

/// The tokens of the text from index `from` on.
///
/// A number character starts a number that runs as far as number characters
/// go; a letter starts a name that runs as far as letters go; white space is
/// passed over; any other character has to be a token by itself. Indices
/// count characters, not bytes.
pub open spec fn tokens_from(text: Seq<char>, from: int) -> Result<
    Seq<RawSyntax>,
    EquationParseError,
>
    decreases text.len() - from,
    via tokens_from_decreases
{
    if from < 0 || from >= text.len() {
        Ok(Seq::empty())
    } else if number_char(text[from]) {
        let end = run_end(text, from + 1, true);
        after(
            seq![RawSyntax::ValueLit { start: from as usize, end: end as usize }],
            tokens_from(text, end),
        )
    } else if name_char(text[from]) {
        let end = run_end(text, from + 1, false);
        after(seq![name_token(text, from, end)], tokens_from(text, end))
    } else if blank_char(text[from]) {
        tokens_from(text, from + 1)
    } else {
        match symbol_token(text[from]) {
            Some(token) => after(seq![token], tokens_from(text, from + 1)),
            None => Err(EquationParseError::UnrecognizedCharacter),
        }
    }
}

#[via_fn]
proof fn tokens_from_decreases(text: Seq<char>, from: int) {
    if 0 <= from < text.len() {
        lemma_run_end_bounds(text, from + 1, true);
        lemma_run_end_bounds(text, from + 1, false);
    }
}

/// The tokens of a whole text.
pub open spec fn tokens_of(text: Seq<char>) -> Result<Seq<RawSyntax>, EquationParseError> {
    tokens_from(text, 0)
}

/// A run stops at or behind the index it is asked from, within the text,
/// and at a character that does not go on it.
pub proof fn lemma_run_end_bounds(text: Seq<char>, from: int, number: bool)
    requires
        0 <= from <= text.len(),
    ensures
        from <= run_end(text, from, number) <= text.len(),
        run_end(text, from, number) < text.len() ==> !in_run(
            text[run_end(text, from, number)],
            number,
        ),
        forall|k: int|
            from <= k < run_end(text, from, number) ==> in_run(#[trigger] text[k], number),
    decreases text.len() - from,
{
    if from < text.len() && in_run(text[from], number) {
        lemma_run_end_bounds(text, from + 1, number);
    }
}

/// Within a stretch of characters of one class, the run stops at the same
/// place wherever it is asked from.
proof fn lemma_run_end_within(text: Seq<char>, start: int, at: int, number: bool)
    requires
        0 <= start <= at <= text.len(),
        forall|k: int| start <= k < at ==> in_run(#[trigger] text[k], number),
    ensures
        run_end(text, start, number) == run_end(text, at, number),
    decreases at - start,
{
    if start < at {
        lemma_run_end_within(text, start + 1, at, number);
    }
}

/// A token put in front of the rest, behind the known tokens, is a token
/// more among the known ones.
proof fn lemma_after_push(
    known: Seq<RawSyntax>,
    token: RawSyntax,
    rest: Result<Seq<RawSyntax>, EquationParseError>,
)
    ensures
        after(known, after(seq![token], rest)) == after(known.push(token), rest),
{
    if let Ok(tokens) = rest {
        assert(known + (seq![token] + tokens) =~= known.push(token) + tokens);
    }
}

/// The token of the run that fills `[start, end)`.
pub open spec fn run_token(text: Seq<char>, start: int, end: int, number: bool) -> RawSyntax {
    if number {
        RawSyntax::ValueLit { start: start as usize, end: end as usize }
    } else {
        name_token(text, start, end)
    }
}

/// A stretch of characters of one class that stops at `end` gives one token,
/// and the text goes on from `end`.
pub proof fn lemma_run_closes(text: Seq<char>, start: int, end: int, number: bool)
    requires
        0 <= start < end <= text.len(),
        forall|k: int| start <= k < end ==> in_run(#[trigger] text[k], number),
        end < text.len() ==> !in_run(text[end], number),
    ensures
        tokens_from(text, start) == after(
            seq![run_token(text, start, end, number)],
            tokens_from(text, end),
        ),
{
    assert(in_run(text[start], number));
    lemma_run_end_within(text, start + 1, end, number);
    assert(run_end(text, end, number) == end);
}

/// Whether the places that tokens name are places of a text of `len`
/// characters from index `from` on: none is empty, and each lies behind the
/// ones before it.
pub open spec fn spans_ascend(raw: Seq<RawSyntax>, from: int, len: int) -> bool {
    &&& forall|i: int|
        0 <= i < raw.len() ==> match (#[trigger] raw[i]).span() {
            Some((start, end)) => from <= start < end <= len,
            None => true,
        }
    &&& forall|i: int, j: int|
        0 <= i < j < raw.len() ==> match ((#[trigger] raw[i]).span(), (#[trigger] raw[j]).span()) {
            (Some((_, end)), Some((start, _))) => end <= start,
            _ => true,
        }
}

/// The tokens of a text name places of the text: no place is empty, no two
/// overlap, and they come in the order of the text.
pub proof fn lemma_tokens_ascend(text: Seq<char>, from: int)
    requires
        0 <= from <= text.len() <= usize::MAX,
        tokens_from(text, from) is Ok,
    ensures
        spans_ascend(tokens_from(text, from)->Ok_0, from, text.len() as int),
    decreases text.len() - from,
{
    let len = text.len() as int;
    if from < len {
        let c = text[from];
        if number_char(c) || name_char(c) {
            let number = number_char(c);
            lemma_run_end_bounds(text, from + 1, number);
            let end = run_end(text, from + 1, number);
            let head = run_token(text, from, end, number);
            lemma_tokens_ascend(text, end);
            let rest = tokens_from(text, end)->Ok_0;
            let all = tokens_from(text, from)->Ok_0;
            assert(all == seq![head] + rest);
            assert(head.span() == Some((from, end)));
            assert forall|i: int| 0 <= i < all.len() implies match (#[trigger] all[i]).span() {
                Some((start, stop)) => from <= start < stop <= len,
                None => true,
            } by {
                if i > 0 {
                    assert(all[i] == rest[i - 1]);
                }
            }
            assert forall|i: int, j: int| 0 <= i < j < all.len() implies match (
                (#[trigger] all[i]).span(),
                (#[trigger] all[j]).span(),
            ) {
                (Some((_, stop)), Some((start, _))) => stop <= start,
                _ => true,
            } by {
                assert(all[j] == rest[j - 1]);
                if i > 0 {
                    assert(all[i] == rest[i - 1]);
                }
            }
        } else if blank_char(c) {
            lemma_tokens_ascend(text, from + 1);
        } else {
            let head = symbol_token(c)->0;
            lemma_tokens_ascend(text, from + 1);
            let rest = tokens_from(text, from + 1)->Ok_0;
            let all = tokens_from(text, from)->Ok_0;
            assert(all == seq![head] + rest);
            assert(head.span() is None);
            assert forall|i: int| 0 <= i < all.len() implies match (#[trigger] all[i]).span() {
                Some((start, stop)) => from <= start < stop <= len,
                None => true,
            } by {
                if i > 0 {
                    assert(all[i] == rest[i - 1]);
                }
            }
            assert forall|i: int, j: int| 0 <= i < j < all.len() implies match (
                (#[trigger] all[i]).span(),
                (#[trigger] all[j]).span(),
            ) {
                (Some((_, stop)), Some((start, _))) => stop <= start,
                _ => true,
            } by {
                assert(all[j] == rest[j - 1]);
                if i > 0 {
                    assert(all[i] == rest[i - 1]);
                }
            }
        }
    }
}

/// Whether `[start, end)` is a place of the text that is not empty and
/// holds characters of one class only.
pub open spec fn covers_run(text: Seq<char>, start: int, end: int, number: bool) -> bool {
    &&& 0 <= start < end <= text.len()
    &&& forall|k: int| start <= k < end ==> in_run(#[trigger] text[k], number)
}

/// Whether a token that names a place names a run of its class: a number
/// names number characters, a name or a function name names letters.
pub open spec fn names_run(token: RawSyntax, text: Seq<char>) -> bool {
    match token {
        RawSyntax::ValueLit { start, end } => covers_run(text, start as int, end as int, true),
        RawSyntax::ValueIdent { start, end } => covers_run(text, start as int, end as int, false),
        RawSyntax::Function { start, end } => covers_run(text, start as int, end as int, false),
        _ => true,
    }
}

/// Whether every token names a run of its class.
pub open spec fn spans_are_runs(raw: Seq<RawSyntax>, text: Seq<char>) -> bool {
    forall|i: int| 0 <= i < raw.len() ==> names_run(#[trigger] raw[i], text)
}

/// The tokens of a text name runs: a number is made of number characters
/// only, a name of letters only.
pub proof fn lemma_tokens_are_runs(text: Seq<char>, from: int)
    requires
        0 <= from <= text.len() <= usize::MAX,
        tokens_from(text, from) is Ok,
    ensures
        spans_are_runs(tokens_from(text, from)->Ok_0, text),
    decreases text.len() - from,
{
    let len = text.len() as int;
    if from < len {
        let c = text[from];
        if number_char(c) || name_char(c) {
            let number = number_char(c);
            lemma_run_end_bounds(text, from + 1, number);
            let end = run_end(text, from + 1, number);
            let head = run_token(text, from, end, number);
            lemma_tokens_are_runs(text, end);
            let rest = tokens_from(text, end)->Ok_0;
            let all = tokens_from(text, from)->Ok_0;
            assert(all == seq![head] + rest);
            assert(covers_run(text, from, end, number)) by {
                assert forall|k: int| from <= k < end implies in_run(
                    #[trigger] text[k],
                    number,
                ) by {
                    if k == from {
                        assert(in_run(text[from], number));
                    }
                }
            }
            assert(names_run(head, text));
            assert forall|i: int| 0 <= i < all.len() implies names_run(#[trigger] all[i], text) by {
                if i > 0 {
                    assert(all[i] == rest[i - 1]);
                }
            }
        } else if blank_char(c) {
            lemma_tokens_are_runs(text, from + 1);
        } else {
            let head = symbol_token(c)->0;
            lemma_tokens_are_runs(text, from + 1);
            let rest = tokens_from(text, from + 1)->Ok_0;
            let all = tokens_from(text, from)->Ok_0;
            assert(all == seq![head] + rest);
            assert forall|i: int| 0 <= i < all.len() implies names_run(#[trigger] all[i], text) by {
                if i > 0 {
                    assert(all[i] == rest[i - 1]);
                }
            }
        }
    }
}

/// Whether `r` is what tokenizing a text gives: the tokens of the text, or
/// the failure of the text.
pub open spec fn tokenized(text: Seq<char>, r: Result<Vec<RawSyntax>, EquationParseError>) -> bool {
    match r {
        Ok(tokens) => tokens_of(text) == Ok::<Seq<RawSyntax>, EquationParseError>(tokens@),
        Err(e) => tokens_of(text) == Err::<Seq<RawSyntax>, EquationParseError>(e),
    }
}

/// Tokenizing the same text twice gives the same result twice: the same
/// tokens in the same order, or the same failure.
pub proof fn lemma_tokenizing_repeats(
    text: Seq<char>,
    once: Result<Vec<RawSyntax>, EquationParseError>,
    again: Result<Vec<RawSyntax>, EquationParseError>,
)
    requires
        tokenized(text, once),
        tokenized(text, again),
    ensures
        match (once, again) {
            (Ok(a), Ok(b)) => a@ == b@,
            (Err(a), Err(b)) => a == b,
            _ => false,
        },
{
}

/// Closing a run turns what the text gives from the start of the run into
/// one token more among the known ones and what the text gives from the end
/// of the run.
proof fn lemma_run_emitted(
    known: Seq<RawSyntax>,
    text: Seq<char>,
    start: int,
    end: int,
    number: bool,
)
    requires
        0 <= start < end <= text.len(),
        forall|k: int| start <= k < end ==> in_run(#[trigger] text[k], number),
        end < text.len() ==> !in_run(text[end], number),
    ensures
        after(known, tokens_from(text, start)) == after(
            known.push(run_token(text, start, end, number)),
            tokens_from(text, end),
        ),
{
    lemma_run_closes(text, start, end, number);
    lemma_after_push(known, run_token(text, start, end, number), tokens_from(text, end));
}

/// Cuts the text of an equation into raw tokens, in one pass from left to
/// right.
///
/// The result is the token sequence of the text, or
/// `UnrecognizedCharacter` where a character outside of numbers and names is
/// neither white space nor a token by itself. The places that the tokens name
/// are never empty, never overlap and come in the order of the text; a
/// number names number characters only, a name names letters only.
pub fn first_parse(equation: &str) -> (r: Result<Vec<RawSyntax>, EquationParseError>)
    ensures
        tokenized(equation@, r),
        r matches Ok(tokens) ==> {
            &&& spans_fit(tokens@, equation@.len() as int)
            &&& spans_ascend(tokens@, 0, equation@.len() as int)
            &&& spans_are_runs(tokens@, equation@)
        },
{
    broadcast use vstd::string::group_string_axioms;

    let ghost text = equation@;
    let len = equation.unicode_len();
    let mut vec: Vec<RawSyntax> = Vec::new();
    // The run that is open: where it started, and whether it is a name.
    let mut last_start_index: Option<(usize, bool)> = None;
    let mut chars = equation.chars();
    let mut index: usize = 0;

    proof {
        assert(after(vec@, tokens_from(text, 0)) == tokens_from(text, 0)) by {
            if let Ok(tokens) = tokens_from(text, 0) {
                assert(vec@ + tokens =~= tokens);
            }
        }
    }
    loop
        invariant
            text == equation@,
            len == text.len(),
            index <= len,
            chars.obeys_prophetic_iter_laws(),
            chars.remaining() == text.skip(index as int),
            match last_start_index {
                None => tokens_of(text) == after(vec@, tokens_from(text, index as int)),
                Some((start, name)) => {
                    &&& start < index
                    &&& forall|k: int| start <= k < index ==> in_run(#[trigger] text[k], !name)
                    &&& tokens_of(text) == after(vec@, tokens_from(text, start as int))
                },
            },
        ensures
            index == len,
        decreases len - index,
    {
        let next = chars.next();
        if next.is_none() {
            break;
        }
        let value = next.unwrap();
        assert(value == text[index as int]);

        if is_number_char(value) {
            match last_start_index {
                None => {
                    last_start_index = Some((index, false));
                },
                Some((_, false)) => {},
                Some((start, true)) => {
                    proof {
                        lemma_run_emitted(vec@, text, start as int, index as int, false);
                    }
                    vec.push(RawSyntax::ValueIdent { start, end: index });
                    last_start_index = Some((index, false));
                },
            }
        } else if is_name_char(value) {
            match last_start_index {
                None => {
                    last_start_index = Some((index, true));
                },
                Some((_, true)) => {},
                Some((start, false)) => {
                    proof {
                        lemma_run_emitted(vec@, text, start as int, index as int, true);
                    }
                    vec.push(RawSyntax::ValueLit { start, end: index });
                    last_start_index = Some((index, true));
                },
            }
        } else {
            match last_start_index {
                None => {},
                Some((start, false)) => {
                    proof {
                        lemma_run_emitted(vec@, text, start as int, index as int, true);
                    }
                    vec.push(RawSyntax::ValueLit { start, end: index });
                },
                Some((start, true)) => {
                    proof {
                        lemma_run_emitted(vec@, text, start as int, index as int, false);
                    }
                    if value == '(' {
                        vec.push(RawSyntax::Function { start, end: index });
                    } else {
                        vec.push(RawSyntax::ValueIdent { start, end: index });
                    }
                },
            }
            last_start_index = None;

            if !is_blank_char(value) {
                let token = if value == ',' {
                    RawSyntax::Comma
                } else if value == '|' {
                    RawSyntax::Abs
                } else {
                    match ParenthesisType::try_from(value) {
                        Ok(parenthesis) => RawSyntax::Parenthesis(parenthesis),
                        Err(_) => match Operator::try_from(value) {
                            Ok(operator) => RawSyntax::Operator(operator),
                            Err(e) => {
                                return Err(e);
                            },
                        },
                    }
                };
                proof {
                    assert(symbol_token(value) == Some(token));
                    lemma_after_push(vec@, token, tokens_from(text, index as int + 1));
                }
                vec.push(token);
            }
        }
        index = index + 1;
    }

    match last_start_index {
        None => {},
        Some((start, false)) => {
            proof {
                lemma_run_emitted(vec@, text, start as int, len as int, true);
            }
            vec.push(RawSyntax::ValueLit { start, end: len });
        },
        Some((start, true)) => {
            proof {
                lemma_run_emitted(vec@, text, start as int, len as int, false);
            }
            vec.push(RawSyntax::ValueIdent { start, end: len });
        },
    }
    proof {
        assert(vec@ + Seq::<RawSyntax>::empty() =~= vec@);
        lemma_tokens_ascend(text, 0);
        lemma_tokens_are_runs(text, 0);
    }
    Ok(vec)
}

} // verus!
