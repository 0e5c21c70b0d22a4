use crate::ast::{
    lemma_function_name_letters, lemma_function_name_round_trip, ParenthesisType, RawSyntax,
    Token,
};
use crate::chars::{ascii_letter, blank_char, decimal_digit, name_char, number_char};
use crate::error::EquationParseError;
use crate::resolver::{
    bar_pending, begins_value, ends_value, implied_product, resolved, resolved_token,
    resolved_upto, sound_token,
};
use crate::tokenizer::{after, in_run, lemma_run_closes, symbol_token, tokens_from, tokens_of};
use vstd::prelude::*;

verus! {

/// The text of a sequence of tokens written one behind the other, each as
/// it is spelled, with nothing between them.
pub open spec fn written(tokens: Seq<Token>) -> Seq<char>
    decreases tokens.len(),
{
    if tokens.len() == 0 {
        Seq::empty()
    } else {
        written(tokens.drop_last()) + tokens.last().spelled()
    }
}

/// Where token `i` begins in the written text: the length of what the
/// tokens before it take.
pub open spec fn offset(tokens: Seq<Token>, i: int) -> int {
    written(tokens.take(i)).len() as int
}

/// What is written of the first `i` tokens is the beginning of what is
/// written of all.
pub proof fn lemma_written_take(tokens: Seq<Token>, i: int)
    requires
        0 <= i <= tokens.len(),
    ensures
        offset(tokens, i) <= written(tokens).len(),
        written(tokens).take(offset(tokens, i)) == written(tokens.take(i)),
    decreases tokens.len() - i,
{
    if i == tokens.len() {
        assert(tokens.take(i) =~= tokens);
        assert(written(tokens).take(offset(tokens, i)) =~= written(tokens));
    } else {
        lemma_written_take(tokens, i + 1);
        let longer = tokens.take(i + 1);
        assert(longer.drop_last() =~= tokens.take(i));
        assert(longer.last() == tokens[i]);
        assert(written(longer) == written(tokens.take(i)) + tokens[i].spelled());
        assert(written(tokens).take(offset(tokens, i)) =~= written(longer).take(
            offset(tokens, i),
        ));
        assert(written(longer).take(offset(tokens, i)) =~= written(tokens.take(i)));
    }
}

/// Token `i` stands in the written text as it is spelled, from its offset
/// to the offset of the next.
pub proof fn lemma_written_token(tokens: Seq<Token>, i: int)
    requires
        0 <= i < tokens.len(),
    ensures
        0 <= offset(tokens, i),
        offset(tokens, i + 1) == offset(tokens, i) + tokens[i].spelled().len(),
        offset(tokens, i + 1) <= written(tokens).len(),
        written(tokens).subrange(offset(tokens, i), offset(tokens, i + 1)) == tokens[i].spelled(),
        forall|j: int|
            0 <= j < tokens[i].spelled().len() ==> written(tokens)[offset(tokens, i) + j]
                == #[trigger] tokens[i].spelled()[j],
{
    lemma_written_take(tokens, i + 1);
    let longer = tokens.take(i + 1);
    assert(longer.drop_last() =~= tokens.take(i));
    assert(longer.last() == tokens[i]);
    assert(written(longer) == written(tokens.take(i)) + tokens[i].spelled());
    let begin = offset(tokens, i);
    let end = offset(tokens, i + 1);
    assert(written(tokens).subrange(begin, end) =~= written(longer).subrange(begin, end));
    assert(written(longer).subrange(begin, end) =~= tokens[i].spelled());
    assert forall|j: int| 0 <= j < tokens[i].spelled().len() implies written(tokens)[begin + j]
        == #[trigger] tokens[i].spelled()[j] by {
        assert(written(tokens).subrange(begin, end)[j] == written(tokens)[begin + j]);
    }
}

/// The written text ends where the last token ends, and begins where the
/// first begins.
pub proof fn lemma_written_bounds(tokens: Seq<Token>)
    ensures
        offset(tokens, 0) == 0,
        offset(tokens, tokens.len() as int) == written(tokens).len(),
{
    assert(tokens.take(0) =~= Seq::<Token>::empty());
    assert(tokens.take(tokens.len() as int) =~= tokens);
}

/// Two sequences of tokens written one behind the other are written as
/// their two texts one behind the other.
pub proof fn lemma_written_concat(a: Seq<Token>, b: Seq<Token>)
    ensures
        written(a + b) == written(a) + written(b),
    decreases b.len(),
{
    if b.len() == 0 {
        assert(a + b =~= a);
        assert(written(a) + written(b) =~= written(a));
    } else {
        lemma_written_concat(a, b.drop_last());
        assert((a + b).drop_last() =~= a + b.drop_last());
        assert((a + b).last() == b.last());
        assert(written(a + b) =~= written(a) + written(b));
    }
}

/// Whether a token can end a value: a number, a name or a closing
/// grouping symbol.
pub open spec fn token_ends(token: Token) -> bool {
    match token {
        Token::ValueLit(_) | Token::ValueIdent(_) => true,
        Token::Parenthesis(p) => !p.opens(),
        _ => false,
    }
}

/// Whether a token can begin a value: a number, a name, a function or an
/// opening grouping symbol.
pub open spec fn token_begins(token: Token) -> bool {
    match token {
        Token::ValueLit(_) | Token::ValueIdent(_) | Token::Function(_) => true,
        Token::Parenthesis(p) => p.opens(),
        _ => false,
    }
}

/// Whether a token is spelled so that it can be read back: it is sound,
/// and it is no bar, which has no place in written text.
pub open spec fn well_spelled(token: Token) -> bool {
    sound_token(token) && token != Token::Abs
}

/// Whether two tokens can stand next to each other in written text and be
/// read back as themselves: the first does not end a value where the second
/// begins one, and a function is followed by its round bracket.
pub open spec fn apart(first: Token, second: Token) -> bool {
    &&& !(token_ends(first) && token_begins(second))
    &&& first is Function ==> second == Token::Parenthesis(ParenthesisType::Open)
}

/// Whether a sequence of tokens can be written as text and read back as
/// itself.
pub open spec fn legible(tokens: Seq<Token>) -> bool {
    &&& forall|i: int| 0 <= i < tokens.len() ==> well_spelled(#[trigger] tokens[i])
    &&& forall|i: int| 0 <= i < tokens.len() - 1 ==> apart(#[trigger] tokens[i], tokens[i + 1])
    &&& tokens.len() > 0 ==> !(tokens.last() is Function)
}

/// The raw token of a token that is written at `start`.
pub open spec fn raw_form(token: Token, start: int) -> RawSyntax {
    match token {
        Token::ValueLit(text) => RawSyntax::ValueLit {
            start: start as usize,
            end: (start + text.len()) as usize,
        },
        Token::ValueIdent(name) => RawSyntax::ValueIdent {
            start: start as usize,
            end: (start + name.len()) as usize,
        },
        Token::Function(function) => RawSyntax::Function {
            start: start as usize,
            end: (start + function.name_text().len()) as usize,
        },
        Token::Operator(operator) => RawSyntax::Operator(operator),
        Token::Parenthesis(parenthesis) => RawSyntax::Parenthesis(parenthesis),
        Token::Comma => RawSyntax::Comma,
        Token::Abs => RawSyntax::Abs,
    }
}

/// The raw tokens of a sequence of tokens as it is written.
pub open spec fn raw_forms(tokens: Seq<Token>) -> Seq<RawSyntax> {
    Seq::new(tokens.len(), |i: int| raw_form(tokens[i], offset(tokens, i)))
}

/// How a well spelled token is made of characters: a number of number
/// characters, a name or a function of letters, and any other of the one
/// character that stands for it.
pub proof fn lemma_spelled_chars(token: Token)
    requires
        well_spelled(token),
    ensures
        token.spelled().len() > 0,
        match token {
            Token::ValueLit(_) => forall|j: int|
                0 <= j < token.spelled().len() ==> number_char(#[trigger] token.spelled()[j]),
            Token::ValueIdent(_) | Token::Function(_) => forall|j: int|
                0 <= j < token.spelled().len() ==> name_char(#[trigger] token.spelled()[j]),
            _ => {
                &&& token.spelled().len() == 1
                &&& !number_char(token.spelled()[0])
                &&& !name_char(token.spelled()[0])
                &&& !blank_char(token.spelled()[0])
                &&& symbol_token(token.spelled()[0]) == Some(raw_form(token, 0))
            },
        },
{
    match token {
        Token::ValueLit(text) => {
            assert forall|j: int| 0 <= j < text.len() implies number_char(#[trigger] text[j]) by {
                assert(decimal_digit(text[j]) || text[j] == '.');
            }
        },
        Token::Function(function) => {
            lemma_function_name_letters(function);
            let name = function.name_text();
            assert forall|j: int| 0 <= j < name.len() implies name_char(#[trigger] name[j]) by {
                assert(ascii_letter(name[j]));
            }
        },
        _ => {},
    }
}

/// The text of a legible sequence reads, from the offset of a token on, as
/// the raw token of that token and then as what follows from the offset of
/// the next.
pub proof fn lemma_reads_token(tokens: Seq<Token>, k: int)
    requires
        legible(tokens),
        0 <= k < tokens.len(),
        written(tokens).len() <= usize::MAX,
    ensures
        tokens_from(written(tokens), offset(tokens, k)) == after(
            seq![raw_form(tokens[k], offset(tokens, k))],
            tokens_from(written(tokens), offset(tokens, k + 1)),
        ),
{
    let text = written(tokens);
    let begin = offset(tokens, k);
    let end = offset(tokens, k + 1);
    let token = tokens[k];
    lemma_written_token(tokens, k);
    lemma_spelled_chars(token);
    assert(text[begin + 0] == token.spelled()[0]);
    if k + 1 < tokens.len() {
        let next = tokens[k + 1];
        lemma_written_token(tokens, k + 1);
        lemma_spelled_chars(next);
        assert(text[end + 0] == next.spelled()[0]);
        assert(apart(tokens[k], tokens[k + 1]));
    } else {
        lemma_written_bounds(tokens);
        assert(tokens.last() == token);
    }
    match token {
        Token::ValueLit(number) => {
            assert forall|j: int| begin <= j < end implies in_run(#[trigger] text[j], true) by {
                assert(text[begin + (j - begin)] == token.spelled()[j - begin]);
            }
            lemma_run_closes(text, begin, end, true);
        },
        Token::ValueIdent(name) => {
            assert forall|j: int| begin <= j < end implies in_run(#[trigger] text[j], false) by {
                assert(text[begin + (j - begin)] == token.spelled()[j - begin]);
            }
            lemma_run_closes(text, begin, end, false);
        },
        Token::Function(function) => {
            assert forall|j: int| begin <= j < end implies in_run(#[trigger] text[j], false) by {
                assert(text[begin + (j - begin)] == token.spelled()[j - begin]);
            }
            lemma_run_closes(text, begin, end, false);
        },
        _ => {},
    }
}

/// The text of a legible sequence reads, from the offset of token `k` on,
/// as the raw tokens of the tokens from `k` on.
pub proof fn lemma_reads_from(tokens: Seq<Token>, k: int)
    requires
        legible(tokens),
        0 <= k <= tokens.len(),
        written(tokens).len() <= usize::MAX,
    ensures
        tokens_from(written(tokens), offset(tokens, k)) == Ok::<Seq<RawSyntax>, EquationParseError>(
            raw_forms(tokens).skip(k),
        ),
    decreases tokens.len() - k,
{
    if k == tokens.len() {
        lemma_written_bounds(tokens);
        assert(raw_forms(tokens).skip(k) =~= Seq::<RawSyntax>::empty());
    } else {
        lemma_reads_from(tokens, k + 1);
        lemma_reads_token(tokens, k);
        assert(seq![raw_form(tokens[k], offset(tokens, k))] + raw_forms(tokens).skip(k + 1)
            =~= raw_forms(tokens).skip(k));
    }
}

/// The text of a legible sequence of tokens is cut into the raw tokens of
/// the sequence.
pub proof fn lemma_written_tokenizes(tokens: Seq<Token>)
    requires
        legible(tokens),
        written(tokens).len() <= usize::MAX,
    ensures
        tokens_of(written(tokens)) == Ok::<Seq<RawSyntax>, EquationParseError>(raw_forms(tokens)),
{
    lemma_written_bounds(tokens);
    lemma_reads_from(tokens, 0);
    assert(raw_forms(tokens).skip(0) =~= raw_forms(tokens));
}

/// Whether a bar is open behind a token makes no difference to whether a
/// raw token that is no bar ends or begins a value.
proof fn lemma_raw_form_ends_begins(token: Token, start: int, pending: bool)
    requires
        token != Token::Abs,
    ensures
        ends_value(raw_form(token, start), pending) == token_ends(token),
        begins_value(raw_form(token, start), pending) == token_begins(token),
{
}

/// The raw token of a token of a legible sequence resolves, against the
/// written text, to the token itself, and no multiplication is implied in
/// front of it.
pub proof fn lemma_resolves_token(tokens: Seq<Token>, i: int)
    requires
        legible(tokens),
        0 <= i < tokens.len(),
        written(tokens).len() <= usize::MAX,
    ensures
        resolved_token(raw_forms(tokens)[i], written(tokens)) == Ok::<Token, EquationParseError>(
            tokens[i],
        ),
        !implied_product(raw_forms(tokens), i),
{
    let text = written(tokens);
    let raw = raw_forms(tokens);
    let token = tokens[i];
    lemma_written_token(tokens, i);
    assert(well_spelled(token));
    match token {
        Token::Function(function) => {
            lemma_function_name_round_trip(function);
        },
        _ => {},
    }
    if i > 0 {
        assert(apart(tokens[i - 1], tokens[i - 1 + 1]));
        assert(well_spelled(tokens[i - 1]));
        lemma_raw_form_ends_begins(tokens[i - 1], offset(tokens, i - 1), bar_pending(raw, i));
        lemma_raw_form_ends_begins(tokens[i], offset(tokens, i), bar_pending(raw, i));
    }
}

/// The first `n` raw tokens of a legible sequence resolve to its first `n`
/// tokens.
pub proof fn lemma_resolves_upto(tokens: Seq<Token>, n: int)
    requires
        legible(tokens),
        0 <= n <= tokens.len(),
        written(tokens).len() <= usize::MAX,
    ensures
        resolved_upto(raw_forms(tokens), written(tokens), n) == Ok::<
            Seq<Token>,
            EquationParseError,
        >(tokens.take(n)),
    decreases n,
{
    if n == 0 {
        assert(tokens.take(0) =~= Seq::<Token>::empty());
    } else {
        lemma_resolves_upto(tokens, n - 1);
        lemma_resolves_token(tokens, n - 1);
        assert(tokens.take(n - 1).push(tokens[n - 1]) =~= tokens.take(n));
    }
}

/// The raw tokens of a legible sequence resolve, against the written text,
/// to the sequence itself.
pub proof fn lemma_written_resolves(tokens: Seq<Token>)
    requires
        legible(tokens),
        written(tokens).len() <= usize::MAX,
    ensures
        resolved(raw_forms(tokens), written(tokens)) == Ok::<Seq<Token>, EquationParseError>(
            tokens,
        ),
{
    lemma_resolves_upto(tokens, tokens.len() as int);
    assert(tokens.take(tokens.len() as int) =~= tokens);
}

} // verus!
