use crate::ast::{RawSyntax, Token};
use crate::builder::{built, continued, operand, third_parse};
use crate::chars::name_char;
use crate::error::EquationParseError;
use crate::resolver::{decimal_text, resolved, resolved_token, resolved_upto, second_parse};
use crate::tokenizer::{first_parse, in_run, lemma_run_closes, run_token, tokens_of};
use crate::tree::{Expression, Tree};
use vstd::prelude::*;

verus! {

/// The expression tree of the text of an equation: the text is cut into
/// tokens, the tokens are resolved, and the resolved tokens are assembled.
/// The first stage that fails fails the whole.
pub open spec fn parsed(text: Seq<char>) -> Result<Tree, EquationParseError> {
    match tokens_of(text) {
        Err(e) => Err(e),
        Ok(raw) => match resolved(raw, text) {
            Err(e) => Err(e),
            Ok(tokens) => built(tokens),
        },
    }
}

/// Turns the text of an equation into an expression tree.
///
/// The tree borrows its numbers and names from the text. The result is the
/// tree of the text, or the failure of the first stage that fails. The
/// arena of the tree holds the nodes of the tree and no others, and the root
/// is the last of them.
pub fn parse<'a>(equation: &'a str) -> (r: Result<Expression<'a>, EquationParseError>)
    ensures
        parses_to(equation@, r),
        r matches Ok(expression) ==> {
            &&& expression.arena().len() == expression@.size()
            &&& expression.root_of() + 1 == expression.arena().len()
        },
{
    // first pass
    let first = match first_parse(equation) {
        Ok(first) => first,
        Err(e) => {
            return Err(e);
        },
    };
    // second pass
    let second = match second_parse(first.as_slice(), equation) {
        Ok(second) => second,
        Err(e) => {
            return Err(e);
        },
    };
    // third pass
    third_parse(second.as_slice())
}

/// Whether `r` is what parsing a text gives: a tree that is the expression
/// of the text, or the failure of the text.
pub open spec fn parses_to(text: Seq<char>, r: Result<Expression<'_>, EquationParseError>) -> bool {
    match r {
        Ok(expression) => parsed(text) == Ok::<Tree, EquationParseError>(expression@),
        Err(e) => parsed(text) == Err::<Tree, EquationParseError>(e),
    }
}

/// Parsing the same text twice gives the same expression twice, or the same
/// failure.
pub proof fn lemma_parsing_repeats(
    text: Seq<char>,
    once: Result<Expression<'_>, EquationParseError>,
    again: Result<Expression<'_>, EquationParseError>,
)
    requires
        parses_to(text, once),
        parses_to(text, again),
    ensures
        match (once, again) {
            (Ok(a), Ok(b)) => a@ == b@,
            (Err(a), Err(b)) => a == b,
            _ => false,
        },
{
}

/// A text that is one run of a single class is one token: the run covers
/// the whole text.
proof fn lemma_single_run(text: Seq<char>, number: bool)
    requires
        0 < text.len() <= usize::MAX,
        forall|i: int| 0 <= i < text.len() ==> in_run(#[trigger] text[i], number),
    ensures
        tokens_of(text) == Ok::<Seq<RawSyntax>, EquationParseError>(
            seq![run_token(text, 0, text.len() as int, number)],
        ),
{
    lemma_run_closes(text, 0, text.len() as int, number);
    assert(seq![run_token(text, 0, text.len() as int, number)] + Seq::<RawSyntax>::empty()
        =~= seq![run_token(text, 0, text.len() as int, number)]);
}

/// The text of a decimal number, digits with at most one decimal point
/// among them, parses to that number and nothing else: a tree of one node.
pub proof fn lemma_number_parses(text: Seq<char>)
    requires
        decimal_text(text),
        text.len() <= usize::MAX,
    ensures
        parsed(text) == Ok::<Tree, EquationParseError>(Tree::Literal(text)),
        Tree::Literal(text).size() == 1,
{
    let len = text.len() as int;
    assert forall|i: int| 0 <= i < len implies in_run(#[trigger] text[i], true) by {}
    lemma_single_run(text, true);
    let raw = seq![RawSyntax::ValueLit { start: 0, end: len as usize }];
    assert(text.subrange(0, len) =~= text);
    assert(resolved_upto(raw, text, 0) == Ok::<Seq<Token>, EquationParseError>(Seq::empty()));
    assert(resolved_token(raw[0], text) == Ok::<Token, EquationParseError>(Token::ValueLit(text)));
    let tokens = seq![Token::ValueLit(text)];
    assert(Seq::<Token>::empty().push(Token::ValueLit(text)) =~= tokens);
    assert(resolved(raw, text) == Ok::<Seq<Token>, EquationParseError>(tokens));
    assert(operand(tokens, 0, false) == Ok::<(Tree, int), EquationParseError>(
        (Tree::Literal(text), 1),
    ));
    assert(continued(tokens, Tree::Literal(text), 1, 0, false) == Ok::<
        (Tree, int),
        EquationParseError,
    >((Tree::Literal(text), 1)));
}

/// The text of a name, letters and nothing else, parses to that name and
/// nothing else: a tree of one node.
pub proof fn lemma_name_parses(text: Seq<char>)
    requires
        0 < text.len() <= usize::MAX,
        forall|i: int| 0 <= i < text.len() ==> name_char(#[trigger] text[i]),
    ensures
        parsed(text) == Ok::<Tree, EquationParseError>(Tree::Variable(text)),
        Tree::Variable(text).size() == 1,
{
    let len = text.len() as int;
    assert forall|i: int| 0 <= i < len implies in_run(#[trigger] text[i], false) by {}
    lemma_single_run(text, false);
    let raw = seq![RawSyntax::ValueIdent { start: 0, end: len as usize }];
    assert(text.subrange(0, len) =~= text);
    assert(resolved_upto(raw, text, 0) == Ok::<Seq<Token>, EquationParseError>(Seq::empty()));
    assert(resolved_token(raw[0], text) == Ok::<Token, EquationParseError>(
        Token::ValueIdent(text),
    ));
    let tokens = seq![Token::ValueIdent(text)];
    assert(Seq::<Token>::empty().push(Token::ValueIdent(text)) =~= tokens);
    assert(resolved(raw, text) == Ok::<Seq<Token>, EquationParseError>(tokens));
    assert(operand(tokens, 0, false) == Ok::<(Tree, int), EquationParseError>(
        (Tree::Variable(text), 1),
    ));
    assert(continued(tokens, Tree::Variable(text), 1, 0, false) == Ok::<
        (Tree, int),
        EquationParseError,
    >((Tree::Variable(text), 1)));
}

} // verus!
