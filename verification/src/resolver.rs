use crate::ast::{
    spans_fit, tokens_view, FunctionType, Operator, RawSyntax, Syntax, Token,
};
use crate::chars::{decimal_digit, name_char};
use crate::error::EquationParseError;
use crate::tokenizer::{in_run, names_run, spans_are_runs};
use vstd::prelude::*;
use vstd::std_specs::iter::IteratorSpec;

verus! {

/// Whether a text spells a decimal number: decimal digits, at least one,
/// with at most one decimal point among them.
pub open spec fn decimal_text(text: Seq<char>) -> bool {
    &&& forall|i: int| 0 <= i < text.len() ==> decimal_digit(#[trigger] text[i]) || text[i] == '.'
    &&& exists|i: int| 0 <= i < text.len() && decimal_digit(#[trigger] text[i])
    &&& forall|i: int, j: int|
        0 <= i < j < text.len() ==> !(#[trigger] text[i] == '.' && #[trigger] text[j] == '.')
}

/// Whether, behind the first `n` tokens, a bar is open and waits for the
/// bar that closes it. Bars pair off in the order in which they come: the
/// first opens, the second closes, the third opens again.
pub open spec fn bar_pending(raw: Seq<RawSyntax>, n: int) -> bool
    decreases n,
{
    if n <= 0 || n > raw.len() {
        false
    } else if raw[n - 1] == RawSyntax::Abs {
        !bar_pending(raw, n - 1)
    } else {
        bar_pending(raw, n - 1)
    }
}

/// Whether a token can end a value: a number, a name, a closing grouping
/// symbol, or a bar that leaves no bar open.
pub open spec fn ends_value(token: RawSyntax, pending_behind: bool) -> bool {
    match token {
        RawSyntax::ValueLit { .. } | RawSyntax::ValueIdent { .. } => true,
        RawSyntax::Parenthesis(p) => !p.opens(),
        RawSyntax::Abs => !pending_behind,
        _ => false,
    }
}

/// Whether a token can begin a value: a number, a name, a function, an
/// opening grouping symbol, or a bar that finds no bar open.
pub open spec fn begins_value(token: RawSyntax, pending_before: bool) -> bool {
    match token {
        RawSyntax::ValueLit { .. } | RawSyntax::ValueIdent { .. } | RawSyntax::Function {
            ..
        } => true,
        RawSyntax::Parenthesis(p) => p.opens(),
        RawSyntax::Abs => !pending_before,
        _ => false,
    }
}

/// Whether a multiplication is implied in front of token `i`: the token
/// before it ends a value and token `i` begins one.
pub open spec fn implied_product(raw: Seq<RawSyntax>, i: int) -> bool {
    &&& 0 < i < raw.len()
    &&& ends_value(raw[i - 1], bar_pending(raw, i))
    &&& begins_value(raw[i], bar_pending(raw, i))
}

/// What one raw token resolves to, taken by itself.
pub open spec fn resolved_token(token: RawSyntax, text: Seq<char>) -> Result<
    Token,
    EquationParseError,
> {
    match token {
        RawSyntax::ValueLit { start, end } => {
            let number = text.subrange(start as int, end as int);
            if decimal_text(number) {
                Ok(Token::ValueLit(number))
            } else {
                Err(EquationParseError::InvalidLiteral)
            }
        },
        RawSyntax::ValueIdent { start, end } => Ok(
            Token::ValueIdent(text.subrange(start as int, end as int)),
        ),
        RawSyntax::Function { start, end } => match FunctionType::named(
            text.subrange(start as int, end as int),
        ) {
            Some(function) => Ok(Token::Function(function)),
            None => Err(EquationParseError::UnknownFunction),
        },
        RawSyntax::Operator(operator) => Ok(Token::Operator(operator)),
        RawSyntax::Parenthesis(parenthesis) => Ok(Token::Parenthesis(parenthesis)),
        RawSyntax::Comma => Ok(Token::Comma),
        RawSyntax::Abs => Ok(Token::Abs),
    }
}

/// What the first `n` raw tokens resolve to: each token in its turn, with
/// a multiplication in front of it where one is implied. The first token
/// that fails to resolve fails the whole.
pub open spec fn resolved_upto(raw: Seq<RawSyntax>, text: Seq<char>, n: int) -> Result<
    Seq<Token>,
    EquationParseError,
>
    decreases n,
{
    if n <= 0 || n > raw.len() {
        Ok(Seq::empty())
    } else {
        match resolved_upto(raw, text, n - 1) {
            Err(e) => Err(e),
            Ok(before) => match resolved_token(raw[n - 1], text) {
                Err(e) => Err(e),
                Ok(token) => if implied_product(raw, n - 1) {
                    Ok(before.push(Token::Operator(Operator::Mul)).push(token))
                } else {
                    Ok(before.push(token))
                },
            },
        }
    }
}

/// What a whole sequence of raw tokens resolves to.
pub open spec fn resolved(raw: Seq<RawSyntax>, text: Seq<char>) -> Result<
    Seq<Token>,
    EquationParseError,
> {
    resolved_upto(raw, text, raw.len() as int)
}

/// Whether a token holds what the text of an equation can give: a number
/// that is a decimal number, a name that is made of letters.
pub open spec fn sound_token(token: Token) -> bool {
    match token {
        Token::ValueLit(text) => decimal_text(text),
        Token::ValueIdent(name) => name.len() > 0 && forall|i: int|
            0 <= i < name.len() ==> name_char(#[trigger] name[i]),
        _ => true,
    }
}

/// Whether every token of a sequence is sound.
pub open spec fn sound(tokens: Seq<Token>) -> bool {
    forall|i: int| 0 <= i < tokens.len() ==> sound_token(#[trigger] tokens[i])
}

/// Raw tokens that name runs of their class resolve to sound tokens.
pub proof fn lemma_resolved_sound(raw: Seq<RawSyntax>, text: Seq<char>, n: int)
    requires
        spans_are_runs(raw, text),
        0 <= n <= raw.len(),
        resolved_upto(raw, text, n) is Ok,
    ensures
        sound(resolved_upto(raw, text, n)->Ok_0),
    decreases n,
{
    if n > 0 {
        lemma_resolved_sound(raw, text, n - 1);
        let before = resolved_upto(raw, text, n - 1)->Ok_0;
        let token = resolved_token(raw[n - 1], text)->Ok_0;
        let all = resolved_upto(raw, text, n)->Ok_0;
        assert(names_run(raw[n - 1], text));
        assert(sound_token(token)) by {
            if let RawSyntax::ValueIdent { start, end } = raw[n - 1] {
                let name = text.subrange(start as int, end as int);
                assert forall|i: int| 0 <= i < name.len() implies name_char(#[trigger] name[i]) by {
                    assert(in_run(text[start as int + i], false));
                }
            }
        }
        assert forall|i: int| 0 <= i < all.len() implies sound_token(#[trigger] all[i]) by {
            if i < before.len() {
                assert(all[i] == before[i]);
            }
        }
    }
}

/// Tells whether a text spells a decimal number.
pub fn is_decimal(text: &str) -> (decimal: bool)
    ensures
        decimal == decimal_text(text@),
{
    broadcast use vstd::string::group_string_axioms;

    let mut chars = text.chars();
    let mut digit_seen = false;
    let mut point_seen = false;
    let ghost mut at: int = 0;
    let ghost mut digit_at: int = 0;
    let ghost mut point_at: int = 0;
    loop
        invariant
            0 <= at <= text@.len(),
            chars.obeys_prophetic_iter_laws(),
            chars.remaining() == text@.skip(at),
            forall|i: int| 0 <= i < at ==> decimal_digit(#[trigger] text@[i]) || text@[i] == '.',
            digit_seen ==> 0 <= digit_at < at && decimal_digit(text@[digit_at]),
            !digit_seen ==> forall|i: int| 0 <= i < at ==> !decimal_digit(#[trigger] text@[i]),
            point_seen ==> 0 <= point_at < at && text@[point_at] == '.',
            !point_seen ==> forall|i: int| 0 <= i < at ==> #[trigger] text@[i] != '.',
            forall|i: int, j: int|
                0 <= i < j < at ==> !(#[trigger] text@[i] == '.' && #[trigger] text@[j] == '.'),
        ensures
            at == text@.len(),
        decreases text@.len() - at,
    {
        let next = chars.next();
        if next.is_none() {
            break;
        }
        let c = next.unwrap();
        assert(c == text@[at]);
        if c == '.' {
            if point_seen {
                assert(text@[point_at] == '.' && text@[at] == '.');
                return false;
            }
            point_seen = true;
            proof {
                point_at = at;
            }
        } else if '0' <= c && c <= '9' {
            digit_seen = true;
            proof {
                digit_at = at;
            }
        } else {
            assert(!(decimal_digit(text@[at]) || text@[at] == '.'));
            return false;
        }
        proof {
            at = at + 1;
        }
    }
    digit_seen
}

/// Tells whether a token can end a value, given whether a bar is open
/// behind it.
pub fn can_end_value(token: &RawSyntax, pending_behind: bool) -> (can: bool)
    ensures
        can == ends_value(*token, pending_behind),
{
    match token {
        RawSyntax::ValueLit { .. } | RawSyntax::ValueIdent { .. } => true,
        RawSyntax::Parenthesis(p) => !p.is_opening(),
        RawSyntax::Abs => !pending_behind,
        _ => false,
    }
}

/// Tells whether a token can begin a value, given whether a bar is open
/// before it.
pub fn can_begin_value(token: &RawSyntax, pending_before: bool) -> (can: bool)
    ensures
        can == begins_value(*token, pending_before),
{
    match token {
        RawSyntax::ValueLit { .. } | RawSyntax::ValueIdent { .. } | RawSyntax::Function {
            ..
        } => true,
        RawSyntax::Parenthesis(p) => p.is_opening(),
        RawSyntax::Abs => !pending_before,
        _ => false,
    }
}

/// Once a token has failed to resolve, the failure stays, however many
/// tokens follow.
proof fn lemma_failure_stays(raw: Seq<RawSyntax>, text: Seq<char>, n: int, m: int)
    requires
        0 <= n <= m <= raw.len(),
        resolved_upto(raw, text, n) is Err,
    ensures
        resolved_upto(raw, text, m) == resolved_upto(raw, text, n),
    decreases m - n,
{
    if n < m {
        lemma_failure_stays(raw, text, n, m - 1);
    }
}

/// One token more in a sequence is one token more in its view.
proof fn lemma_tokens_view_push(tokens: Seq<Syntax<'_>>, token: Syntax<'_>)
    ensures
        tokens_view(tokens.push(token)) == tokens_view(tokens).push(token@),
{
    assert(tokens_view(tokens.push(token)) =~= tokens_view(tokens).push(token@));
}

/// Resolves raw tokens against the text they were cut from: numbers are
/// checked, names are cut out, function names are looked up, and a
/// multiplication is put between two tokens of which the first ends a value
/// and the second begins one.
///
/// The raw tokens have to name places within the text. The result is the
/// resolved sequence, or the failure of the first token that does not
/// resolve: `InvalidLiteral` for a number that is no decimal number,
/// `UnknownFunction` for a function name that is not in the table.
pub fn second_parse<'a>(ast: &[RawSyntax], equation: &'a str) -> (r: Result<
    Vec<Syntax<'a>>,
    EquationParseError,
>)
    requires
        spans_fit(ast@, equation@.len() as int),
    ensures
        match r {
            Ok(tokens) => resolved(ast@, equation@) == Ok::<Seq<Token>, EquationParseError>(
                tokens_view(tokens@),
            ),
            Err(e) => resolved(ast@, equation@) == Err::<Seq<Token>, EquationParseError>(e),
        },
{
    let ghost raw = ast@;
    let ghost text = equation@;
    let mut vec: Vec<Syntax<'a>> = Vec::with_capacity(ast.len());
    // Used for implicit multiplication.
    let mut previous_token: Option<RawSyntax> = None;
    let mut pending = false;
    let mut index: usize = 0;

    assert(tokens_view(vec@) =~= Seq::<Token>::empty());
    while index < ast.len()
        invariant
            raw == ast@,
            text == equation@,
            spans_fit(raw, text.len() as int),
            index <= raw.len(),
            pending == bar_pending(raw, index as int),
            previous_token == if index == 0 {
                None::<RawSyntax>
            } else {
                Some(raw[index as int - 1])
            },
            resolved_upto(raw, text, index as int) == Ok::<Seq<Token>, EquationParseError>(
                tokens_view(vec@),
            ),
        decreases raw.len() - index,
    {
        let token = ast[index];
        let ghost before = vec@;

        let implied = match previous_token {
            None => false,
            Some(previous) => can_end_value(&previous, pending) && can_begin_value(
                &token,
                pending,
            ),
        };
        assert(implied == implied_product(raw, index as int));
        if implied {
            proof {
                lemma_tokens_view_push(vec@, Syntax::Operator(Operator::Mul));
            }
            vec.push(Syntax::Operator(Operator::Mul));
        }
        let ghost between = vec@;

        assert(token == raw[index as int]);
        let resolved_one = match token {
            RawSyntax::ValueLit { start, end } => {
                let number = equation.substring_char(start, end);
                if is_decimal(number) {
                    Ok(Syntax::ValueLit(number))
                } else {
                    Err(EquationParseError::InvalidLiteral)
                }
            },
            RawSyntax::ValueIdent { start, end } => Ok(
                Syntax::ValueIdent(equation.substring_char(start, end)),
            ),
            RawSyntax::Operator(operator) => Ok(Syntax::Operator(operator)),
            RawSyntax::Parenthesis(parenthesis_type) => Ok(Syntax::Parenthesis(parenthesis_type)),
            RawSyntax::Function { start, end } => match FunctionType::from_str(
                equation.substring_char(start, end),
            ) {
                Ok(function) => Ok(Syntax::Function(function)),
                Err(e) => Err(e),
            },
            RawSyntax::Comma => Ok(Syntax::Comma),
            RawSyntax::Abs => Ok(Syntax::Abs),
        };
        match resolved_one {
            Ok(syntax) => {
                assert(resolved_token(token, text) == Ok::<Token, EquationParseError>(syntax@));
                proof {
                    lemma_tokens_view_push(vec@, syntax);
                }
                vec.push(syntax);
            },
            Err(e) => {
                assert(resolved_token(token, text) == Err::<Token, EquationParseError>(e));
                proof {
                    lemma_failure_stays(raw, text, index as int + 1, raw.len() as int);
                }
                return Err(e);
            },
        }
        if let RawSyntax::Abs = token {
            pending = !pending;
        }
        previous_token = Some(token);
        index = index + 1;
    }

    Ok(vec)
}

} // verus!
