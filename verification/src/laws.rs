use crate::ast::{FunctionType, Operator, ParenthesisType, RawSyntax, Token};
use crate::builder::{
    arguments, built, call_of, continued, expression, operand, operator_at, right_floor,
    scope_closed, Opener,
};
use crate::chars::{decimal_digit, name_char};
use crate::error::EquationParseError;
use crate::pipeline::parsed;
use crate::resolver::{bar_pending, decimal_text, implied_product, resolved, resolved_upto};
use crate::roundtrip::{
    flat, lemma_expression_of_flat, lemma_flat_ends, lemma_lone_operand, lemma_operand_of_flat,
    lemma_token_stands, proper, stands_at,
};
use crate::roundtrip::lemma_written_parses;
use crate::tokenizer::{in_run, lemma_run_closes, tokens_from, tokens_of};
use crate::tree::Tree;
use crate::written::{legible, written};
use vstd::prelude::*;

verus! {

/// Where the three parts of a sequence stand in it.
proof fn lemma_three_parts(a: Seq<Token>, b: Seq<Token>, c: Seq<Token>)
    ensures
        (a + b + c).len() == a.len() + b.len() + c.len(),
        stands_at(a + b + c, 0, a),
        stands_at(a + b + c, a.len() as int, b),
        stands_at(a + b + c, a.len() as int + b.len() as int, c),
{
    reveal(stands_at);
}

/// Where the five parts of a sequence stand in it.
proof fn lemma_five_parts(a: Seq<Token>, b: Seq<Token>, c: Seq<Token>, d: Seq<Token>, e: Seq<Token>)
    ensures
        (a + b + c + d + e).len() == a.len() + b.len() + c.len() + d.len() + e.len(),
        stands_at(a + b + c + d + e, 0, a),
        stands_at(a + b + c + d + e, a.len() as int, b),
        stands_at(a + b + c + d + e, a.len() as int + b.len() as int, c),
        stands_at(a + b + c + d + e, a.len() as int + b.len() as int + c.len() as int, d),
        stands_at(
            a + b + c + d + e,
            a.len() as int + b.len() as int + c.len() as int + d.len() as int,
            e,
        ),
{
    reveal(stands_at);
}

/// An expression between an opening and a closing grouping symbol is that
/// expression if the two symbols are of one pair, whichever pair it is, and
/// a mismatch if they are not.
pub proof fn lemma_grouping(open: ParenthesisType, tree: Tree, close: ParenthesisType)
    requires
        proper(tree),
        open.opens(),
        !close.opens(),
    ensures
        built(seq![Token::Parenthesis(open)] + flat(tree) + seq![Token::Parenthesis(close)]) == (
        if open.partner() == close {
            Ok::<Tree, EquationParseError>(tree)
        } else {
            Err::<Tree, EquationParseError>(EquationParseError::MismatchedGrouping)
        }),
{
    let first = seq![Token::Parenthesis(open)];
    let last = seq![Token::Parenthesis(close)];
    let tokens = first + flat(tree) + last;
    let end = 1 + flat(tree).len() as int;
    lemma_three_parts(first, flat(tree), last);
    lemma_token_stands(tokens, 0, first, 0);
    lemma_token_stands(tokens, end, last, 0);
    lemma_expression_of_flat(tokens, 1, tree, 0, false);
    if open.partner() == close {
        assert(scope_closed(tokens, end, Opener::Grouping(open)) == Ok::<int, EquationParseError>(
            end + 1,
        ));
        assert(operand(tokens, 0, false) == Ok::<(Tree, int), EquationParseError>(
            (tree, end + 1),
        ));
        lemma_lone_operand(tokens, 0, tree, end + 1, 0, false);
    } else {
        assert(scope_closed(tokens, end, Opener::Grouping(open)) == Err::<int, EquationParseError>(
            EquationParseError::MismatchedGrouping,
        ));
    }
}

/// An opening grouping symbol and an expression with nothing to close the
/// scope are unbalanced.
pub proof fn lemma_never_closed(open: ParenthesisType, tree: Tree)
    requires
        proper(tree),
        open.opens(),
    ensures
        built(seq![Token::Parenthesis(open)] + flat(tree)) == Err::<Tree, EquationParseError>(
            EquationParseError::UnbalancedGrouping,
        ),
{
    let first = seq![Token::Parenthesis(open)];
    let tokens = first + flat(tree);
    let end = 1 + flat(tree).len() as int;
    assert(tokens =~= first + flat(tree) + Seq::<Token>::empty());
    lemma_three_parts(first, flat(tree), Seq::empty());
    lemma_token_stands(tokens, 0, first, 0);
    lemma_expression_of_flat(tokens, 1, tree, 0, false);
    assert(scope_closed(tokens, end, Opener::Grouping(open)) == Err::<int, EquationParseError>(
        EquationParseError::UnbalancedGrouping,
    ));
}

/// An expression and a closing grouping symbol with nothing that opened the
/// scope are unbalanced.
pub proof fn lemma_never_opened(tree: Tree, close: ParenthesisType)
    requires
        proper(tree),
        !close.opens(),
    ensures
        built(flat(tree) + seq![Token::Parenthesis(close)]) == Err::<Tree, EquationParseError>(
            EquationParseError::UnbalancedGrouping,
        ),
{
    let last = seq![Token::Parenthesis(close)];
    let tokens = flat(tree) + last;
    let end = flat(tree).len() as int;
    assert(tokens =~= Seq::<Token>::empty() + flat(tree) + last);
    lemma_three_parts(Seq::empty(), flat(tree), last);
    lemma_token_stands(tokens, end, last, 0);
    lemma_expression_of_flat(tokens, 0, tree, 0, false);
}

/// An expression between two bars is the absolute value of the expression.
pub proof fn lemma_between_bars(tree: Tree)
    requires
        proper(tree),
    ensures
        built(seq![Token::Abs] + flat(tree) + seq![Token::Abs]) == Ok::<Tree, EquationParseError>(
            Tree::Call1(FunctionType::Abs, Box::new(tree)),
        ),
{
    let bar = seq![Token::Abs];
    let tokens = bar + flat(tree) + bar;
    let end = 1 + flat(tree).len() as int;
    let whole = Tree::Call1(FunctionType::Abs, Box::new(tree));
    lemma_three_parts(bar, flat(tree), bar);
    lemma_token_stands(tokens, 0, bar, 0);
    lemma_token_stands(tokens, end, bar, 0);
    lemma_expression_of_flat(tokens, 1, tree, 0, true);
    assert(scope_closed(tokens, end, Opener::Bar) == Ok::<int, EquationParseError>(end + 1));
    assert(operand(tokens, 0, false) == Ok::<(Tree, int), EquationParseError>((whole, end + 1)));
    lemma_lone_operand(tokens, 0, whole, end + 1, 0, false);
}

/// Two expressions, each between two bars, with an operator between the
/// second and the third bar, are two absolute values under the operator:
/// the bars pair off in the order in which they come.
pub proof fn lemma_two_bar_scopes(a: Tree, p: Operator, b: Tree)
    requires
        proper(a),
        proper(b),
    ensures
        built(
            seq![Token::Abs] + flat(a) + seq![Token::Abs, Token::Operator(p), Token::Abs] + flat(
                b,
            ) + seq![Token::Abs],
        ) == Ok::<Tree, EquationParseError>(
            Tree::Binary(
                p,
                Box::new(Tree::Call1(FunctionType::Abs, Box::new(a))),
                Box::new(Tree::Call1(FunctionType::Abs, Box::new(b))),
            ),
        ),
{
    let bar = seq![Token::Abs];
    let middle = seq![Token::Abs, Token::Operator(p), Token::Abs];
    let tokens = bar + flat(a) + middle + flat(b) + bar;
    let first_end = 1 + flat(a).len() as int;
    let at_p = first_end + 1;
    let second_end = at_p + 2 + flat(b).len() as int;
    let end = second_end + 1;
    let left = Tree::Call1(FunctionType::Abs, Box::new(a));
    let right = Tree::Call1(FunctionType::Abs, Box::new(b));
    let whole = Tree::Binary(p, Box::new(left), Box::new(right));
    lemma_five_parts(bar, flat(a), middle, flat(b), bar);
    lemma_token_stands(tokens, 0, bar, 0);
    lemma_token_stands(tokens, first_end, middle, 0);
    lemma_token_stands(tokens, first_end, middle, 1);
    lemma_token_stands(tokens, first_end, middle, 2);
    lemma_token_stands(tokens, second_end, bar, 0);
    lemma_expression_of_flat(tokens, 1, a, 0, true);
    assert(scope_closed(tokens, first_end, Opener::Bar) == Ok::<int, EquationParseError>(at_p));
    assert(operand(tokens, 0, false) == Ok::<(Tree, int), EquationParseError>((left, at_p)));
    lemma_expression_of_flat(tokens, at_p + 2, b, 0, true);
    assert(scope_closed(tokens, second_end, Opener::Bar) == Ok::<int, EquationParseError>(end));
    assert(operand(tokens, at_p + 1, false) == Ok::<(Tree, int), EquationParseError>(
        (right, end),
    ));
    lemma_lone_operand(tokens, at_p + 1, right, end, right_floor(p), false);
    assert(operator_at(tokens, at_p) == Some(p));
    assert(continued(tokens, whole, end, 0, false) == Ok::<(Tree, int), EquationParseError>(
        (whole, end),
    ));
    assert(continued(tokens, left, at_p, 0, false) == Ok::<(Tree, int), EquationParseError>(
        (whole, end),
    ));
}

/// A function with one expression in round brackets is the call of the
/// function if the function takes one argument, and has the wrong number of
/// arguments if it takes two.
pub proof fn lemma_one_argument(function: FunctionType, argument: Tree)
    requires
        proper(argument),
    ensures
        built(
            seq![Token::Function(function), Token::Parenthesis(ParenthesisType::Open)] + flat(
                argument,
            ) + seq![Token::Parenthesis(ParenthesisType::Close)],
        ) == (if function.arguments() == 1 {
            Ok::<Tree, EquationParseError>(Tree::Call1(function, Box::new(argument)))
        } else {
            Err::<Tree, EquationParseError>(
                EquationParseError::WrongArity { expected: 2, found: 1 },
            )
        }),
{
    let head = seq![Token::Function(function), Token::Parenthesis(ParenthesisType::Open)];
    let close = seq![Token::Parenthesis(ParenthesisType::Close)];
    let tokens = head + flat(argument) + close;
    let end = 2 + flat(argument).len() as int;
    lemma_three_parts(head, flat(argument), close);
    lemma_token_stands(tokens, 0, head, 0);
    lemma_token_stands(tokens, 0, head, 1);
    lemma_token_stands(tokens, end, close, 0);
    lemma_expression_of_flat(tokens, 2, argument, 0, false);
    assert(arguments(tokens, 2, false) == Ok::<(Seq<Tree>, int), EquationParseError>(
        (seq![argument], end),
    ));
    assert(scope_closed(tokens, end, Opener::Grouping(ParenthesisType::Open)) == Ok::<
        int,
        EquationParseError,
    >(end + 1));
    if function.arguments() == 1 {
        let whole = Tree::Call1(function, Box::new(argument));
        assert(call_of(function, seq![argument]) == Ok::<Tree, EquationParseError>(whole));
        assert(operand(tokens, 0, false) == Ok::<(Tree, int), EquationParseError>(
            (whole, end + 1),
        ));
        lemma_lone_operand(tokens, 0, whole, end + 1, 0, false);
    } else {
        assert(call_of(function, seq![argument]) == Err::<Tree, EquationParseError>(
            EquationParseError::WrongArity { expected: 2, found: 1 },
        ));
    }
}

/// A function with two expressions in round brackets, a comma between
/// them, is the call of the function if the function takes two arguments,
/// and has the wrong number of arguments if it takes one.
pub proof fn lemma_two_arguments(function: FunctionType, first: Tree, second: Tree)
    requires
        proper(first),
        proper(second),
    ensures
        built(
            seq![Token::Function(function), Token::Parenthesis(ParenthesisType::Open)] + flat(
                first,
            ) + seq![Token::Comma] + flat(second) + seq![
                Token::Parenthesis(ParenthesisType::Close),
            ],
        ) == (if function.arguments() == 2 {
            Ok::<Tree, EquationParseError>(
                Tree::Call2(function, Box::new(first), Box::new(second)),
            )
        } else {
            Err::<Tree, EquationParseError>(
                EquationParseError::WrongArity { expected: 1, found: 2 },
            )
        }),
{
    let head = seq![Token::Function(function), Token::Parenthesis(ParenthesisType::Open)];
    let comma = seq![Token::Comma];
    let close = seq![Token::Parenthesis(ParenthesisType::Close)];
    let tokens = head + flat(first) + comma + flat(second) + close;
    let at_comma = 2 + flat(first).len() as int;
    let end = at_comma + 1 + flat(second).len() as int;
    lemma_five_parts(head, flat(first), comma, flat(second), close);
    lemma_token_stands(tokens, 0, head, 0);
    lemma_token_stands(tokens, 0, head, 1);
    lemma_token_stands(tokens, at_comma, comma, 0);
    lemma_token_stands(tokens, end, close, 0);
    lemma_expression_of_flat(tokens, 2, first, 0, false);
    lemma_expression_of_flat(tokens, at_comma + 1, second, 0, false);
    assert(arguments(tokens, at_comma + 1, false) == Ok::<(Seq<Tree>, int), EquationParseError>(
        (seq![second], end),
    ));
    let both = seq![first] + seq![second];
    assert(arguments(tokens, 2, false) == Ok::<(Seq<Tree>, int), EquationParseError>(
        (both, end),
    ));
    assert(both.len() == 2 && both[0] == first && both[1] == second);
    assert(scope_closed(tokens, end, Opener::Grouping(ParenthesisType::Open)) == Ok::<
        int,
        EquationParseError,
    >(end + 1));
    if function.arguments() == 2 {
        let whole = Tree::Call2(function, Box::new(first), Box::new(second));
        assert(call_of(function, both) == Ok::<Tree, EquationParseError>(whole));
        assert(operand(tokens, 0, false) == Ok::<(Tree, int), EquationParseError>(
            (whole, end + 1),
        ));
        lemma_lone_operand(tokens, 0, whole, end + 1, 0, false);
    } else {
        assert(call_of(function, both) == Err::<Tree, EquationParseError>(
            EquationParseError::WrongArity { expected: 1, found: 2 },
        ));
    }
}

/// Three operands with two operators between them fold by the binding of
/// the operators. Where the second operator binds more tightly than the
/// first, or as tightly and both group from the right, the second and the
/// third operand go together first; otherwise the first and the second do.
pub proof fn lemma_two_operators(a: Tree, p: Operator, b: Tree, q: Operator, c: Tree)
    requires
        proper(a),
        proper(b),
        proper(c),
    ensures
        built(
            flat(a) + seq![Token::Operator(p)] + flat(b) + seq![Token::Operator(q)] + flat(c),
        ) == Ok::<Tree, EquationParseError>(
            if q.binding() > p.binding() || (q.binding() == p.binding() && p.groups_right()) {
                Tree::Binary(
                    p,
                    Box::new(a),
                    Box::new(Tree::Binary(q, Box::new(b), Box::new(c))),
                )
            } else {
                Tree::Binary(
                    q,
                    Box::new(Tree::Binary(p, Box::new(a), Box::new(b))),
                    Box::new(c),
                )
            },
        ),
{
    let first = seq![Token::Operator(p)];
    let second = seq![Token::Operator(q)];
    let tokens = flat(a) + first + flat(b) + second + flat(c);
    let at_p = flat(a).len() as int;
    let at_q = at_p + 1 + flat(b).len() as int;
    let end = at_q + 1 + flat(c).len() as int;
    lemma_five_parts(flat(a), first, flat(b), second, flat(c));
    lemma_token_stands(tokens, at_p, first, 0);
    lemma_token_stands(tokens, at_q, second, 0);
    lemma_flat_ends(a);
    lemma_flat_ends(b);
    lemma_flat_ends(c);
    lemma_operand_of_flat(tokens, 0, a, false);
    lemma_operand_of_flat(tokens, at_p + 1, b, false);
    assert(operator_at(tokens, at_p) == Some(p));
    assert(operator_at(tokens, at_q) == Some(q));
    assert(operator_at(tokens, end) is None);
    if q.binding() >= right_floor(p) {
        let right = Tree::Binary(q, Box::new(b), Box::new(c));
        let whole = Tree::Binary(p, Box::new(a), Box::new(right));
        lemma_expression_of_flat(tokens, at_q + 1, c, right_floor(q), false);
        assert(continued(tokens, right, end, right_floor(p), false) == Ok::<
            (Tree, int),
            EquationParseError,
        >((right, end)));
        assert(continued(tokens, b, at_q, right_floor(p), false) == Ok::<
            (Tree, int),
            EquationParseError,
        >((right, end)));
        assert(expression(tokens, at_p + 1, right_floor(p), false) == Ok::<
            (Tree, int),
            EquationParseError,
        >((right, end)));
        assert(continued(tokens, whole, end, 0, false) == Ok::<(Tree, int), EquationParseError>(
            (whole, end),
        ));
        assert(continued(tokens, a, at_p, 0, false) == Ok::<(Tree, int), EquationParseError>(
            (whole, end),
        ));
    } else {
        let left = Tree::Binary(p, Box::new(a), Box::new(b));
        let whole = Tree::Binary(q, Box::new(left), Box::new(c));
        lemma_expression_of_flat(tokens, at_q + 1, c, right_floor(q), false);
        assert(continued(tokens, b, at_q, right_floor(p), false) == Ok::<
            (Tree, int),
            EquationParseError,
        >((b, at_q)));
        assert(expression(tokens, at_p + 1, right_floor(p), false) == Ok::<
            (Tree, int),
            EquationParseError,
        >((b, at_q)));
        assert(continued(tokens, whole, end, 0, false) == Ok::<(Tree, int), EquationParseError>(
            (whole, end),
        ));
        assert(continued(tokens, left, at_q, 0, false) == Ok::<(Tree, int), EquationParseError>(
            (whole, end),
        ));
        assert(continued(tokens, a, at_p, 0, false) == Ok::<(Tree, int), EquationParseError>(
            (whole, end),
        ));
    }
}

/// Two operands with an operator between them are the operation of the
/// operator on the two.
pub proof fn lemma_one_operator(a: Tree, p: Operator, b: Tree)
    requires
        proper(a),
        proper(b),
    ensures
        built(flat(a) + seq![Token::Operator(p)] + flat(b)) == Ok::<Tree, EquationParseError>(
            Tree::Binary(p, Box::new(a), Box::new(b)),
        ),
{
    let middle = seq![Token::Operator(p)];
    let tokens = flat(a) + middle + flat(b);
    let at_p = flat(a).len() as int;
    let end = at_p + 1 + flat(b).len() as int;
    let whole = Tree::Binary(p, Box::new(a), Box::new(b));
    lemma_three_parts(flat(a), middle, flat(b));
    lemma_token_stands(tokens, at_p, middle, 0);
    lemma_flat_ends(a);
    lemma_flat_ends(b);
    lemma_operand_of_flat(tokens, 0, a, false);
    lemma_expression_of_flat(tokens, at_p + 1, b, right_floor(p), false);
    assert(operator_at(tokens, at_p) == Some(p));
    assert(continued(tokens, whole, end, 0, false) == Ok::<(Tree, int), EquationParseError>(
        (whole, end),
    ));
    assert(continued(tokens, a, at_p, 0, false) == Ok::<(Tree, int), EquationParseError>(
        (whole, end),
    ));
}

/// A number with a name right behind it is the product of the two: the
/// text parses to what it parses to with `*` between the number and the
/// name.
pub proof fn lemma_number_before_name(number: Seq<char>, name: Seq<char>)
    requires
        decimal_text(number),
        name.len() > 0,
        forall|i: int| 0 <= i < name.len() ==> name_char(#[trigger] name[i]),
        number.len() + name.len() < usize::MAX,
    ensures
        parsed(number + name) == Ok::<Tree, EquationParseError>(
            Tree::Binary(
                Operator::Mul,
                Box::new(Tree::Literal(number)),
                Box::new(Tree::Variable(name)),
            ),
        ),
        parsed(number + name) == parsed(number + seq!['*'] + name),
{
    let whole = Tree::Binary(
        Operator::Mul,
        Box::new(Tree::Literal(number)),
        Box::new(Tree::Variable(name)),
    );
    let written_out = seq![
        Token::ValueLit(number),
        Token::Operator(Operator::Mul),
        Token::ValueIdent(name),
    ];
    assert(written_out =~= flat(Tree::Literal(number)) + seq![Token::Operator(Operator::Mul)]
        + flat(Tree::Variable(name)));
    lemma_one_operator(Tree::Literal(number), Operator::Mul, Tree::Variable(name));

    // With the operator written out.
    assert(legible(written_out));
    lemma_written_three(
        Token::ValueLit(number),
        Token::Operator(Operator::Mul),
        Token::ValueIdent(name),
    );
    lemma_written_parses(written_out);

    // With the operator left out.
    let text = number + name;
    let split = number.len() as int;
    let end = text.len() as int;
    assert forall|k: int| 0 <= k < split implies in_run(#[trigger] text[k], true) by {
        assert(text[k] == number[k]);
        assert(decimal_digit(number[k]) || number[k] == '.');
    }
    assert forall|k: int| split <= k < end implies in_run(#[trigger] text[k], false) by {
        assert(text[k] == name[k - split]);
    }
    assert(text[split] == name[0]);
    lemma_run_closes(text, 0, split, true);
    lemma_run_closes(text, split, end, false);
    let raw = seq![
        RawSyntax::ValueLit { start: 0, end: split as usize },
        RawSyntax::ValueIdent { start: split as usize, end: end as usize },
    ];
    assert(tokens_from(text, end) == Ok::<Seq<RawSyntax>, EquationParseError>(Seq::empty()));
    assert(tokens_of(text) == Ok::<Seq<RawSyntax>, EquationParseError>(raw)) by {
        assert(seq![raw[1]] + Seq::<RawSyntax>::empty() =~= seq![raw[1]]);
        assert(seq![raw[0]] + seq![raw[1]] =~= raw);
    }
    assert(text.subrange(0, split) =~= number);
    assert(text.subrange(split, end) =~= name);
    assert(resolved_upto(raw, text, 0) == Ok::<Seq<Token>, EquationParseError>(Seq::empty()));
    assert(bar_pending(raw, 0) == false);
    assert(bar_pending(raw, 1) == false);
    assert(!implied_product(raw, 0));
    assert(implied_product(raw, 1));
    assert(resolved_upto(raw, text, 1) == Ok::<Seq<Token>, EquationParseError>(
        Seq::<Token>::empty().push(Token::ValueLit(number)),
    ));
    assert(Seq::<Token>::empty().push(Token::ValueLit(number)).push(
        Token::Operator(Operator::Mul),
    ).push(Token::ValueIdent(name)) =~= written_out);
    assert(resolved(raw, text) == Ok::<Seq<Token>, EquationParseError>(written_out));
}

/// Three tokens are written as their three spellings one behind the other.
proof fn lemma_written_three(a: Token, b: Token, c: Token)
    ensures
        written(seq![a, b, c]) == a.spelled() + b.spelled() + c.spelled(),
{
    let all = seq![a, b, c];
    let two = seq![a, b];
    let one = seq![a];
    assert(all.drop_last() =~= two);
    assert(two.drop_last() =~= one);
    assert(one.drop_last() =~= Seq::<Token>::empty());
    assert(written(Seq::<Token>::empty()) =~= Seq::<char>::empty());
    assert(written(one) =~= a.spelled());
    assert(written(two) =~= a.spelled() + b.spelled());
}

} // verus!
