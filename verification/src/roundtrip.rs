use crate::ast::{FunctionType, Operator, ParenthesisType, Token};
use crate::builder::{
    arguments, built, call_of, continued, expression, operand, operator_at, right_floor,
    scope_closed, Opener,
};
use crate::chars::name_char;
use crate::error::EquationParseError;
use crate::resolver::{decimal_text, lemma_resolved_sound, resolved, sound, sound_token};
use crate::tokenizer::{lemma_tokens_are_runs, tokens_of};
use crate::pipeline::parsed;
use crate::printer::infix;
use crate::tree::Tree;
use crate::written::{
    apart, legible, lemma_written_concat, lemma_written_resolves, lemma_written_tokenizes,
    well_spelled, written,
};
use vstd::prelude::*;

verus! {

/// The tokens that write an expression down in infix notation, with every
/// operation in round brackets.
pub open spec fn flat(tree: Tree) -> Seq<Token>
    decreases tree,
{
    match tree {
        Tree::Literal(text) => seq![Token::ValueLit(text)],
        Tree::Variable(name) => seq![Token::ValueIdent(name)],
        Tree::Binary(operator, left, right) => seq![Token::Parenthesis(ParenthesisType::Open)]
            + flat(*left) + seq![Token::Operator(operator)] + flat(*right)
            + seq![Token::Parenthesis(ParenthesisType::Close)],
        Tree::Call1(function, argument) => seq![
            Token::Function(function),
            Token::Parenthesis(ParenthesisType::Open),
        ] + flat(*argument) + seq![Token::Parenthesis(ParenthesisType::Close)],
        Tree::Call2(function, first, second) => seq![
            Token::Function(function),
            Token::Parenthesis(ParenthesisType::Open),
        ] + flat(*first) + seq![Token::Comma] + flat(*second)
            + seq![Token::Parenthesis(ParenthesisType::Close)],
    }
}

/// Whether an expression is one that the parser can give: its numbers are
/// decimal numbers, its names are letters, and every function has as many
/// arguments as it takes.
pub open spec fn proper(tree: Tree) -> bool
    decreases tree,
{
    match tree {
        Tree::Literal(text) => decimal_text(text),
        Tree::Variable(name) => name.len() > 0 && forall|i: int|
            0 <= i < name.len() ==> name_char(#[trigger] name[i]),
        Tree::Binary(_, left, right) => proper(*left) && proper(*right),
        Tree::Call1(function, argument) => function.arguments() == 1 && proper(*argument),
        Tree::Call2(function, first, second) => function.arguments() == 2 && proper(*first)
            && proper(*second),
    }
}

/// Whether a piece of tokens stands in a sequence of tokens from `pos` on.
#[verifier::opaque]
pub open spec fn stands_at(tokens: Seq<Token>, pos: int, piece: Seq<Token>) -> bool {
    &&& 0 <= pos
    &&& pos + piece.len() <= tokens.len()
    &&& forall|i: int| 0 <= i < piece.len() ==> tokens[pos + i] == #[trigger] piece[i]
}

/// The tokens of an expression begin with a token that begins a value and
/// end with a number, a name or a closing round bracket.
pub proof fn lemma_flat_ends(tree: Tree)
    ensures
        flat(tree).len() > 0,
        match flat(tree).last() {
            Token::ValueLit(_) | Token::ValueIdent(_) => true,
            Token::Parenthesis(p) => p == ParenthesisType::Close,
            _ => false,
        },
        match flat(tree)[0] {
            Token::ValueLit(_) | Token::ValueIdent(_) | Token::Function(_) => true,
            Token::Parenthesis(p) => p == ParenthesisType::Open,
            _ => false,
        },
    decreases tree,
{
    match tree {
        Tree::Binary(_, left, right) => {
            lemma_flat_ends(*left);
            lemma_flat_ends(*right);
        },
        Tree::Call1(_, argument) => {
            lemma_flat_ends(*argument);
        },
        Tree::Call2(_, first, second) => {
            lemma_flat_ends(*first);
            lemma_flat_ends(*second);
        },
        _ => {},
    }
}

/// A part of a piece stands where the piece puts it.
pub proof fn lemma_part_stands(
    tokens: Seq<Token>,
    pos: int,
    piece: Seq<Token>,
    offset: int,
    part: Seq<Token>,
)
    requires
        stands_at(tokens, pos, piece),
        stands_at(piece, offset, part),
    ensures
        stands_at(tokens, pos + offset, part),
{
    reveal(stands_at);
    assert forall|i: int| 0 <= i < part.len() implies tokens[pos + offset + i]
        == #[trigger] part[i] by {
        assert(piece[offset + i] == part[i]);
        assert(tokens[pos + (offset + i)] == piece[offset + i]);
    }
}

/// Where the pieces of an operation in round brackets stand.
proof fn lemma_binary_layout(operator: Operator, l: Seq<Token>, r: Seq<Token>)
    ensures
        ({
            let piece = seq![Token::Parenthesis(ParenthesisType::Open)] + l + seq![
                Token::Operator(operator),
            ] + r + seq![Token::Parenthesis(ParenthesisType::Close)];
            &&& piece.len() == l.len() + r.len() + 3
            &&& piece[0] == Token::Parenthesis(ParenthesisType::Open)
            &&& stands_at(piece, 1, l)
            &&& piece[1 + l.len() as int] == Token::Operator(operator)
            &&& stands_at(piece, 2 + l.len() as int, r)
            &&& piece[2 + l.len() as int + r.len() as int] == Token::Parenthesis(
                ParenthesisType::Close,
            )
        }),
{
    reveal(stands_at);
}

/// Where the pieces of a call with one argument stand.
proof fn lemma_call1_layout(function: FunctionType, a: Seq<Token>)
    ensures
        ({
            let piece = seq![Token::Function(function), Token::Parenthesis(ParenthesisType::Open)]
                + a + seq![Token::Parenthesis(ParenthesisType::Close)];
            &&& piece.len() == a.len() + 3
            &&& piece[0] == Token::Function(function)
            &&& piece[1] == Token::Parenthesis(ParenthesisType::Open)
            &&& stands_at(piece, 2, a)
            &&& piece[2 + a.len() as int] == Token::Parenthesis(ParenthesisType::Close)
        }),
{
    reveal(stands_at);
}

/// Where the pieces of a call with two arguments stand.
proof fn lemma_call2_layout(function: FunctionType, a: Seq<Token>, b: Seq<Token>)
    ensures
        ({
            let piece = seq![Token::Function(function), Token::Parenthesis(ParenthesisType::Open)]
                + a + seq![Token::Comma] + b + seq![Token::Parenthesis(ParenthesisType::Close)];
            &&& piece.len() == a.len() + b.len() + 4
            &&& piece[0] == Token::Function(function)
            &&& piece[1] == Token::Parenthesis(ParenthesisType::Open)
            &&& stands_at(piece, 2, a)
            &&& piece[2 + a.len() as int] == Token::Comma
            &&& stands_at(piece, 3 + a.len() as int, b)
            &&& piece[3 + a.len() as int + b.len() as int] == Token::Parenthesis(
                ParenthesisType::Close,
            )
        }),
{
    reveal(stands_at);
}

/// An operand followed by a token that is no operator is an expression.
pub proof fn lemma_lone_operand(
    tokens: Seq<Token>,
    pos: int,
    tree: Tree,
    next: int,
    floor: nat,
    in_bar: bool,
)
    requires
        operand(tokens, pos, in_bar) == Ok::<(Tree, int), EquationParseError>((tree, next)),
        pos < next <= tokens.len(),
        operator_at(tokens, next) is None,
    ensures
        expression(tokens, pos, floor, in_bar) == Ok::<(Tree, int), EquationParseError>(
            (tree, next),
        ),
{
}

/// An opening round bracket, an operand, an operator, an expression and a
/// closing round bracket are the operand that holds the operation.
proof fn lemma_binary_operand(
    tokens: Seq<Token>,
    pos: int,
    operator: Operator,
    left: Tree,
    at_operator: int,
    right: Tree,
    at_close: int,
    in_bar: bool,
)
    requires
        0 <= pos < pos + 1 < at_operator < at_operator + 1 < at_close < tokens.len(),
        tokens[pos] == Token::Parenthesis(ParenthesisType::Open),
        operand(tokens, pos + 1, in_bar) == Ok::<(Tree, int), EquationParseError>(
            (left, at_operator),
        ),
        tokens[at_operator] == Token::Operator(operator),
        expression(tokens, at_operator + 1, right_floor(operator), in_bar) == Ok::<
            (Tree, int),
            EquationParseError,
        >((right, at_close)),
        tokens[at_close] == Token::Parenthesis(ParenthesisType::Close),
    ensures
        operand(tokens, pos, in_bar) == Ok::<(Tree, int), EquationParseError>(
            (Tree::Binary(operator, Box::new(left), Box::new(right)), at_close + 1),
        ),
{
    let whole = Tree::Binary(operator, Box::new(left), Box::new(right));
    assert(operator_at(tokens, at_close) is None);
    assert(operator_at(tokens, at_operator) == Some(operator));
    assert(continued(tokens, whole, at_close, 0, in_bar) == Ok::<(Tree, int), EquationParseError>(
        (whole, at_close),
    ));
    assert(continued(tokens, left, at_operator, 0, in_bar) == Ok::<
        (Tree, int),
        EquationParseError,
    >((whole, at_close)));
    assert(expression(tokens, pos + 1, 0, in_bar) == Ok::<(Tree, int), EquationParseError>(
        (whole, at_close),
    ));
    assert(scope_closed(tokens, at_close, Opener::Grouping(ParenthesisType::Open)) == Ok::<
        int,
        EquationParseError,
    >(at_close + 1));
}

/// A function, an opening round bracket, an expression and a closing round
/// bracket are the operand that holds the call.
proof fn lemma_call1_operand(
    tokens: Seq<Token>,
    pos: int,
    function: FunctionType,
    argument: Tree,
    at_close: int,
    in_bar: bool,
)
    requires
        0 <= pos < pos + 2 < at_close < tokens.len(),
        function.arguments() == 1,
        tokens[pos] == Token::Function(function),
        tokens[pos + 1] == Token::Parenthesis(ParenthesisType::Open),
        expression(tokens, pos + 2, 0, in_bar) == Ok::<(Tree, int), EquationParseError>(
            (argument, at_close),
        ),
        tokens[at_close] == Token::Parenthesis(ParenthesisType::Close),
    ensures
        operand(tokens, pos, in_bar) == Ok::<(Tree, int), EquationParseError>(
            (Tree::Call1(function, Box::new(argument)), at_close + 1),
        ),
{
    assert(arguments(tokens, pos + 2, in_bar) == Ok::<(Seq<Tree>, int), EquationParseError>(
        (seq![argument], at_close),
    ));
    assert(scope_closed(tokens, at_close, Opener::Grouping(ParenthesisType::Open)) == Ok::<
        int,
        EquationParseError,
    >(at_close + 1));
    assert(call_of(function, seq![argument]) == Ok::<Tree, EquationParseError>(
        Tree::Call1(function, Box::new(argument)),
    ));
}

/// A function, an opening round bracket, two expressions with a comma
/// between them and a closing round bracket are the operand that holds the
/// call.
proof fn lemma_call2_operand(
    tokens: Seq<Token>,
    pos: int,
    function: FunctionType,
    first: Tree,
    at_comma: int,
    second: Tree,
    at_close: int,
    in_bar: bool,
)
    requires
        0 <= pos < pos + 2 < at_comma < at_comma + 1 < at_close < tokens.len(),
        function.arguments() == 2,
        tokens[pos] == Token::Function(function),
        tokens[pos + 1] == Token::Parenthesis(ParenthesisType::Open),
        expression(tokens, pos + 2, 0, in_bar) == Ok::<(Tree, int), EquationParseError>(
            (first, at_comma),
        ),
        tokens[at_comma] == Token::Comma,
        expression(tokens, at_comma + 1, 0, in_bar) == Ok::<(Tree, int), EquationParseError>(
            (second, at_close),
        ),
        tokens[at_close] == Token::Parenthesis(ParenthesisType::Close),
    ensures
        operand(tokens, pos, in_bar) == Ok::<(Tree, int), EquationParseError>(
            (Tree::Call2(function, Box::new(first), Box::new(second)), at_close + 1),
        ),
{
    assert(arguments(tokens, at_comma + 1, in_bar) == Ok::<(Seq<Tree>, int), EquationParseError>(
        (seq![second], at_close),
    ));
    let both = seq![first] + seq![second];
    assert(arguments(tokens, pos + 2, in_bar) == Ok::<(Seq<Tree>, int), EquationParseError>(
        (both, at_close),
    ));
    assert(scope_closed(tokens, at_close, Opener::Grouping(ParenthesisType::Open)) == Ok::<
        int,
        EquationParseError,
    >(at_close + 1));
    assert(both.len() == 2 && both[0] == first && both[1] == second);
    assert(call_of(function, both) == Ok::<Tree, EquationParseError>(
        Tree::Call2(function, Box::new(first), Box::new(second)),
    ));
}

/// A token of a piece stands where the piece puts it.
pub proof fn lemma_token_stands(tokens: Seq<Token>, pos: int, piece: Seq<Token>, i: int)
    requires
        stands_at(tokens, pos, piece),
        0 <= i < piece.len(),
    ensures
        0 <= pos + i < tokens.len(),
        tokens[pos + i] == piece[i],
{
    reveal(stands_at);
}

/// Where the tokens of an operation stand, its pieces stand.
proof fn lemma_binary_parts(
    tokens: Seq<Token>,
    pos: int,
    operator: Operator,
    left: Tree,
    right: Tree,
)
    requires
        stands_at(tokens, pos, flat(Tree::Binary(operator, Box::new(left), Box::new(right)))),
    ensures
        ({
            let at_operator = pos + 1 + flat(left).len();
            let at_close = at_operator + 1 + flat(right).len();
            &&& 0 <= pos
            &&& at_close < tokens.len()
            &&& flat(Tree::Binary(operator, Box::new(left), Box::new(right))).len() == flat(
                left,
            ).len() + flat(right).len() + 3
            &&& tokens[pos] == Token::Parenthesis(ParenthesisType::Open)
            &&& stands_at(tokens, pos + 1, flat(left))
            &&& tokens[at_operator] == Token::Operator(operator)
            &&& stands_at(tokens, at_operator + 1, flat(right))
            &&& tokens[at_close] == Token::Parenthesis(ParenthesisType::Close)
        }),
{
    let piece = flat(Tree::Binary(operator, Box::new(left), Box::new(right)));
    let l = flat(left);
    let r = flat(right);
    lemma_binary_layout(operator, l, r);
    lemma_part_stands(tokens, pos, piece, 1, l);
    lemma_part_stands(tokens, pos, piece, 2 + l.len() as int, r);
    lemma_token_stands(tokens, pos, piece, 0);
    lemma_token_stands(tokens, pos, piece, 1 + l.len() as int);
    lemma_token_stands(tokens, pos, piece, 2 + l.len() as int + r.len() as int);
}

/// Where the tokens of a call with one argument stand, its pieces stand.
proof fn lemma_call1_parts(tokens: Seq<Token>, pos: int, function: FunctionType, argument: Tree)
    requires
        stands_at(tokens, pos, flat(Tree::Call1(function, Box::new(argument)))),
    ensures
        ({
            let at_close = pos + 2 + flat(argument).len();
            &&& 0 <= pos
            &&& at_close < tokens.len()
            &&& flat(Tree::Call1(function, Box::new(argument))).len() == flat(argument).len() + 3
            &&& tokens[pos] == Token::Function(function)
            &&& tokens[pos + 1] == Token::Parenthesis(ParenthesisType::Open)
            &&& stands_at(tokens, pos + 2, flat(argument))
            &&& tokens[at_close] == Token::Parenthesis(ParenthesisType::Close)
        }),
{
    let piece = flat(Tree::Call1(function, Box::new(argument)));
    let a = flat(argument);
    lemma_call1_layout(function, a);
    lemma_part_stands(tokens, pos, piece, 2, a);
    lemma_token_stands(tokens, pos, piece, 0);
    lemma_token_stands(tokens, pos, piece, 1);
    lemma_token_stands(tokens, pos, piece, 2 + a.len() as int);
}

/// Where the tokens of a call with two arguments stand, its pieces stand.
proof fn lemma_call2_parts(
    tokens: Seq<Token>,
    pos: int,
    function: FunctionType,
    first: Tree,
    second: Tree,
)
    requires
        stands_at(tokens, pos, flat(Tree::Call2(function, Box::new(first), Box::new(second)))),
    ensures
        ({
            let at_comma = pos + 2 + flat(first).len();
            let at_close = at_comma + 1 + flat(second).len();
            &&& 0 <= pos
            &&& at_close < tokens.len()
            &&& flat(Tree::Call2(function, Box::new(first), Box::new(second))).len() == flat(
                first,
            ).len() + flat(second).len() + 4
            &&& tokens[pos] == Token::Function(function)
            &&& tokens[pos + 1] == Token::Parenthesis(ParenthesisType::Open)
            &&& stands_at(tokens, pos + 2, flat(first))
            &&& tokens[at_comma] == Token::Comma
            &&& stands_at(tokens, at_comma + 1, flat(second))
            &&& tokens[at_close] == Token::Parenthesis(ParenthesisType::Close)
        }),
{
    let piece = flat(Tree::Call2(function, Box::new(first), Box::new(second)));
    let a = flat(first);
    let b = flat(second);
    lemma_call2_layout(function, a, b);
    lemma_part_stands(tokens, pos, piece, 2, a);
    lemma_part_stands(tokens, pos, piece, 3 + a.len() as int, b);
    lemma_token_stands(tokens, pos, piece, 0);
    lemma_token_stands(tokens, pos, piece, 1);
    lemma_token_stands(tokens, pos, piece, 2 + a.len() as int);
    lemma_token_stands(tokens, pos, piece, 3 + a.len() as int + b.len() as int);
}

/// Where the tokens of an expression stand, followed by a token that is no
/// operator, the expression is read back from them whole.
pub proof fn lemma_expression_of_flat(
    tokens: Seq<Token>,
    pos: int,
    tree: Tree,
    floor: nat,
    in_bar: bool,
)
    requires
        stands_at(tokens, pos, flat(tree)),
        proper(tree),
        operator_at(tokens, pos + flat(tree).len()) is None,
    ensures
        expression(tokens, pos, floor, in_bar) == Ok::<(Tree, int), EquationParseError>(
            (tree, pos + flat(tree).len()),
        ),
    decreases tree, 1int,
{
    lemma_operand_of_flat(tokens, pos, tree, in_bar);
    lemma_flat_ends(tree);
    lemma_token_stands(tokens, pos, flat(tree), 0);
    lemma_lone_operand(tokens, pos, tree, pos + flat(tree).len(), floor, in_bar);
}

/// Where the tokens of an expression stand, the expression is the operand
/// that is read from them.
pub proof fn lemma_operand_of_flat(tokens: Seq<Token>, pos: int, tree: Tree, in_bar: bool)
    requires
        stands_at(tokens, pos, flat(tree)),
        proper(tree),
    ensures
        operand(tokens, pos, in_bar) == Ok::<(Tree, int), EquationParseError>(
            (tree, pos + flat(tree).len()),
        ),
    decreases tree, 0int,
{
    match tree {
        Tree::Literal(_) => {
            lemma_token_stands(tokens, pos, flat(tree), 0);
        },
        Tree::Variable(_) => {
            lemma_token_stands(tokens, pos, flat(tree), 0);
        },
        Tree::Binary(operator, left, right) => {
            let at_operator = pos + 1 + flat(*left).len();
            let at_close = at_operator + 1 + flat(*right).len();
            lemma_flat_ends(*left);
            lemma_flat_ends(*right);
            lemma_binary_parts(tokens, pos, operator, *left, *right);
            lemma_operand_of_flat(tokens, pos + 1, *left, in_bar);
            lemma_expression_of_flat(
                tokens,
                at_operator + 1,
                *right,
                right_floor(operator),
                in_bar,
            );
            lemma_binary_operand(
                tokens,
                pos,
                operator,
                *left,
                at_operator,
                *right,
                at_close,
                in_bar,
            );
        },
        Tree::Call1(function, argument) => {
            let at_close = pos + 2 + flat(*argument).len();
            lemma_flat_ends(*argument);
            lemma_call1_parts(tokens, pos, function, *argument);
            lemma_expression_of_flat(tokens, pos + 2, *argument, 0, in_bar);
            lemma_call1_operand(tokens, pos, function, *argument, at_close, in_bar);
        },
        Tree::Call2(function, first, second) => {
            let at_comma = pos + 2 + flat(*first).len();
            let at_close = at_comma + 1 + flat(*second).len();
            lemma_flat_ends(*first);
            lemma_flat_ends(*second);
            lemma_call2_parts(tokens, pos, function, *first, *second);
            lemma_expression_of_flat(tokens, pos + 2, *first, 0, in_bar);
            lemma_expression_of_flat(tokens, at_comma + 1, *second, 0, in_bar);
            lemma_call2_operand(
                tokens,
                pos,
                function,
                *first,
                at_comma,
                *second,
                at_close,
                in_bar,
            );
        },
    }
}

/// The tokens that write an expression down are assembled into that
/// expression again.
pub proof fn lemma_flat_builds(tree: Tree)
    requires
        proper(tree),
    ensures
        built(flat(tree)) == Ok::<Tree, EquationParseError>(tree),
{
    assert(stands_at(flat(tree), 0, flat(tree))) by {
        reveal(stands_at);
    }
    lemma_expression_of_flat(flat(tree), 0, tree, 0, false);
}

/// Two legible sequences whose meeting tokens can stand next to each other
/// make a legible sequence, if the second is not empty.
proof fn lemma_legible_join(a: Seq<Token>, b: Seq<Token>)
    requires
        a.len() > 0 ==> forall|i: int| 0 <= i < a.len() ==> well_spelled(#[trigger] a[i]),
        forall|i: int| 0 <= i < a.len() - 1 ==> apart(#[trigger] a[i], a[i + 1]),
        legible(b),
        b.len() > 0,
        a.len() > 0 ==> apart(a.last(), b[0]),
    ensures
        legible(a + b),
{
    let whole = a + b;
    assert forall|i: int| 0 <= i < whole.len() implies well_spelled(#[trigger] whole[i]) by {
        if i < a.len() {
            assert(whole[i] == a[i]);
        } else {
            assert(whole[i] == b[i - a.len()]);
        }
    }
    assert forall|i: int| 0 <= i < whole.len() - 1 implies apart(
        #[trigger] whole[i],
        whole[i + 1],
    ) by {
        if i < a.len() - 1 {
            assert(whole[i] == a[i] && whole[i + 1] == a[i + 1]);
        } else if i == a.len() - 1 {
            assert(whole[i] == a.last() && whole[i + 1] == b[0]);
        } else {
            assert(whole[i] == b[i - a.len()] && whole[i + 1] == b[i - a.len() + 1]);
            assert(apart(b[i - a.len()], b[i - a.len() + 1]));
        }
    }
    assert(whole.last() == b.last());
}

/// The tokens of a proper expression can be written as text and read back
/// as themselves.
pub proof fn lemma_flat_legible(tree: Tree)
    requires
        proper(tree),
    ensures
        legible(flat(tree)),
    decreases tree,
{
    lemma_flat_ends(tree);
    let open = seq![Token::Parenthesis(ParenthesisType::Open)];
    let close = seq![Token::Parenthesis(ParenthesisType::Close)];
    assert(legible(close));
    match tree {
        Tree::Literal(_) => {},
        Tree::Variable(_) => {},
        Tree::Binary(operator, left, right) => {
            lemma_flat_legible(*left);
            lemma_flat_legible(*right);
            lemma_flat_ends(*left);
            lemma_flat_ends(*right);
            let l = flat(*left);
            let r = flat(*right);
            let middle = seq![Token::Operator(operator)];
            assert(legible(middle));
            lemma_legible_join(open, l);
            assert((open + l).last() == l.last());
            lemma_legible_join(open + l, middle);
            assert((open + l + middle).last() == middle[0]);
            lemma_legible_join(open + l + middle, r);
            assert((open + l + middle + r).last() == r.last());
            lemma_legible_join(open + l + middle + r, close);
        },
        Tree::Call1(function, argument) => {
            lemma_flat_legible(*argument);
            lemma_flat_ends(*argument);
            let a = flat(*argument);
            let head = seq![Token::Function(function), Token::Parenthesis(ParenthesisType::Open)];
            assert(head.last() == head[1]);
            lemma_legible_join(head, a);
            assert((head + a).last() == a.last());
            lemma_legible_join(head + a, close);
        },
        Tree::Call2(function, first, second) => {
            lemma_flat_legible(*first);
            lemma_flat_legible(*second);
            lemma_flat_ends(*first);
            lemma_flat_ends(*second);
            let a = flat(*first);
            let b = flat(*second);
            let head = seq![Token::Function(function), Token::Parenthesis(ParenthesisType::Open)];
            let comma = seq![Token::Comma];
            assert(legible(comma));
            assert(head.last() == head[1]);
            lemma_legible_join(head, a);
            assert((head + a).last() == a.last());
            lemma_legible_join(head + a, comma);
            assert((head + a + comma).last() == comma[0]);
            lemma_legible_join(head + a + comma, b);
            assert((head + a + comma + b).last() == b.last());
            lemma_legible_join(head + a + comma + b, close);
        },
    }
}

/// The infix text of an expression is its tokens written one behind the
/// other.
pub proof fn lemma_infix_written(tree: Tree)
    ensures
        infix(tree) == written(flat(tree)),
    decreases tree,
{
    let open = seq![Token::Parenthesis(ParenthesisType::Open)];
    let close = seq![Token::Parenthesis(ParenthesisType::Close)];
    lemma_written_one(Token::Parenthesis(ParenthesisType::Open));
    lemma_written_one(Token::Parenthesis(ParenthesisType::Close));
    match tree {
        Tree::Literal(text) => {
            lemma_written_one(Token::ValueLit(text));
        },
        Tree::Variable(name) => {
            lemma_written_one(Token::ValueIdent(name));
        },
        Tree::Binary(operator, left, right) => {
            lemma_infix_written(*left);
            lemma_infix_written(*right);
            let l = flat(*left);
            let r = flat(*right);
            let middle = seq![Token::Operator(operator)];
            lemma_written_one(Token::Operator(operator));
            lemma_written_concat(open, l);
            lemma_written_concat(open + l, middle);
            lemma_written_concat(open + l + middle, r);
            lemma_written_concat(open + l + middle + r, close);
        },
        Tree::Call1(function, argument) => {
            lemma_infix_written(*argument);
            let a = flat(*argument);
            let name = seq![Token::Function(function)];
            lemma_written_one(Token::Function(function));
            lemma_written_concat(name, open);
            assert(name + open =~= seq![
                Token::Function(function),
                Token::Parenthesis(ParenthesisType::Open),
            ]);
            lemma_written_concat(name + open, a);
            lemma_written_concat(name + open + a, close);
        },
        Tree::Call2(function, first, second) => {
            lemma_infix_written(*first);
            lemma_infix_written(*second);
            let a = flat(*first);
            let b = flat(*second);
            let name = seq![Token::Function(function)];
            let comma = seq![Token::Comma];
            lemma_written_one(Token::Function(function));
            lemma_written_one(Token::Comma);
            lemma_written_concat(name, open);
            assert(name + open =~= seq![
                Token::Function(function),
                Token::Parenthesis(ParenthesisType::Open),
            ]);
            lemma_written_concat(name + open, a);
            lemma_written_concat(name + open + a, comma);
            lemma_written_concat(name + open + a + comma, b);
            lemma_written_concat(name + open + a + comma + b, close);
        },
    }
}

/// A single token is written as it is spelled.
proof fn lemma_written_one(token: Token)
    ensures
        written(seq![token]) == token.spelled(),
{
    let one = seq![token];
    assert(one.drop_last() =~= Seq::<Token>::empty());
    assert(written(Seq::<Token>::empty()) =~= Seq::<char>::empty());
    assert(written(one) =~= token.spelled());
}

/// The text of a legible sequence of tokens parses to what the tokens are
/// assembled into.
pub proof fn lemma_written_parses(tokens: Seq<Token>)
    requires
        legible(tokens),
        written(tokens).len() <= usize::MAX,
    ensures
        parsed(written(tokens)) == built(tokens),
{
    lemma_written_tokenizes(tokens);
    lemma_written_resolves(tokens);
}

/// Writing an expression down in infix notation and parsing the text gives
/// the same expression: the same shape, the same numbers and the same
/// names. This holds of every expression whose numbers are decimal numbers,
/// whose names are made of letters and whose functions have the number of
/// arguments that they take.
pub proof fn lemma_infix_parses_back(tree: Tree)
    requires
        proper(tree),
        infix(tree).len() <= usize::MAX,
    ensures
        parsed(infix(tree)) == Ok::<Tree, EquationParseError>(tree),
{
    lemma_infix_written(tree);
    lemma_flat_legible(tree);
    lemma_written_parses(flat(tree));
    lemma_flat_builds(tree);
}

/// An operand that is read from sound tokens is a proper expression.
pub proof fn lemma_operand_proper(tokens: Seq<Token>, pos: int, in_bar: bool)
    requires
        sound(tokens),
    ensures
        operand(tokens, pos, in_bar) matches Ok((tree, _)) ==> proper(tree),
    decreases tokens.len() - pos, 0int,
{
    if 0 <= pos < tokens.len() {
        assert(sound_token(tokens[pos]));
        match tokens[pos] {
            Token::Parenthesis(open) => {
                if open.opens() {
                    lemma_expression_proper(tokens, pos + 1, 0, in_bar);
                }
            },
            Token::Abs => {
                if !in_bar {
                    lemma_expression_proper(tokens, pos + 1, 0, true);
                }
            },
            Token::Function(_) => {
                if pos + 1 < tokens.len() {
                    lemma_arguments_proper(tokens, pos + 2, in_bar);
                }
            },
            _ => {},
        }
    }
}

/// An expression that is read from sound tokens is a proper expression.
pub proof fn lemma_expression_proper(tokens: Seq<Token>, pos: int, floor: nat, in_bar: bool)
    requires
        sound(tokens),
    ensures
        expression(tokens, pos, floor, in_bar) matches Ok((tree, _)) ==> proper(tree),
    decreases tokens.len() - pos, 1int,
{
    lemma_operand_proper(tokens, pos, in_bar);
    if let Ok((left, next)) = operand(tokens, pos, in_bar) {
        if pos < next <= tokens.len() {
            lemma_continued_proper(tokens, left, next, floor, in_bar);
        }
    }
}

/// What a proper expression grows into over sound tokens is a proper
/// expression.
pub proof fn lemma_continued_proper(
    tokens: Seq<Token>,
    left: Tree,
    pos: int,
    floor: nat,
    in_bar: bool,
)
    requires
        sound(tokens),
        proper(left),
        0 <= pos <= tokens.len(),
    ensures
        continued(tokens, left, pos, floor, in_bar) matches Ok((tree, _)) ==> proper(tree),
    decreases tokens.len() - pos, 0int,
{
    if let Some(operator) = operator_at(tokens, pos) {
        if operator.binding() >= floor {
            lemma_expression_proper(tokens, pos + 1, right_floor(operator), in_bar);
            if let Ok((right, next)) = expression(tokens, pos + 1, right_floor(operator), in_bar) {
                if pos < next <= tokens.len() {
                    lemma_continued_proper(
                        tokens,
                        Tree::Binary(operator, Box::new(left), Box::new(right)),
                        next,
                        floor,
                        in_bar,
                    );
                }
            }
        }
    }
}

/// The arguments that are read from sound tokens are proper expressions.
pub proof fn lemma_arguments_proper(tokens: Seq<Token>, pos: int, in_bar: bool)
    requires
        sound(tokens),
    ensures
        arguments(tokens, pos, in_bar) matches Ok((found, _)) ==> forall|k: int|
            0 <= k < found.len() ==> proper(#[trigger] found[k]),
    decreases tokens.len() - pos, 2int,
{
    lemma_expression_proper(tokens, pos, 0, in_bar);
    if let Ok((first, next)) = expression(tokens, pos, 0, in_bar) {
        if pos < next < tokens.len() && tokens[next] == Token::Comma {
            lemma_arguments_proper(tokens, next + 1, in_bar);
        }
    }
}

/// Every expression that the parser gives is a proper expression: its
/// numbers are decimal numbers, its names are made of letters, and every
/// function has as many arguments as it takes.
pub proof fn lemma_parsed_is_proper(text: Seq<char>, tree: Tree)
    requires
        text.len() <= usize::MAX,
        parsed(text) == Ok::<Tree, EquationParseError>(tree),
    ensures
        proper(tree),
{
    let raw = tokens_of(text)->Ok_0;
    lemma_tokens_are_runs(text, 0);
    lemma_resolved_sound(raw, text, raw.len() as int);
    let tokens = resolved(raw, text)->Ok_0;
    lemma_expression_proper(tokens, 0, 0, false);
}

/// An expression that was parsed from a text, written down in infix
/// notation and parsed again, is the same expression: the same shape, the
/// same numbers and the same names.
pub proof fn lemma_round_trip(text: Seq<char>, tree: Tree)
    requires
        text.len() <= usize::MAX,
        infix(tree).len() <= usize::MAX,
        parsed(text) == Ok::<Tree, EquationParseError>(tree),
    ensures
        parsed(infix(tree)) == Ok::<Tree, EquationParseError>(tree),
{
    lemma_parsed_is_proper(text, tree);
    lemma_infix_parses_back(tree);
}

} // verus!
