use crate::ast::{tokens_view, FunctionType, Operator, ParenthesisType, Syntax, Token};
use crate::error::EquationParseError;
use crate::tree::{
    arena_ok, lemma_tree_at_stable, links_back, tree_at, Entity, Expression, Function, Operation,
    Tree,
};
use vstd::prelude::*;

verus! {

/// What opened a scope: one of the three opening grouping symbols, or the
/// bar of an absolute value.
pub enum Opener {
    Grouping(ParenthesisType),
    Bar,
}

impl Opener {
    /// Whether a closing grouping symbol is the partner of the opener.
    pub open spec fn closed_by(self, close: ParenthesisType) -> bool {
        match self {
            Opener::Grouping(open) => open.opens() && !close.opens() && open.partner() == close,
            Opener::Bar => false,
        }
    }
}

/// The operator at `pos`, if an operator stands there.
pub open spec fn operator_at(tokens: Seq<Token>, pos: int) -> Option<Operator> {
    if 0 <= pos < tokens.len() {
        match tokens[pos] {
            Token::Operator(operator) => Some(operator),
            _ => None,
        }
    } else {
        None
    }
}

/// The binding that the right operand of an operator has to reach: its own
/// for an operator that groups from the right, the next higher for one that
/// groups from the left.
pub open spec fn right_floor(operator: Operator) -> nat {
    if operator.groups_right() {
        operator.binding()
    } else {
        operator.binding() + 1
    }
}

/// Closes a scope at `pos`: the index behind the closing token, where the
/// token at `pos` is the partner of what opened the scope.
///
/// The end of the tokens leaves the scope unbalanced; a closing symbol of
/// another pair, or a bar for a grouping symbol, is a mismatch; any other
/// token is out of place.
pub open spec fn scope_closed(tokens: Seq<Token>, pos: int, opener: Opener) -> Result<
    int,
    EquationParseError,
> {
    if pos < 0 || pos >= tokens.len() {
        Err(EquationParseError::UnbalancedGrouping)
    } else {
        match tokens[pos] {
            Token::Parenthesis(close) => if close.opens() {
                Err(EquationParseError::UnexpectedToken)
            } else if opener.closed_by(close) {
                Ok(pos + 1)
            } else {
                Err(EquationParseError::MismatchedGrouping)
            },
            Token::Abs => if opener == Opener::Bar {
                Ok(pos + 1)
            } else {
                Err(EquationParseError::MismatchedGrouping)
            },
            _ => Err(EquationParseError::UnexpectedToken),
        }
    }
}

/// The call of a function on the arguments that were found: the function
/// has to take as many as there are.
pub open spec fn call_of(function: FunctionType, arguments: Seq<Tree>) -> Result<
    Tree,
    EquationParseError,
> {
    if arguments.len() != function.arguments() {
        Err(
            EquationParseError::WrongArity {
                expected: function.arguments() as usize,
                found: arguments.len() as usize,
            },
        )
    } else if arguments.len() == 1 {
        Ok(Tree::Call1(function, Box::new(arguments[0])))
    } else {
        Ok(Tree::Call2(function, Box::new(arguments[0]), Box::new(arguments[1])))
    }
}

/// The operand that starts at `pos`, and the index behind it.
///
/// An operand is a number, a name, an expression between a pair of
/// grouping symbols, an expression between two bars, or a function with its
/// arguments in round brackets. `in_bar` says whether a bar is open: then a
/// bar closes, and cannot start an operand. So bars pair off in the order in
/// which they come, and one absolute value does not stand inside another.
///
/// Every operator takes two operands: an operator where an operand has to
/// start, a sign in front of a number among them, is out of place. So is a
/// comma. A closing symbol or the end of the tokens leaves the operand
/// missing.
pub open spec fn operand(tokens: Seq<Token>, pos: int, in_bar: bool) -> Result<
    (Tree, int),
    EquationParseError,
>
    decreases tokens.len() - pos, 0int,
{
    if pos < 0 || pos >= tokens.len() {
        Err(EquationParseError::EmptyExpression)
    } else {
        match tokens[pos] {
            Token::ValueLit(text) => Ok((Tree::Literal(text), pos + 1)),
            Token::ValueIdent(name) => Ok((Tree::Variable(name), pos + 1)),
            Token::Operator(_) => Err(EquationParseError::UnexpectedToken),
            Token::Comma => Err(EquationParseError::UnexpectedToken),
            Token::Parenthesis(open) => if !open.opens() {
                Err(EquationParseError::EmptyExpression)
            } else {
                match expression(tokens, pos + 1, 0, in_bar) {
                    Err(e) => Err(e),
                    Ok((inner, end)) => match scope_closed(tokens, end, Opener::Grouping(open)) {
                        Err(e) => Err(e),
                        Ok(next) => Ok((inner, next)),
                    },
                }
            },
            Token::Abs => if in_bar {
                Err(EquationParseError::EmptyExpression)
            } else {
                match expression(tokens, pos + 1, 0, true) {
                    Err(e) => Err(e),
                    Ok((inner, end)) => match scope_closed(tokens, end, Opener::Bar) {
                        Err(e) => Err(e),
                        Ok(next) => Ok((Tree::Call1(FunctionType::Abs, Box::new(inner)), next)),
                    },
                }
            },
            Token::Function(function) => if pos + 1 >= tokens.len() || tokens[pos + 1]
                != Token::Parenthesis(ParenthesisType::Open) {
                Err(EquationParseError::UnexpectedToken)
            } else {
                match arguments(tokens, pos + 2, in_bar) {
                    Err(e) => Err(e),
                    Ok((found, end)) => match scope_closed(
                        tokens,
                        end,
                        Opener::Grouping(ParenthesisType::Open),
                    ) {
                        Err(e) => Err(e),
                        Ok(next) => match call_of(function, found) {
                            Err(e) => Err(e),
                            Ok(call) => Ok((call, next)),
                        },
                    },
                }
            },
        }
    }
}

/// The expression that starts at `pos` and takes in operators that bind at
/// least as tightly as `floor`, and the index behind it.
///
/// The test that the operand has moved on is there for the recursion to be
/// seen to end; `lemma_operand_advances` shows that it always holds.
pub open spec fn expression(tokens: Seq<Token>, pos: int, floor: nat, in_bar: bool) -> Result<
    (Tree, int),
    EquationParseError,
>
    decreases tokens.len() - pos, 1int,
{
    match operand(tokens, pos, in_bar) {
        Err(e) => Err(e),
        Ok((left, next)) => if pos < next <= tokens.len() {
            continued(tokens, left, next, floor, in_bar)
        } else {
            Ok((left, next))
        },
    }
}

/// The expression that `left` grows into from `pos` on: as long as an
/// operator follows that binds at least as tightly as `floor`, the operator
/// and its right operand are taken in, and what was there becomes the left
/// operand.
pub open spec fn continued(
    tokens: Seq<Token>,
    left: Tree,
    pos: int,
    floor: nat,
    in_bar: bool,
) -> Result<(Tree, int), EquationParseError>
    decreases tokens.len() - pos, 0int,
{
    match operator_at(tokens, pos) {
        Some(operator) if operator.binding() >= floor => match expression(
            tokens,
            pos + 1,
            right_floor(operator),
            in_bar,
        ) {
            Err(e) => Err(e),
            Ok((right, next)) => if pos < next <= tokens.len() {
                continued(
                    tokens,
                    Tree::Binary(operator, Box::new(left), Box::new(right)),
                    next,
                    floor,
                    in_bar,
                )
            } else {
                Ok((left, pos))
            },
        },
        _ => Ok((left, pos)),
    }
}

/// The expressions that start at `pos` with commas between them, and the
/// index behind the last.
pub open spec fn arguments(tokens: Seq<Token>, pos: int, in_bar: bool) -> Result<
    (Seq<Tree>, int),
    EquationParseError,
>
    decreases tokens.len() - pos, 2int,
{
    match expression(tokens, pos, 0, in_bar) {
        Err(e) => Err(e),
        Ok((first, next)) => if pos < next < tokens.len() && tokens[next] == Token::Comma {
            match arguments(tokens, next + 1, in_bar) {
                Err(e) => Err(e),
                Ok((rest, end)) => Ok((seq![first] + rest, end)),
            }
        } else {
            Ok((seq![first], next))
        },
    }
}

/// The expression tree of a whole sequence of tokens.
///
/// The tokens have to be one expression and nothing more. Behind a complete
/// expression a closing grouping symbol closes what was never opened, a
/// comma is out of place, and any other token trails.
pub open spec fn built(tokens: Seq<Token>) -> Result<Tree, EquationParseError> {
    match expression(tokens, 0, 0, false) {
        Err(e) => Err(e),
        Ok((tree, next)) => if next < 0 || next >= tokens.len() {
            Ok(tree)
        } else {
            match tokens[next] {
                Token::Parenthesis(p) => if p.opens() {
                    Err(EquationParseError::TrailingTokens)
                } else {
                    Err(EquationParseError::UnbalancedGrouping)
                },
                Token::Comma => Err(EquationParseError::UnexpectedToken),
                _ => Err(EquationParseError::TrailingTokens),
            }
        },
    }
}

/// An operand takes at least one token and ends within the tokens.
pub proof fn lemma_operand_advances(tokens: Seq<Token>, pos: int, in_bar: bool)
    ensures
        operand(tokens, pos, in_bar) matches Ok((_, next)) ==> pos < next <= tokens.len(),
    decreases tokens.len() - pos, 0int,
{
    if 0 <= pos < tokens.len() {
        match tokens[pos] {
            Token::Parenthesis(open) => {
                if open.opens() {
                    lemma_expression_advances(tokens, pos + 1, 0, in_bar);
                }
            },
            Token::Abs => {
                if !in_bar {
                    lemma_expression_advances(tokens, pos + 1, 0, true);
                }
            },
            Token::Function(_) => {
                if pos + 1 < tokens.len() {
                    lemma_arguments_advance(tokens, pos + 2, in_bar);
                }
            },
            _ => {},
        }
    }
}

/// An expression takes at least one token and ends within the tokens.
pub proof fn lemma_expression_advances(tokens: Seq<Token>, pos: int, floor: nat, in_bar: bool)
    ensures
        expression(tokens, pos, floor, in_bar) matches Ok((_, next)) ==> pos < next
            <= tokens.len(),
    decreases tokens.len() - pos, 1int,
{
    lemma_operand_advances(tokens, pos, in_bar);
    if let Ok((left, next)) = operand(tokens, pos, in_bar) {
        lemma_continued_advances(tokens, left, next, floor, in_bar);
    }
}

/// What an expression grows into ends at or behind the place it grew from,
/// within the tokens.
pub proof fn lemma_continued_advances(
    tokens: Seq<Token>,
    left: Tree,
    pos: int,
    floor: nat,
    in_bar: bool,
)
    requires
        0 <= pos <= tokens.len(),
    ensures
        continued(tokens, left, pos, floor, in_bar) matches Ok((_, next)) ==> pos <= next
            <= tokens.len(),
    decreases tokens.len() - pos, 0int,
{
    if let Some(operator) = operator_at(tokens, pos) {
        if operator.binding() >= floor {
            lemma_expression_advances(tokens, pos + 1, right_floor(operator), in_bar);
            if let Ok((right, next)) = expression(tokens, pos + 1, right_floor(operator), in_bar) {
                lemma_continued_advances(
                    tokens,
                    Tree::Binary(operator, Box::new(left), Box::new(right)),
                    next,
                    floor,
                    in_bar,
                );
            }
        }
    }
}

/// A list of arguments holds at least one argument, takes at least one
/// token and ends within the tokens.
pub proof fn lemma_arguments_advance(tokens: Seq<Token>, pos: int, in_bar: bool)
    ensures
        arguments(tokens, pos, in_bar) matches Ok((found, next)) ==> pos < next <= tokens.len()
            && found.len() >= 1,
    decreases tokens.len() - pos, 2int,
{
    lemma_expression_advances(tokens, pos, 0, in_bar);
    if let Ok((first, next)) = expression(tokens, pos, 0, in_bar) {
        if next < tokens.len() && tokens[next] == Token::Comma {
            lemma_arguments_advance(tokens, next + 1, in_bar);
        }
    }
}

/// Whether an arena has only grown: what was there is still there, and
/// every handle still leads to the expression it led to.
pub open spec fn keeps(before: Seq<Entity<'_>>, after: Seq<Entity<'_>>) -> bool {
    &&& before.len() <= after.len()
    &&& forall|k: int| 0 <= k < before.len() ==> before[k] == #[trigger] after[k]
    &&& forall|k: int| 0 <= k < before.len() ==> #[trigger] tree_at(after, k) == tree_at(before, k)
}

/// An arena that has grown twice has grown.
proof fn lemma_keeps_twice(
    first: Seq<Entity<'_>>,
    second: Seq<Entity<'_>>,
    third: Seq<Entity<'_>>,
)
    requires
        keeps(first, second),
        keeps(second, third),
    ensures
        keeps(first, third),
{
    assert forall|k: int| 0 <= k < first.len() implies #[trigger] tree_at(third, k) == tree_at(
        first,
        k,
    ) by {
        assert(tree_at(third, k) == tree_at(second, k));
    }
}

/// The expressions at a sequence of handles.
pub open spec fn trees_at(nodes: Seq<Entity<'_>>, handles: Seq<usize>) -> Seq<Tree> {
    Seq::new(handles.len(), |k: int| tree_at(nodes, handles[k] as int))
}

/// How many nodes a sequence of expressions has in all.
pub open spec fn total_size(trees: Seq<Tree>) -> nat
    decreases trees.len(),
{
    if trees.len() == 0 {
        0
    } else {
        trees[0].size() + total_size(trees.drop_first())
    }
}

/// An expression in front of a sequence of expressions adds its nodes to
/// theirs.
proof fn lemma_total_size_front(first: Tree, rest: Seq<Tree>)
    ensures
        total_size(seq![first] + rest) == first.size() + total_size(rest),
{
    assert((seq![first] + rest).drop_first() =~= rest);
}

/// Whether what a step of the builder hands back is what the grammar says:
/// on success the handle of the last node of the arena, which leads to the
/// expected expression and has grown by the nodes of that expression and no
/// others, and the index behind the expression; on failure the expected
/// failure.
pub open spec fn delivers(
    before: Seq<Entity<'_>>,
    nodes: Seq<Entity<'_>>,
    got: Result<(usize, usize), EquationParseError>,
    expected: Result<(Tree, int), EquationParseError>,
    pos: int,
    len: int,
) -> bool {
    match got {
        Ok((handle, next)) => {
            &&& handle + 1 == nodes.len()
            &&& nodes.len() == before.len() + tree_at(nodes, handle as int).size()
            &&& pos < next <= len
            &&& expected == Ok::<(Tree, int), EquationParseError>(
                (tree_at(nodes, handle as int), next as int),
            )
        },
        Err(e) => expected == Err::<(Tree, int), EquationParseError>(e),
    }
}

/// Puts a node behind the nodes of an arena and returns its handle.
fn add_node<'a>(nodes: &mut Vec<Entity<'a>>, node: Entity<'a>) -> (handle: usize)
    requires
        arena_ok(old(nodes)@),
        links_back(old(nodes)@.push(node), old(nodes)@.len() as int),
    ensures
        final(nodes)@ == old(nodes)@.push(node),
        handle == old(nodes)@.len(),
        arena_ok(final(nodes)@),
        keeps(old(nodes)@, final(nodes)@),
{
    let ghost before = nodes@;
    let handle = nodes.len();
    nodes.push(node);
    proof {
        assert forall|k: int| 0 <= k < nodes@.len() implies links_back(nodes@, k) by {
            if k < before.len() {
                assert(links_back(before, k));
            }
        }
        assert forall|k: int| 0 <= k < before.len() implies #[trigger] tree_at(nodes@, k)
            == tree_at(before, k) by {
            lemma_tree_at_stable(before, nodes@, k);
        }
    }
    handle
}

/// Closes a scope at `pos` and returns the index behind the closing token.
fn close_scope(ast: &[Syntax<'_>], pos: usize, opener: Opener) -> (r: Result<
    usize,
    EquationParseError,
>)
    requires
        pos <= ast@.len(),
    ensures
        match r {
            Ok(next) => pos < next <= ast@.len() && scope_closed(
                tokens_view(ast@),
                pos as int,
                opener,
            ) == Ok::<int, EquationParseError>(next as int),
            Err(e) => scope_closed(tokens_view(ast@), pos as int, opener) == Err::<
                int,
                EquationParseError,
            >(e),
        },
{
    if pos >= ast.len() {
        return Err(EquationParseError::UnbalancedGrouping);
    }
    match ast[pos] {
        Syntax::Parenthesis(close) => {
            if close.is_opening() {
                Err(EquationParseError::UnexpectedToken)
            } else {
                match opener {
                    Opener::Grouping(open) => {
                        if open.is_closed_by(&close) {
                            Ok(pos + 1)
                        } else {
                            Err(EquationParseError::MismatchedGrouping)
                        }
                    },
                    Opener::Bar => Err(EquationParseError::MismatchedGrouping),
                }
            }
        },
        Syntax::Abs => match opener {
            Opener::Bar => Ok(pos + 1),
            Opener::Grouping(_) => Err(EquationParseError::MismatchedGrouping),
        },
        _ => Err(EquationParseError::UnexpectedToken),
    }
}

/// Builds the operand that starts at `pos` into the arena.
fn parse_operand<'a>(
    ast: &[Syntax<'a>],
    pos: usize,
    in_bar: bool,
    nodes: &mut Vec<Entity<'a>>,
) -> (r: Result<(usize, usize), EquationParseError>)
    requires
        pos <= ast@.len(),
        arena_ok(old(nodes)@),
    ensures
        arena_ok(final(nodes)@),
        keeps(old(nodes)@, final(nodes)@),
        delivers(
            old(nodes)@,
            final(nodes)@,
            r,
            operand(tokens_view(ast@), pos as int, in_bar),
            pos as int,
            ast@.len() as int,
        ),
    decreases ast@.len() - pos, 0int,
{
    let ghost tokens = tokens_view(ast@);
    let ghost start = nodes@;
    if pos >= ast.len() {
        return Err(EquationParseError::EmptyExpression);
    }
    assert(tokens[pos as int] == ast@[pos as int]@);
    match ast[pos] {
        Syntax::ValueLit(text) => {
            let handle = add_node(nodes, Entity::ValueLit(text));
            assert(tree_at(nodes@, handle as int) == Tree::Literal(text@));
            Ok((handle, pos + 1))
        },
        Syntax::ValueIdent(name) => {
            let handle = add_node(nodes, Entity::Value(name));
            assert(tree_at(nodes@, handle as int) == Tree::Variable(name@));
            Ok((handle, pos + 1))
        },
        Syntax::Operator(_) => Err(EquationParseError::UnexpectedToken),
        Syntax::Comma => Err(EquationParseError::UnexpectedToken),
        Syntax::Parenthesis(open) => {
            if !open.is_opening() {
                return Err(EquationParseError::EmptyExpression);
            }
            match parse_expression(ast, pos + 1, 0, in_bar, nodes) {
                Err(e) => Err(e),
                Ok((inner, end)) => match close_scope(ast, end, Opener::Grouping(open)) {
                    Err(e) => Err(e),
                    Ok(next) => Ok((inner, next)),
                },
            }
        },
        Syntax::Abs => {
            if in_bar {
                return Err(EquationParseError::EmptyExpression);
            }
            match parse_expression(ast, pos + 1, 0, true, nodes) {
                Err(e) => Err(e),
                Ok((inner, end)) => match close_scope(ast, end, Opener::Bar) {
                    Err(e) => Err(e),
                    Ok(next) => {
                        let ghost middle = nodes@;
                        let handle = add_node(nodes, Entity::Function(Function::Abs(inner)));
                        proof {
                            lemma_keeps_twice(start, middle, nodes@);
                            assert(tree_at(nodes@, handle as int) == Tree::Call1(
                                FunctionType::Abs,
                                Box::new(tree_at(nodes@, inner as int)),
                            ));
                        }
                        Ok((handle, next))
                    },
                },
            }
        },
        Syntax::Function(function) => {
            if pos + 1 >= ast.len() {
                return Err(EquationParseError::UnexpectedToken);
            }
            assert(tokens[pos as int + 1] == ast@[pos as int + 1]@);
            match ast[pos + 1] {
                Syntax::Parenthesis(ParenthesisType::Open) => {},
                _ => {
                    return Err(EquationParseError::UnexpectedToken);
                },
            }
            match parse_arguments(ast, pos + 2, in_bar, nodes) {
                Err(e) => Err(e),
                Ok((handles, end)) => match close_scope(
                    ast,
                    end,
                    Opener::Grouping(ParenthesisType::Open),
                ) {
                    Err(e) => Err(e),
                    Ok(next) => {
                        let expected = function.arity();
                        let found = handles.len();
                        if found != expected {
                            return Err(EquationParseError::WrongArity { expected, found });
                        }
                        let second = if found == 2 {
                            Some(handles[1])
                        } else {
                            None
                        };
                        let ghost middle = nodes@;
                        let ghost trees = trees_at(middle, handles@);
                        assert(call_of(function, trees) is Ok);
                        proof {
                            if found == 2 {
                                assert(trees =~= seq![trees[0]] + seq![trees[1]]);
                                lemma_total_size_front(trees[1], Seq::empty());
                                assert(seq![trees[1]] + Seq::<Tree>::empty() =~= seq![trees[1]]);
                                lemma_total_size_front(trees[0], seq![trees[1]]);
                            } else {
                                assert(trees =~= seq![trees[0]] + Seq::<Tree>::empty());
                                lemma_total_size_front(trees[0], Seq::empty());
                            }
                        }
                        match Function::apply(function, handles[0], second) {
                            None => Err(EquationParseError::WrongArity { expected, found }),
                            Some(call) => {
                                let handle = add_node(nodes, Entity::Function(call));
                                proof {
                                    lemma_keeps_twice(start, middle, nodes@);
                                    assert(trees[0] == tree_at(nodes@, handles@[0] as int));
                                    if found == 2 {
                                        assert(trees[1] == tree_at(nodes@, handles@[1] as int));
                                    }
                                    assert(call_of(function, trees) == Ok::<
                                        Tree,
                                        EquationParseError,
                                    >(tree_at(nodes@, handle as int)));
                                }
                                Ok((handle, next))
                            },
                        }
                    },
                },
            }
        },
    }
}

/// Builds the expression that starts at `pos` into the arena, taking in
/// the operators that bind at least as tightly as `floor`.
fn parse_expression<'a>(
    ast: &[Syntax<'a>],
    pos: usize,
    floor: u8,
    in_bar: bool,
    nodes: &mut Vec<Entity<'a>>,
) -> (r: Result<(usize, usize), EquationParseError>)
    requires
        pos <= ast@.len(),
        arena_ok(old(nodes)@),
    ensures
        arena_ok(final(nodes)@),
        keeps(old(nodes)@, final(nodes)@),
        delivers(
            old(nodes)@,
            final(nodes)@,
            r,
            expression(tokens_view(ast@), pos as int, floor as nat, in_bar),
            pos as int,
            ast@.len() as int,
        ),
    decreases ast@.len() - pos, 1int,
{
    let ghost tokens = tokens_view(ast@);
    let ghost start = nodes@;
    let (first, behind) = match parse_operand(ast, pos, in_bar, nodes) {
        Err(e) => {
            return Err(e);
        },
        Ok(found) => found,
    };
    let mut left: usize = first;
    let mut at: usize = behind;
    loop
        invariant
            tokens == tokens_view(ast@),
            start == old(nodes)@,
            pos < at <= ast@.len(),
            left + 1 == nodes@.len(),
            nodes@.len() == start.len() + tree_at(nodes@, left as int).size(),
            arena_ok(nodes@),
            keeps(start, nodes@),
            expression(tokens, pos as int, floor as nat, in_bar) == continued(
                tokens,
                tree_at(nodes@, left as int),
                at as int,
                floor as nat,
                in_bar,
            ),
        ensures
            continued(
                tokens,
                tree_at(nodes@, left as int),
                at as int,
                floor as nat,
                in_bar,
            ) == Ok::<(Tree, int), EquationParseError>((tree_at(nodes@, left as int), at as int)),
        decreases ast@.len() - at,
    {
        if at >= ast.len() {
            break;
        }
        assert(tokens[at as int] == ast@[at as int]@);
        let operator = match ast[at] {
            Syntax::Operator(operator) => Some(operator),
            _ => None,
        };
        if operator.is_none() {
            break;
        }
        let operator = operator.unwrap();
        let binding = operator.precedence();
        if binding < floor {
            break;
        }
        let right_binding: u8 = if operator.is_right_associative() {
            binding
        } else {
            binding + 1
        };
        let ghost before = nodes@;
        assert(operator_at(tokens, at as int) == Some(operator));
        assert(right_binding as nat == right_floor(operator));
        match parse_expression(ast, at + 1, right_binding, in_bar, nodes) {
            Err(e) => {
                proof {
                    lemma_keeps_twice(start, before, nodes@);
                }
                return Err(e);
            },
            Ok((right, next)) => {
                let ghost middle = nodes@;
                let handle = add_node(
                    nodes,
                    Entity::Operation(Operation::new(operator, left, right)),
                );
                proof {
                    lemma_keeps_twice(start, before, middle);
                    lemma_keeps_twice(start, middle, nodes@);
                    lemma_keeps_twice(before, middle, nodes@);
                    assert(tree_at(nodes@, left as int) == tree_at(before, left as int));
                    assert(tree_at(nodes@, right as int) == tree_at(middle, right as int));
                    assert(tree_at(nodes@, handle as int) == Tree::Binary(
                        operator,
                        Box::new(tree_at(nodes@, left as int)),
                        Box::new(tree_at(nodes@, right as int)),
                    ));
                }
                left = handle;
                at = next;
            },
        }
    }
    Ok((left, at))
}

/// Builds the expressions that start at `pos`, with commas between them,
/// into the arena.
fn parse_arguments<'a>(
    ast: &[Syntax<'a>],
    pos: usize,
    in_bar: bool,
    nodes: &mut Vec<Entity<'a>>,
) -> (r: Result<(Vec<usize>, usize), EquationParseError>)
    requires
        pos <= ast@.len(),
        arena_ok(old(nodes)@),
    ensures
        arena_ok(final(nodes)@),
        keeps(old(nodes)@, final(nodes)@),
        match r {
            Ok((handles, next)) => {
                &&& pos < next <= ast@.len()
                &&& final(nodes)@.len() == old(nodes)@.len() + total_size(
                    trees_at(final(nodes)@, handles@),
                )
                &&& forall|k: int|
                    0 <= k < handles@.len() ==> #[trigger] handles@[k] < final(nodes)@.len()
                &&& arguments(tokens_view(ast@), pos as int, in_bar) == Ok::<
                    (Seq<Tree>, int),
                    EquationParseError,
                >((trees_at(final(nodes)@, handles@), next as int))
            },
            Err(e) => arguments(tokens_view(ast@), pos as int, in_bar) == Err::<
                (Seq<Tree>, int),
                EquationParseError,
            >(e),
        },
    decreases ast@.len() - pos, 2int,
{
    match parse_expression(ast, pos, 0, in_bar, nodes) {
        Err(e) => Err(e),
        Ok((first, next)) => {
            let ghost tokens = tokens_view(ast@);
            let ghost middle = nodes@;
            let comma = if next < ast.len() {
                assert(tokens[next as int] == ast@[next as int]@);
                match ast[next] {
                    Syntax::Comma => true,
                    _ => false,
                }
            } else {
                false
            };
            if comma {
                match parse_arguments(ast, next + 1, in_bar, nodes) {
                    Err(e) => Err(e),
                    Ok((rest, end)) => {
                        let mut handles = rest;
                        handles.insert(0, first);
                        proof {
                            assert(handles@ =~= seq![first] + rest@);
                            assert(trees_at(nodes@, handles@) =~= seq![
                                tree_at(middle, first as int),
                            ] + trees_at(nodes@, rest@));
                            lemma_total_size_front(
                                tree_at(middle, first as int),
                                trees_at(nodes@, rest@),
                            );
                        }
                        Ok((handles, end))
                    },
                }
            } else {
                let mut handles: Vec<usize> = Vec::new();
                handles.push(first);
                proof {
                    assert(trees_at(nodes@, handles@) =~= seq![tree_at(nodes@, first as int)]
                        + Seq::<Tree>::empty());
                    lemma_total_size_front(tree_at(nodes@, first as int), Seq::empty());
                }
                Ok((handles, next))
            }
        },
    }
}

/// Assembles resolved tokens into an expression tree.
///
/// Operators are folded by their binding: sums below products below powers;
/// chains of one binding group from the left, chains of powers from the
/// right. The result is the tree of the tokens, or the failure that the
/// grammar gives them. The arena of the tree holds the nodes of the tree
/// and no others, and the root is the last of them.
pub fn third_parse<'a>(ast: &[Syntax<'a>]) -> (r: Result<Expression<'a>, EquationParseError>)
    ensures
        match r {
            Ok(expression) => built(tokens_view(ast@)) == Ok::<Tree, EquationParseError>(
                expression@,
            ),
            Err(e) => built(tokens_view(ast@)) == Err::<Tree, EquationParseError>(e),
        },
        r matches Ok(expression) ==> {
            &&& expression.arena().len() == expression@.size()
            &&& expression.root_of() + 1 == expression.arena().len()
        },
{
    let mut nodes: Vec<Entity<'a>> = Vec::new();
    match parse_expression(ast, 0, 0, false, &mut nodes) {
        Err(e) => Err(e),
        Ok((root, next)) => {
            if next >= ast.len() {
                Ok(Expression::new(nodes, root))
            } else {
                assert(tokens_view(ast@)[next as int] == ast@[next as int]@);
                match ast[next] {
                    Syntax::Parenthesis(p) => {
                        if p.is_opening() {
                            Err(EquationParseError::TrailingTokens)
                        } else {
                            Err(EquationParseError::UnbalancedGrouping)
                        }
                    },
                    Syntax::Comma => Err(EquationParseError::UnexpectedToken),
                    _ => Err(EquationParseError::TrailingTokens),
                }
            }
        },
    }
}

} // verus!
