use crate::ast::{tokens_view, Syntax, Token};
use crate::tree::{tree_at, Entity, Expression, Tree};
use vstd::prelude::*;

verus! {

/// The text of a sequence of tokens for a person to read: each token as it
/// is spelled, with a space behind it.
pub open spec fn spaced(tokens: Seq<Token>) -> Seq<char>
    decreases tokens.len(),
{
    if tokens.len() == 0 {
        Seq::empty()
    } else {
        spaced(tokens.drop_last()) + tokens.last().spelled() + seq![' ']
    }
}

/// The text of an expression in infix notation. Every operation stands in
/// round brackets, so that the text says how the expression is grouped
/// without leaning on the binding of the operators; the arguments of a
/// function stand in round brackets behind its name, with a comma between
/// two of them.
pub open spec fn infix(tree: Tree) -> Seq<char>
    decreases tree,
{
    match tree {
        Tree::Literal(text) => text,
        Tree::Variable(name) => name,
        Tree::Binary(operator, left, right) => seq!['('] + infix(*left) + seq![operator.glyph()]
            + infix(*right) + seq![')'],
        Tree::Call1(function, argument) => function.name_text() + seq!['('] + infix(*argument)
            + seq![')'],
        Tree::Call2(function, first, second) => function.name_text() + seq!['('] + infix(*first)
            + seq![','] + infix(*second) + seq![')'],
    }
}

/// Writes a sequence of tokens as text: each token as it is spelled, with a
/// space behind it.
pub fn render(ast: &[Syntax<'_>]) -> (text: String)
    ensures
        text@ == spaced(tokens_view(ast@)),
{
    let ghost tokens = tokens_view(ast@);
    let mut text = String::new();
    let mut index: usize = 0;
    proof {
        reveal_strlit(" ");
        assert(tokens.take(0) =~= Seq::<Token>::empty());
    }
    while index < ast.len()
        invariant
            tokens == tokens_view(ast@),
            index <= ast@.len(),
            text@ == spaced(tokens.take(index as int)),
        decreases ast@.len() - index,
    {
        let ghost before = text@;
        text.append(ast[index].spelling());
        text.append(" ");
        proof {
            reveal_strlit(" ");
            let longer = tokens.take(index as int + 1);
            assert(longer.drop_last() =~= tokens.take(index as int));
            assert(longer.last() == ast@[index as int]@);
            assert(" "@ =~= seq![' ']);
        }
        index = index + 1;
    }
    proof {
        assert(tokens.take(ast@.len() as int) =~= tokens);
    }
    text
}

/// Writes the expression at a handle behind a text.
fn write_infix(expression: &Expression<'_>, handle: usize, text: &mut String)
    requires
        handle < expression.arena().len(),
    ensures
        final(text)@ == old(text)@ + infix(tree_at(expression.arena(), handle as int)),
    decreases handle,
{
    let ghost nodes = expression.arena();
    let ghost before = text@;
    let node = expression.node(handle);
    proof {
        reveal_strlit("(");
        reveal_strlit(")");
        reveal_strlit(",");
        assert("("@ =~= seq!['(']);
        assert(")"@ =~= seq![')']);
        assert(","@ =~= seq![',']);
    }
    match node {
        None => {},
        Some(Entity::ValueLit(number)) => {
            text.append(number);
        },
        Some(Entity::Value(name)) => {
            text.append(name);
        },
        Some(Entity::Operation(operation)) => {
            text.append("(");
            write_infix(expression, operation.left(), text);
            text.append(operation.operator().spelling());
            write_infix(expression, operation.right(), text);
            text.append(")");
            assert(text@ =~= before + infix(tree_at(nodes, handle as int)));
        },
        Some(Entity::Function(call)) => {
            text.append(call.function().name());
            text.append("(");
            write_infix(expression, call.first(), text);
            match call.second() {
                None => {},
                Some(second) => {
                    text.append(",");
                    write_infix(expression, second, text);
                },
            }
            text.append(")");
            assert(text@ =~= before + infix(tree_at(nodes, handle as int)));
        },
    }
}

impl<'a> Expression<'a> {
    /// The expression as text in infix notation.
    pub fn to_infix(&self) -> (text: String)
        ensures
            text@ == infix(self@),
    {
        let mut text = String::new();
        let root = self.root();
        proof {
            self.lemma_view();
        }
        write_infix(self, root, &mut text);
        assert(Seq::<char>::empty() + infix(self@) =~= infix(self@));
        text
    }
}

} // verus!
