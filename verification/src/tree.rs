use crate::ast::{FunctionType, Operator};
use crate::chars::same_text;
use vstd::prelude::*;

verus! {

/// An expression as a mathematical value: a number, a name, two
/// expressions under an operator, or a function of one or two expressions.
pub enum Tree {
    Literal(Seq<char>),
    Variable(Seq<char>),
    Binary(Operator, Box<Tree>, Box<Tree>),
    Call1(FunctionType, Box<Tree>),
    Call2(FunctionType, Box<Tree>, Box<Tree>),
}

impl Tree {
    /// How many nodes the expression has.
    pub open spec fn size(self) -> nat
        decreases self,
    {
        match self {
            Tree::Literal(_) | Tree::Variable(_) => 1,
            Tree::Binary(_, left, right) => 1 + left.size() + right.size(),
            Tree::Call1(_, argument) => 1 + argument.size(),
            Tree::Call2(_, first, second) => 1 + first.size() + second.size(),
        }
    }
}

/// Two operands under an operator. The operands are handles: indices of
/// nodes in the arena of the expression that the operation belongs to.
#[derive(Debug, Clone, Copy, PartialEq, Eq, Structural)]
pub enum Operation {
    Add(usize, usize),
    Sub(usize, usize),
    Mul(usize, usize),
    Div(usize, usize),
    Pow(usize, usize),
}

impl Operation {
    pub open spec fn operator_of(self) -> Operator {
        match self {
            Operation::Add(..) => Operator::Add,
            Operation::Sub(..) => Operator::Sub,
            Operation::Mul(..) => Operator::Mul,
            Operation::Div(..) => Operator::Div,
            Operation::Pow(..) => Operator::Pow,
        }
    }

    pub open spec fn left_of(self) -> usize {
        match self {
            Operation::Add(left, _) => left,
            Operation::Sub(left, _) => left,
            Operation::Mul(left, _) => left,
            Operation::Div(left, _) => left,
            Operation::Pow(left, _) => left,
        }
    }

    pub open spec fn right_of(self) -> usize {
        match self {
            Operation::Add(_, right) => right,
            Operation::Sub(_, right) => right,
            Operation::Mul(_, right) => right,
            Operation::Div(_, right) => right,
            Operation::Pow(_, right) => right,
        }
    }

    /// The operation of an operator on two operands.
    pub fn new(operator: Operator, left: usize, right: usize) -> (operation: Operation)
        ensures
            operation.operator_of() == operator,
            operation.left_of() == left,
            operation.right_of() == right,
    {
        match operator {
            Operator::Add => Operation::Add(left, right),
            Operator::Sub => Operation::Sub(left, right),
            Operator::Mul => Operation::Mul(left, right),
            Operator::Div => Operation::Div(left, right),
            Operator::Pow => Operation::Pow(left, right),
        }
    }

    pub fn operator(&self) -> (operator: Operator)
        ensures
            operator == self.operator_of(),
    {
        match self {
            Operation::Add(..) => Operator::Add,
            Operation::Sub(..) => Operator::Sub,
            Operation::Mul(..) => Operator::Mul,
            Operation::Div(..) => Operator::Div,
            Operation::Pow(..) => Operator::Pow,
        }
    }

    pub fn left(&self) -> (handle: usize)
        ensures
            handle == self.left_of(),
    {
        match self {
            Operation::Add(left, _) => *left,
            Operation::Sub(left, _) => *left,
            Operation::Mul(left, _) => *left,
            Operation::Div(left, _) => *left,
            Operation::Pow(left, _) => *left,
        }
    }

    pub fn right(&self) -> (handle: usize)
        ensures
            handle == self.right_of(),
    {
        match self {
            Operation::Add(_, right) => *right,
            Operation::Sub(_, right) => *right,
            Operation::Mul(_, right) => *right,
            Operation::Div(_, right) => *right,
            Operation::Pow(_, right) => *right,
        }
    }
}

/// A function applied to its arguments. The arguments are handles: indices
/// of nodes in the arena of the expression that the call belongs to.
#[derive(Debug, Clone, Copy, PartialEq, Eq, Structural)]
pub enum Function {
    Sin(usize),
    Cos(usize),
    Tan(usize),
    Cot(usize),
    Sec(usize),
    Csc(usize),
    Sinh(usize),
    Cosh(usize),
    Tanh(usize),
    Coth(usize),
    Sech(usize),
    Csch(usize),
    Log(usize, usize),
    Ln(usize),
    Sqrt(usize),
    Root(usize, usize),
    Exp(usize),
    Mod(usize, usize),
    Ceil(usize),
    Floor(usize),
    Round(usize),
    Abs(usize),
}

impl Function {
    pub open spec fn function_of(self) -> FunctionType {
        match self {
            Function::Sin(..) => FunctionType::Sin,
            Function::Cos(..) => FunctionType::Cos,
            Function::Tan(..) => FunctionType::Tan,
            Function::Cot(..) => FunctionType::Cot,
            Function::Sec(..) => FunctionType::Sec,
            Function::Csc(..) => FunctionType::Csc,
            Function::Sinh(..) => FunctionType::Sinh,
            Function::Cosh(..) => FunctionType::Cosh,
            Function::Tanh(..) => FunctionType::Tanh,
            Function::Coth(..) => FunctionType::Coth,
            Function::Sech(..) => FunctionType::Sech,
            Function::Csch(..) => FunctionType::Csch,
            Function::Log(..) => FunctionType::Log,
            Function::Ln(..) => FunctionType::Ln,
            Function::Sqrt(..) => FunctionType::Sqrt,
            Function::Root(..) => FunctionType::Root,
            Function::Exp(..) => FunctionType::Exp,
            Function::Mod(..) => FunctionType::Mod,
            Function::Ceil(..) => FunctionType::Ceil,
            Function::Floor(..) => FunctionType::Floor,
            Function::Round(..) => FunctionType::Round,
            Function::Abs(..) => FunctionType::Abs,
        }
    }

    pub open spec fn first_of(self) -> usize {
        match self {
            Function::Sin(first) => first,
            Function::Cos(first) => first,
            Function::Tan(first) => first,
            Function::Cot(first) => first,
            Function::Sec(first) => first,
            Function::Csc(first) => first,
            Function::Sinh(first) => first,
            Function::Cosh(first) => first,
            Function::Tanh(first) => first,
            Function::Coth(first) => first,
            Function::Sech(first) => first,
            Function::Csch(first) => first,
            Function::Log(first, _) => first,
            Function::Ln(first) => first,
            Function::Sqrt(first) => first,
            Function::Root(first, _) => first,
            Function::Exp(first) => first,
            Function::Mod(first, _) => first,
            Function::Ceil(first) => first,
            Function::Floor(first) => first,
            Function::Round(first) => first,
            Function::Abs(first) => first,
        }
    }

    pub open spec fn second_of(self) -> Option<usize> {
        match self {
            Function::Log(_, second) => Some(second),
            Function::Root(_, second) => Some(second),
            Function::Mod(_, second) => Some(second),
            _ => None,
        }
    }

    /// The call of a function on one or two arguments, if that is the
    /// number of arguments that the function takes.
    pub fn apply(function: FunctionType, first: usize, second: Option<usize>) -> (call: Option<
        Function,
    >)
        ensures
            call is Some <==> (function.arguments() == 2 <==> second is Some),
            call matches Some(c) ==> {
                &&& c.function_of() == function
                &&& c.first_of() == first
                &&& c.second_of() == second
            },
    {
        match (function, second) {
            (FunctionType::Sin, None) => Some(Function::Sin(first)),
            (FunctionType::Cos, None) => Some(Function::Cos(first)),
            (FunctionType::Tan, None) => Some(Function::Tan(first)),
            (FunctionType::Cot, None) => Some(Function::Cot(first)),
            (FunctionType::Sec, None) => Some(Function::Sec(first)),
            (FunctionType::Csc, None) => Some(Function::Csc(first)),
            (FunctionType::Sinh, None) => Some(Function::Sinh(first)),
            (FunctionType::Cosh, None) => Some(Function::Cosh(first)),
            (FunctionType::Tanh, None) => Some(Function::Tanh(first)),
            (FunctionType::Coth, None) => Some(Function::Coth(first)),
            (FunctionType::Sech, None) => Some(Function::Sech(first)),
            (FunctionType::Csch, None) => Some(Function::Csch(first)),
            (FunctionType::Log, Some(second)) => Some(Function::Log(first, second)),
            (FunctionType::Ln, None) => Some(Function::Ln(first)),
            (FunctionType::Sqrt, None) => Some(Function::Sqrt(first)),
            (FunctionType::Root, Some(second)) => Some(Function::Root(first, second)),
            (FunctionType::Exp, None) => Some(Function::Exp(first)),
            (FunctionType::Mod, Some(second)) => Some(Function::Mod(first, second)),
            (FunctionType::Ceil, None) => Some(Function::Ceil(first)),
            (FunctionType::Floor, None) => Some(Function::Floor(first)),
            (FunctionType::Round, None) => Some(Function::Round(first)),
            (FunctionType::Abs, None) => Some(Function::Abs(first)),
            _ => None,
        }
    }

    pub fn function(&self) -> (function: FunctionType)
        ensures
            function == self.function_of(),
    {
        match self {
            Function::Sin(..) => FunctionType::Sin,
            Function::Cos(..) => FunctionType::Cos,
            Function::Tan(..) => FunctionType::Tan,
            Function::Cot(..) => FunctionType::Cot,
            Function::Sec(..) => FunctionType::Sec,
            Function::Csc(..) => FunctionType::Csc,
            Function::Sinh(..) => FunctionType::Sinh,
            Function::Cosh(..) => FunctionType::Cosh,
            Function::Tanh(..) => FunctionType::Tanh,
            Function::Coth(..) => FunctionType::Coth,
            Function::Sech(..) => FunctionType::Sech,
            Function::Csch(..) => FunctionType::Csch,
            Function::Log(..) => FunctionType::Log,
            Function::Ln(..) => FunctionType::Ln,
            Function::Sqrt(..) => FunctionType::Sqrt,
            Function::Root(..) => FunctionType::Root,
            Function::Exp(..) => FunctionType::Exp,
            Function::Mod(..) => FunctionType::Mod,
            Function::Ceil(..) => FunctionType::Ceil,
            Function::Floor(..) => FunctionType::Floor,
            Function::Round(..) => FunctionType::Round,
            Function::Abs(..) => FunctionType::Abs,
        }
    }

    pub fn first(&self) -> (handle: usize)
        ensures
            handle == self.first_of(),
    {
        match self {
            Function::Sin(first) => *first,
            Function::Cos(first) => *first,
            Function::Tan(first) => *first,
            Function::Cot(first) => *first,
            Function::Sec(first) => *first,
            Function::Csc(first) => *first,
            Function::Sinh(first) => *first,
            Function::Cosh(first) => *first,
            Function::Tanh(first) => *first,
            Function::Coth(first) => *first,
            Function::Sech(first) => *first,
            Function::Csch(first) => *first,
            Function::Log(first, _) => *first,
            Function::Ln(first) => *first,
            Function::Sqrt(first) => *first,
            Function::Root(first, _) => *first,
            Function::Exp(first) => *first,
            Function::Mod(first, _) => *first,
            Function::Ceil(first) => *first,
            Function::Floor(first) => *first,
            Function::Round(first) => *first,
            Function::Abs(first) => *first,
        }
    }

    pub fn second(&self) -> (handle: Option<usize>)
        ensures
            handle == self.second_of(),
    {
        match self {
            Function::Log(_, second) => Some(*second),
            Function::Root(_, second) => Some(*second),
            Function::Mod(_, second) => Some(*second),
            _ => None,
        }
    }
}

/// A call holds a second argument exactly if its function takes two.
pub proof fn lemma_call_matches_arity(call: Function)
    ensures
        call.second_of() is Some <==> call.function_of().arguments() == 2,
        call.second_of() is None <==> call.function_of().arguments() == 1,
{
}

/// A node of an expression. Numbers and names borrow from the text of the
/// equation; operations and calls refer to their operands by handle.
#[derive(Debug, Clone, Copy, PartialEq)]
pub enum Entity<'a> {
    ValueLit(&'a str),
    Value(&'a str),
    Operation(Operation),
    Function(Function),
}

/// Whether node `i` of an arena refers only to nodes that stand before it.
pub open spec fn links_back(nodes: Seq<Entity<'_>>, i: int) -> bool {
    match nodes[i] {
        Entity::Operation(operation) => operation.left_of() < i && operation.right_of() < i,
        Entity::Function(call) => call.first_of() < i && match call.second_of() {
            Some(second) => second < i,
            None => true,
        },
        _ => true,
    }
}

/// Whether every node of an arena refers only to nodes that stand before
/// it. Such an arena holds no cycle, and every handle in it leads to a
/// finite expression.
pub open spec fn arena_ok(nodes: Seq<Entity<'_>>) -> bool {
    forall|i: int| 0 <= i < nodes.len() ==> links_back(nodes, i)
}

/// The expression that stands at handle `i` of an arena.
pub open spec fn tree_at(nodes: Seq<Entity<'_>>, i: int) -> Tree
    decreases i,
{
    if 0 <= i < nodes.len() && links_back(nodes, i) {
        match nodes[i] {
            Entity::ValueLit(text) => Tree::Literal(text@),
            Entity::Value(name) => Tree::Variable(name@),
            Entity::Operation(operation) => Tree::Binary(
                operation.operator_of(),
                Box::new(tree_at(nodes, operation.left_of() as int)),
                Box::new(tree_at(nodes, operation.right_of() as int)),
            ),
            Entity::Function(call) => match call.second_of() {
                None => Tree::Call1(
                    call.function_of(),
                    Box::new(tree_at(nodes, call.first_of() as int)),
                ),
                Some(second) => Tree::Call2(
                    call.function_of(),
                    Box::new(tree_at(nodes, call.first_of() as int)),
                    Box::new(tree_at(nodes, second as int)),
                ),
            },
        }
    } else {
        Tree::Variable(Seq::empty())
    }
}

/// The handles of the expression at handle `i`, each node before the nodes
/// below it, and what stands left before what stands right.
pub open spec fn preorder_at(nodes: Seq<Entity<'_>>, i: int) -> Seq<usize>
    decreases i,
{
    if 0 <= i < nodes.len() && links_back(nodes, i) {
        match nodes[i] {
            Entity::Operation(operation) => seq![i as usize] + preorder_at(
                nodes,
                operation.left_of() as int,
            ) + preorder_at(nodes, operation.right_of() as int),
            Entity::Function(call) => match call.second_of() {
                None => seq![i as usize] + preorder_at(nodes, call.first_of() as int),
                Some(second) => seq![i as usize] + preorder_at(nodes, call.first_of() as int)
                    + preorder_at(nodes, second as int),
            },
            _ => seq![i as usize],
        }
    } else {
        Seq::empty()
    }
}

/// Nodes that are added behind an arena change no expression in it.
pub proof fn lemma_tree_at_stable(old_nodes: Seq<Entity<'_>>, new_nodes: Seq<Entity<'_>>, i: int)
    requires
        old_nodes.len() <= new_nodes.len(),
        forall|k: int| 0 <= k < old_nodes.len() ==> old_nodes[k] == new_nodes[k],
        0 <= i < old_nodes.len(),
    ensures
        tree_at(new_nodes, i) == tree_at(old_nodes, i),
    decreases i,
{
    if links_back(old_nodes, i) {
        match old_nodes[i] {
            Entity::Operation(operation) => {
                lemma_tree_at_stable(old_nodes, new_nodes, operation.left_of() as int);
                lemma_tree_at_stable(old_nodes, new_nodes, operation.right_of() as int);
            },
            Entity::Function(call) => {
                lemma_tree_at_stable(old_nodes, new_nodes, call.first_of() as int);
                if let Some(second) = call.second_of() {
                    lemma_tree_at_stable(old_nodes, new_nodes, second as int);
                }
            },
            _ => {},
        }
    }
}

/// A walk in pre-order meets as many handles as the expression has nodes.
pub proof fn lemma_preorder_len(nodes: Seq<Entity<'_>>, i: int)
    requires
        arena_ok(nodes),
        0 <= i < nodes.len(),
    ensures
        preorder_at(nodes, i).len() == tree_at(nodes, i).size(),
    decreases i,
{
    assert(links_back(nodes, i));
    match nodes[i] {
        Entity::Operation(operation) => {
            lemma_preorder_len(nodes, operation.left_of() as int);
            lemma_preorder_len(nodes, operation.right_of() as int);
        },
        Entity::Function(call) => {
            lemma_preorder_len(nodes, call.first_of() as int);
            if let Some(second) = call.second_of() {
                lemma_preorder_len(nodes, second as int);
            }
        },
        _ => {},
    }
}

/// An expression tree: an arena of nodes and the handle of the root.
///
/// Every node refers only to nodes that stand before it, so the arena holds
/// no cycle, and the root is a node of the arena.
pub struct Expression<'a> {
    nodes: Vec<Entity<'a>>,
    root: usize,
}

impl<'a> View for Expression<'a> {
    type V = Tree;

    /// The expression at the root.
    closed spec fn view(&self) -> Tree {
        tree_at(self.nodes@, self.root as int)
    }
}

impl<'a> Expression<'a> {
    /// The nodes of the arena, in the order of their handles.
    pub closed spec fn arena(&self) -> Seq<Entity<'a>> {
        self.nodes@
    }

    /// The handle of the root.
    pub closed spec fn root_of(&self) -> usize {
        self.root
    }

    #[verifier::type_invariant]
    pub closed spec fn well_formed(&self) -> bool {
        &&& arena_ok(self.nodes@)
        &&& self.root < self.nodes@.len()
    }

    /// The expression is the one that stands at the root of the arena.
    pub proof fn lemma_view(&self)
        ensures
            self@ == tree_at(self.arena(), self.root_of() as int),
    {
    }

    /// The expression whose nodes are `nodes` and whose root is `root`.
    pub fn new(nodes: Vec<Entity<'a>>, root: usize) -> (expression: Expression<'a>)
        requires
            arena_ok(nodes@),
            root < nodes@.len(),
        ensures
            expression.arena() == nodes@,
            expression.root_of() == root,
            expression@ == tree_at(nodes@, root as int),
    {
        Expression { nodes, root }
    }

    /// The handle of the root.
    pub fn root(&self) -> (handle: usize)
        ensures
            handle == self.root_of(),
            handle < self.arena().len(),
            arena_ok(self.arena()),
    {
        proof {
            use_type_invariant(self);
        }
        self.root
    }

    /// How many nodes the arena holds.
    pub fn len(&self) -> (n: usize)
        ensures
            n == self.arena().len(),
            n > 0,
    {
        proof {
            use_type_invariant(self);
        }
        self.nodes.len()
    }

    /// The node at a handle, if the arena has a node there.
    pub fn node(&self, handle: usize) -> (node: Option<&Entity<'a>>)
        ensures
            node == if handle < self.arena().len() {
                Some(&self.arena()[handle as int])
            } else {
                None
            },
            handle < self.arena().len() ==> links_back(self.arena(), handle as int),
    {
        proof {
            use_type_invariant(self);
        }
        if handle < self.nodes.len() {
            Some(&self.nodes[handle])
        } else {
            None
        }
    }

    /// The handles of the nodes of the expression in pre-order: each node
    /// before the nodes below it, the left operand before the right.
    pub fn preorder(&self) -> (order: Vec<usize>)
        ensures
            order@ == preorder_at(self.arena(), self.root_of() as int),
            order@.len() == self@.size(),
    {
        proof {
            use_type_invariant(self);
            lemma_preorder_len(self.nodes@, self.root as int);
        }
        let mut order: Vec<usize> = Vec::new();
        self.walk(self.root, &mut order);
        assert(Seq::<usize>::empty() + preorder_at(self.nodes@, self.root as int) =~= preorder_at(
            self.nodes@,
            self.root as int,
        ));
        order
    }

    /// Tells whether two expressions are the same: the same shape, the same
    /// numbers, the same names. How the nodes lie in the two arenas makes no
    /// difference.
    pub fn same_as(&self, other: &Expression<'_>) -> (same: bool)
        ensures
            same == (self@ == other@),
    {
        proof {
            use_type_invariant(self);
            use_type_invariant(other);
        }
        self.same_at(self.root, other, other.root)
    }

    fn same_at(&self, handle: usize, other: &Expression<'_>, other_handle: usize) -> (same: bool)
        requires
            handle < self.arena().len(),
            other_handle < other.arena().len(),
        ensures
            same == (tree_at(self.arena(), handle as int) == tree_at(
                other.arena(),
                other_handle as int,
            )),
        decreases handle,
    {
        proof {
            use_type_invariant(self);
            use_type_invariant(other);
        }
        assert(links_back(self.nodes@, handle as int));
        assert(links_back(other.nodes@, other_handle as int));
        match (self.nodes[handle], other.nodes[other_handle]) {
            (Entity::ValueLit(a), Entity::ValueLit(b)) => same_text(a, b),
            (Entity::Value(a), Entity::Value(b)) => same_text(a, b),
            (Entity::Operation(a), Entity::Operation(b)) => {
                a.operator() == b.operator() && self.same_at(a.left(), other, b.left())
                    && self.same_at(a.right(), other, b.right())
            },
            (Entity::Function(a), Entity::Function(b)) => {
                if a.function() != b.function() {
                    return false;
                }
                if !self.same_at(a.first(), other, b.first()) {
                    return false;
                }
                match (a.second(), b.second()) {
                    (None, None) => true,
                    (Some(p), Some(q)) => self.same_at(p, other, q),
                    _ => false,
                }
            },
            _ => false,
        }
    }

    fn walk(&self, handle: usize, order: &mut Vec<usize>)
        requires
            handle < self.arena().len(),
        ensures
            final(order)@ == old(order)@ + preorder_at(self.arena(), handle as int),
        decreases handle,
    {
        proof {
            use_type_invariant(self);
        }
        let ghost nodes = self.nodes@;
        let ghost before = order@;
        assert(links_back(nodes, handle as int));
        order.push(handle);
        match self.nodes[handle] {
            Entity::Operation(operation) => {
                self.walk(operation.left(), order);
                self.walk(operation.right(), order);
                assert(order@ =~= before + preorder_at(nodes, handle as int));
            },
            Entity::Function(call) => {
                self.walk(call.first(), order);
                match call.second() {
                    Some(second) => {
                        self.walk(second, order);
                    },
                    None => {},
                }
                assert(order@ =~= before + preorder_at(nodes, handle as int));
            },
            _ => {
                assert(order@ =~= before + preorder_at(nodes, handle as int));
            },
        }
    }
}

} // verus!
