use crate::chars::{ascii_letter, same_text};
use crate::error::EquationParseError;
use vstd::prelude::*;
use vstd::std_specs::convert::TryFromSpecImpl;

verus! {

/// A token as the tokenizer cuts it out of the text. A token of variable
/// length names its place in the text by the index of its first character
/// and the index behind its last; the text itself is not copied.
#[derive(Debug, Clone, Copy, PartialEq, Eq, Structural)]
pub enum RawSyntax {
    /// The place of a number, like `5`.
    ValueLit { start: usize, end: usize },
    /// The place of a name that no `(` follows, like `x`.
    ValueIdent { start: usize, end: usize },
    /// An operator, like `+`, `-`, `*`, `/`.
    Operator(Operator),
    /// A grouping symbol, like `(` or `)`.
    Parenthesis(ParenthesisType),
    /// The place of a name that `(` follows at once, like `sin`.
    Function { start: usize, end: usize },
    /// A comma, which parts the arguments of a function.
    Comma,
    /// The bar of an absolute value, `|x|`.
    Abs,
}

impl RawSyntax {
    /// The place in the text that the token names, if it names one.
    pub open spec fn span(self) -> Option<(int, int)> {
        match self {
            RawSyntax::ValueLit { start, end } => Some((start as int, end as int)),
            RawSyntax::ValueIdent { start, end } => Some((start as int, end as int)),
            RawSyntax::Function { start, end } => Some((start as int, end as int)),
            _ => None,
        }
    }
}

/// Whether every token that names a place in the text names one that lies
/// within a text of `len` characters.
pub open spec fn spans_fit(raw: Seq<RawSyntax>, len: int) -> bool {
    forall|i: int|
        0 <= i < raw.len() ==> match (#[trigger] raw[i]).span() {
            Some((start, end)) => 0 <= start <= end <= len,
            None => true,
        }
}

/// A token as the resolver hands it to the tree builder: numbers are
/// checked, names are cut out of the text, function names are looked up and
/// the multiplications that juxtaposition implies are written out. Numbers
/// and names borrow from the text of the equation.
#[derive(Debug, Clone, Copy, PartialEq)]
pub enum Syntax<'a> {
    /// The text of a decimal number, like `5` or `2.5`.
    ValueLit(&'a str),
    /// A name, like `x`.
    ValueIdent(&'a str),
    /// An operator, like `+`, `-`, `*`, `/`.
    Operator(Operator),
    /// A grouping symbol, like `(` or `)`.
    Parenthesis(ParenthesisType),
    /// A known function, like `sin` or `cos`.
    Function(FunctionType),
    /// A comma, which parts the arguments of a function.
    Comma,
    /// The bar of an absolute value, `|x|`.
    Abs,
}

/// What a resolved token is, with the borrowed texts as sequences of
/// characters.
pub enum Token {
    ValueLit(Seq<char>),
    ValueIdent(Seq<char>),
    Operator(Operator),
    Parenthesis(ParenthesisType),
    Function(FunctionType),
    Comma,
    Abs,
}

impl<'a> View for Syntax<'a> {
    type V = Token;

    open spec fn view(&self) -> Token {
        match *self {
            Syntax::ValueLit(text) => Token::ValueLit(text@),
            Syntax::ValueIdent(name) => Token::ValueIdent(name@),
            Syntax::Operator(operator) => Token::Operator(operator),
            Syntax::Parenthesis(parenthesis) => Token::Parenthesis(parenthesis),
            Syntax::Function(function) => Token::Function(function),
            Syntax::Comma => Token::Comma,
            Syntax::Abs => Token::Abs,
        }
    }
}

impl Token {
    /// The text that spells the token: the number or the name itself, the
    /// character of an operator or a symbol, the name of a function.
    pub open spec fn spelled(self) -> Seq<char> {
        match self {
            Token::ValueLit(text) => text,
            Token::ValueIdent(name) => name,
            Token::Operator(operator) => seq![operator.glyph()],
            Token::Parenthesis(parenthesis) => seq![parenthesis.glyph()],
            Token::Function(function) => function.name_text(),
            Token::Comma => seq![','],
            Token::Abs => seq!['|'],
        }
    }
}

impl<'a> Syntax<'a> {
    /// The text that spells the token.
    pub fn spelling(&self) -> (text: &'a str)
        ensures
            text@ == self@.spelled(),
    {
        match self {
            Syntax::ValueLit(text) => text,
            Syntax::ValueIdent(name) => name,
            Syntax::Operator(operator) => operator.spelling(),
            Syntax::Parenthesis(parenthesis) => parenthesis.spelling(),
            Syntax::Function(function) => function.name(),
            Syntax::Comma => {
                proof {
                    reveal_strlit(",");
                }
                let text = ",";
                assert(text@ =~= seq![',']);
                text
            },
            Syntax::Abs => {
                proof {
                    reveal_strlit("|");
                }
                let text = "|";
                assert(text@ =~= seq!['|']);
                text
            },
        }
    }
}

/// The tokens of a resolved sequence, one for one.
pub open spec fn tokens_view(tokens: Seq<Syntax<'_>>) -> Seq<Token> {
    tokens.map_values(|t: Syntax<'_>| t@)
}

/// A binary operator of the equation language.
#[derive(Debug, Clone, Copy, PartialEq, Eq, Structural)]
pub enum Operator {
    /// `+`
    Add,
    /// `-`
    Sub,
    /// `*`
    Mul,
    /// `/`
    Div,
    /// `^`
    Pow,
}

impl Operator {
    /// The operator that a character spells, if it spells one.
    pub open spec fn of_char(c: char) -> Option<Operator> {
        if c == '+' {
            Some(Operator::Add)
        } else if c == '-' {
            Some(Operator::Sub)
        } else if c == '*' {
            Some(Operator::Mul)
        } else if c == '/' {
            Some(Operator::Div)
        } else if c == '^' {
            Some(Operator::Pow)
        } else {
            None
        }
    }

    /// How tightly the operator binds: sums below products below powers.
    pub open spec fn binding(self) -> nat {
        match self {
            Operator::Add | Operator::Sub => 1,
            Operator::Mul | Operator::Div => 2,
            Operator::Pow => 3,
        }
    }

    /// Whether a chain of this operator groups from the right.
    pub open spec fn groups_right(self) -> bool {
        self == Operator::Pow
    }

    /// The character that spells the operator.
    pub open spec fn glyph(self) -> char {
        match self {
            Operator::Add => '+',
            Operator::Sub => '-',
            Operator::Mul => '*',
            Operator::Div => '/',
            Operator::Pow => '^',
        }
    }

    pub fn precedence(&self) -> (level: u8)
        ensures
            level == self.binding(),
    {
        match self {
            Operator::Add | Operator::Sub => 1,
            Operator::Mul | Operator::Div => 2,
            Operator::Pow => 3,
        }
    }

    pub fn is_right_associative(&self) -> (right: bool)
        ensures
            right == self.groups_right(),
    {
        match self {
            Operator::Pow => true,
            _ => false,
        }
    }

    /// The operator as a text of one character.
    pub fn spelling(&self) -> (text: &'static str)
        ensures
            text@ == seq![self.glyph()],
    {
        proof {
            reveal_strlit("+");
            reveal_strlit("-");
            reveal_strlit("*");
            reveal_strlit("/");
            reveal_strlit("^");
        }
        let text = match self {
            Operator::Add => "+",
            Operator::Sub => "-",
            Operator::Mul => "*",
            Operator::Div => "/",
            Operator::Pow => "^",
        };
        assert(text@ =~= seq![self.glyph()]);
        text
    }

    pub fn symbol(&self) -> (c: char)
        ensures
            c == self.glyph(),
    {
        match self {
            Operator::Add => '+',
            Operator::Sub => '-',
            Operator::Mul => '*',
            Operator::Div => '/',
            Operator::Pow => '^',
        }
    }
}

impl TryFrom<char> for Operator {
    type Error = EquationParseError;

    fn try_from(value: char) -> (r: Result<Self, Self::Error>) {
        match value {
            '+' => Ok(Self::Add),
            '-' => Ok(Self::Sub),
            '*' => Ok(Self::Mul),
            '/' => Ok(Self::Div),
            '^' => Ok(Self::Pow),
            _ => Err(EquationParseError::UnrecognizedCharacter),
        }
    }
}

impl TryFromSpecImpl<char> for Operator {
    open spec fn obeys_try_from_spec() -> bool {
        true
    }

    open spec fn try_from_spec(v: char) -> Result<Self, Self::Error> {
        match Operator::of_char(v) {
            Some(op) => Ok(op),
            None => Err(EquationParseError::UnrecognizedCharacter),
        }
    }
}

/// One of the six grouping symbols. The three pairs mean the same; a scope
/// has to be closed by the partner of the symbol that opened it.
#[derive(Debug, Clone, Copy, PartialEq, Eq, Structural)]
pub enum ParenthesisType {
    /// `(`
    Open,
    /// `)`
    Close,
    /// `[`
    OpenSquare,
    /// `]`
    CloseSquare,
    /// `{`
    OpenCurly,
    /// `}`
    CloseCurly,
}

impl ParenthesisType {
    /// The grouping symbol that a character spells, if it spells one.
    pub open spec fn of_char(c: char) -> Option<ParenthesisType> {
        if c == '(' {
            Some(ParenthesisType::Open)
        } else if c == ')' {
            Some(ParenthesisType::Close)
        } else if c == '[' {
            Some(ParenthesisType::OpenSquare)
        } else if c == ']' {
            Some(ParenthesisType::CloseSquare)
        } else if c == '{' {
            Some(ParenthesisType::OpenCurly)
        } else if c == '}' {
            Some(ParenthesisType::CloseCurly)
        } else {
            None
        }
    }

    /// Whether the symbol opens a scope.
    pub open spec fn opens(self) -> bool {
        self == ParenthesisType::Open || self == ParenthesisType::OpenSquare || self
            == ParenthesisType::OpenCurly
    }

    /// The symbol that closes what an opening symbol opened; a closing
    /// symbol is its own partner.
    pub open spec fn partner(self) -> ParenthesisType {
        match self {
            ParenthesisType::Open | ParenthesisType::Close => ParenthesisType::Close,
            ParenthesisType::OpenSquare | ParenthesisType::CloseSquare => {
                ParenthesisType::CloseSquare
            },
            ParenthesisType::OpenCurly | ParenthesisType::CloseCurly => ParenthesisType::CloseCurly,
        }
    }

    /// The character that spells the symbol.
    pub open spec fn glyph(self) -> char {
        match self {
            ParenthesisType::Open => '(',
            ParenthesisType::Close => ')',
            ParenthesisType::OpenSquare => '[',
            ParenthesisType::CloseSquare => ']',
            ParenthesisType::OpenCurly => '{',
            ParenthesisType::CloseCurly => '}',
        }
    }

    pub fn is_opening(&self) -> (open: bool)
        ensures
            open == self.opens(),
    {
        match self {
            ParenthesisType::Open | ParenthesisType::OpenSquare | ParenthesisType::OpenCurly => {
                true
            },
            _ => false,
        }
    }

    /// Whether `close` is the closing symbol of the pair that `self` opens.
    pub fn is_closed_by(&self, close: &ParenthesisType) -> (paired: bool)
        ensures
            paired == (self.opens() && !close.opens() && self.partner() == *close),
    {
        match (self, close) {
            (ParenthesisType::Open, ParenthesisType::Close) => true,
            (ParenthesisType::OpenSquare, ParenthesisType::CloseSquare) => true,
            (ParenthesisType::OpenCurly, ParenthesisType::CloseCurly) => true,
            _ => false,
        }
    }

    /// The symbol as a text of one character.
    pub fn spelling(&self) -> (text: &'static str)
        ensures
            text@ == seq![self.glyph()],
    {
        proof {
            reveal_strlit("(");
            reveal_strlit(")");
            reveal_strlit("[");
            reveal_strlit("]");
            reveal_strlit("{");
            reveal_strlit("}");
        }
        let text = match self {
            ParenthesisType::Open => "(",
            ParenthesisType::Close => ")",
            ParenthesisType::OpenSquare => "[",
            ParenthesisType::CloseSquare => "]",
            ParenthesisType::OpenCurly => "{",
            ParenthesisType::CloseCurly => "}",
        };
        assert(text@ =~= seq![self.glyph()]);
        text
    }

    pub fn symbol(&self) -> (c: char)
        ensures
            c == self.glyph(),
    {
        match self {
            ParenthesisType::Open => '(',
            ParenthesisType::Close => ')',
            ParenthesisType::OpenSquare => '[',
            ParenthesisType::CloseSquare => ']',
            ParenthesisType::OpenCurly => '{',
            ParenthesisType::CloseCurly => '}',
        }
    }
}

impl TryFrom<char> for ParenthesisType {
    type Error = EquationParseError;

    fn try_from(value: char) -> (r: Result<Self, Self::Error>) {
        match value {
            '(' => Ok(Self::Open),
            ')' => Ok(Self::Close),
            '[' => Ok(Self::OpenSquare),
            ']' => Ok(Self::CloseSquare),
            '{' => Ok(Self::OpenCurly),
            '}' => Ok(Self::CloseCurly),
            _ => Err(EquationParseError::UnrecognizedCharacter),
        }
    }
}

impl TryFromSpecImpl<char> for ParenthesisType {
    open spec fn obeys_try_from_spec() -> bool {
        true
    }

    open spec fn try_from_spec(v: char) -> Result<Self, Self::Error> {
        match ParenthesisType::of_char(v) {
            Some(p) => Ok(p),
            None => Err(EquationParseError::UnrecognizedCharacter),
        }
    }
}

/// A function of the equation language. The set is closed, and each
/// function takes a fixed number of arguments.
#[derive(Debug, Clone, Copy, PartialEq, Eq, Structural)]
pub enum FunctionType {
    Sin,
    Cos,
    Tan,
    Cot,
    Sec,
    Csc,
    Sinh,
    Cosh,
    Tanh,
    Coth,
    Sech,
    Csch,
    Log,
    Ln,
    Sqrt,
    Root,
    Exp,
    Mod,
    Ceil,
    Floor,
    Round,
    Abs,
}

impl FunctionType {
    /// The function that a name spells, if it spells one. Names are in lower
    /// case and have to match letter for letter.
    pub open spec fn named(name: Seq<char>) -> Option<FunctionType> {
        if name == "sin"@ {
            Some(FunctionType::Sin)
        } else if name == "cos"@ {
            Some(FunctionType::Cos)
        } else if name == "tan"@ {
            Some(FunctionType::Tan)
        } else if name == "cot"@ {
            Some(FunctionType::Cot)
        } else if name == "sec"@ {
            Some(FunctionType::Sec)
        } else if name == "csc"@ {
            Some(FunctionType::Csc)
        } else if name == "sinh"@ {
            Some(FunctionType::Sinh)
        } else if name == "cosh"@ {
            Some(FunctionType::Cosh)
        } else if name == "tanh"@ {
            Some(FunctionType::Tanh)
        } else if name == "coth"@ {
            Some(FunctionType::Coth)
        } else if name == "sech"@ {
            Some(FunctionType::Sech)
        } else if name == "csch"@ {
            Some(FunctionType::Csch)
        } else if name == "log"@ {
            Some(FunctionType::Log)
        } else if name == "ln"@ {
            Some(FunctionType::Ln)
        } else if name == "sqrt"@ {
            Some(FunctionType::Sqrt)
        } else if name == "root"@ {
            Some(FunctionType::Root)
        } else if name == "exp"@ {
            Some(FunctionType::Exp)
        } else if name == "mod"@ {
            Some(FunctionType::Mod)
        } else if name == "ceil"@ {
            Some(FunctionType::Ceil)
        } else if name == "floor"@ {
            Some(FunctionType::Floor)
        } else if name == "round"@ {
            Some(FunctionType::Round)
        } else if name == "abs"@ {
            Some(FunctionType::Abs)
        } else {
            None
        }
    }

    /// The name that spells the function.
    pub open spec fn name_text(self) -> Seq<char> {
        match self {
            FunctionType::Sin => "sin"@,
            FunctionType::Cos => "cos"@,
            FunctionType::Tan => "tan"@,
            FunctionType::Cot => "cot"@,
            FunctionType::Sec => "sec"@,
            FunctionType::Csc => "csc"@,
            FunctionType::Sinh => "sinh"@,
            FunctionType::Cosh => "cosh"@,
            FunctionType::Tanh => "tanh"@,
            FunctionType::Coth => "coth"@,
            FunctionType::Sech => "sech"@,
            FunctionType::Csch => "csch"@,
            FunctionType::Log => "log"@,
            FunctionType::Ln => "ln"@,
            FunctionType::Sqrt => "sqrt"@,
            FunctionType::Root => "root"@,
            FunctionType::Exp => "exp"@,
            FunctionType::Mod => "mod"@,
            FunctionType::Ceil => "ceil"@,
            FunctionType::Floor => "floor"@,
            FunctionType::Round => "round"@,
            FunctionType::Abs => "abs"@,
        }
    }

    /// How many arguments the function takes: one, or two for `log`, `root`
    /// and `mod`.
    pub open spec fn arguments(self) -> nat {
        match self {
            FunctionType::Log | FunctionType::Root | FunctionType::Mod => 2,
            _ => 1,
        }
    }

    /// Looks a name up in the table of functions.
    pub fn from_str(s: &str) -> (r: Result<FunctionType, EquationParseError>)
        ensures
            r == match FunctionType::named(s@) {
                Some(f) => Ok::<FunctionType, EquationParseError>(f),
                None => Err(EquationParseError::UnknownFunction),
            },
    {
        if same_text(s, "sin") {
            Ok(FunctionType::Sin)
        } else if same_text(s, "cos") {
            Ok(FunctionType::Cos)
        } else if same_text(s, "tan") {
            Ok(FunctionType::Tan)
        } else if same_text(s, "cot") {
            Ok(FunctionType::Cot)
        } else if same_text(s, "sec") {
            Ok(FunctionType::Sec)
        } else if same_text(s, "csc") {
            Ok(FunctionType::Csc)
        } else if same_text(s, "sinh") {
            Ok(FunctionType::Sinh)
        } else if same_text(s, "cosh") {
            Ok(FunctionType::Cosh)
        } else if same_text(s, "tanh") {
            Ok(FunctionType::Tanh)
        } else if same_text(s, "coth") {
            Ok(FunctionType::Coth)
        } else if same_text(s, "sech") {
            Ok(FunctionType::Sech)
        } else if same_text(s, "csch") {
            Ok(FunctionType::Csch)
        } else if same_text(s, "log") {
            Ok(FunctionType::Log)
        } else if same_text(s, "ln") {
            Ok(FunctionType::Ln)
        } else if same_text(s, "sqrt") {
            Ok(FunctionType::Sqrt)
        } else if same_text(s, "root") {
            Ok(FunctionType::Root)
        } else if same_text(s, "exp") {
            Ok(FunctionType::Exp)
        } else if same_text(s, "mod") {
            Ok(FunctionType::Mod)
        } else if same_text(s, "ceil") {
            Ok(FunctionType::Ceil)
        } else if same_text(s, "floor") {
            Ok(FunctionType::Floor)
        } else if same_text(s, "round") {
            Ok(FunctionType::Round)
        } else if same_text(s, "abs") {
            Ok(FunctionType::Abs)
        } else {
            Err(EquationParseError::UnknownFunction)
        }
    }

    pub fn name(&self) -> (text: &'static str)
        ensures
            text@ == self.name_text(),
    {
        match self {
            FunctionType::Sin => "sin",
            FunctionType::Cos => "cos",
            FunctionType::Tan => "tan",
            FunctionType::Cot => "cot",
            FunctionType::Sec => "sec",
            FunctionType::Csc => "csc",
            FunctionType::Sinh => "sinh",
            FunctionType::Cosh => "cosh",
            FunctionType::Tanh => "tanh",
            FunctionType::Coth => "coth",
            FunctionType::Sech => "sech",
            FunctionType::Csch => "csch",
            FunctionType::Log => "log",
            FunctionType::Ln => "ln",
            FunctionType::Sqrt => "sqrt",
            FunctionType::Root => "root",
            FunctionType::Exp => "exp",
            FunctionType::Mod => "mod",
            FunctionType::Ceil => "ceil",
            FunctionType::Floor => "floor",
            FunctionType::Round => "round",
            FunctionType::Abs => "abs",
        }
    }

    pub fn arity(&self) -> (n: usize)
        ensures
            n == self.arguments(),
    {
        match self {
            FunctionType::Log | FunctionType::Root | FunctionType::Mod => 2,
            _ => 1,
        }
    }
}

/// Every function is found again under its own name.
pub proof fn lemma_function_name_round_trip(f: FunctionType)
    ensures
        FunctionType::named(f.name_text()) == Some(f),
{
    reveal_strlit("sin");
    reveal_strlit("cos");
    reveal_strlit("tan");
    reveal_strlit("cot");
    reveal_strlit("sec");
    reveal_strlit("csc");
    reveal_strlit("sinh");
    reveal_strlit("cosh");
    reveal_strlit("tanh");
    reveal_strlit("coth");
    reveal_strlit("sech");
    reveal_strlit("csch");
    reveal_strlit("log");
    reveal_strlit("ln");
    reveal_strlit("sqrt");
    reveal_strlit("root");
    reveal_strlit("exp");
    reveal_strlit("mod");
    reveal_strlit("ceil");
    reveal_strlit("floor");
    reveal_strlit("round");
    reveal_strlit("abs");
    assert("sin"@.len() == 3 && "sin"@[0] == 's' && "sin"@[1] == 'i' && "sin"@[2] == 'n');
    assert("cos"@.len() == 3 && "cos"@[0] == 'c' && "cos"@[1] == 'o' && "cos"@[2] == 's');
    assert("tan"@.len() == 3 && "tan"@[0] == 't' && "tan"@[1] == 'a' && "tan"@[2] == 'n');
    assert("cot"@.len() == 3 && "cot"@[0] == 'c' && "cot"@[1] == 'o' && "cot"@[2] == 't');
    assert("sec"@.len() == 3 && "sec"@[0] == 's' && "sec"@[1] == 'e' && "sec"@[2] == 'c');
    assert("csc"@.len() == 3 && "csc"@[0] == 'c' && "csc"@[1] == 's' && "csc"@[2] == 'c');
    assert("sinh"@.len() == 4 && "sinh"@[0] == 's' && "sinh"@[1] == 'i' && "sinh"@[2] == 'n'
        && "sinh"@[3] == 'h');
    assert("cosh"@.len() == 4 && "cosh"@[0] == 'c' && "cosh"@[1] == 'o' && "cosh"@[2] == 's'
        && "cosh"@[3] == 'h');
    assert("tanh"@.len() == 4 && "tanh"@[0] == 't' && "tanh"@[1] == 'a' && "tanh"@[2] == 'n'
        && "tanh"@[3] == 'h');
    assert("coth"@.len() == 4 && "coth"@[0] == 'c' && "coth"@[1] == 'o' && "coth"@[2] == 't'
        && "coth"@[3] == 'h');
    assert("sech"@.len() == 4 && "sech"@[0] == 's' && "sech"@[1] == 'e' && "sech"@[2] == 'c'
        && "sech"@[3] == 'h');
    assert("csch"@.len() == 4 && "csch"@[0] == 'c' && "csch"@[1] == 's' && "csch"@[2] == 'c'
        && "csch"@[3] == 'h');
    assert("log"@.len() == 3 && "log"@[0] == 'l' && "log"@[1] == 'o' && "log"@[2] == 'g');
    assert("ln"@.len() == 2 && "ln"@[0] == 'l' && "ln"@[1] == 'n');
    assert("sqrt"@.len() == 4 && "sqrt"@[0] == 's' && "sqrt"@[1] == 'q' && "sqrt"@[2] == 'r'
        && "sqrt"@[3] == 't');
    assert("root"@.len() == 4 && "root"@[0] == 'r' && "root"@[1] == 'o' && "root"@[2] == 'o'
        && "root"@[3] == 't');
    assert("exp"@.len() == 3 && "exp"@[0] == 'e' && "exp"@[1] == 'x' && "exp"@[2] == 'p');
    assert("mod"@.len() == 3 && "mod"@[0] == 'm' && "mod"@[1] == 'o' && "mod"@[2] == 'd');
    assert("ceil"@.len() == 4 && "ceil"@[0] == 'c' && "ceil"@[1] == 'e' && "ceil"@[2] == 'i'
        && "ceil"@[3] == 'l');
    assert("floor"@.len() == 5 && "floor"@[0] == 'f' && "floor"@[1] == 'l' && "floor"@[2] == 'o'
        && "floor"@[3] == 'o' && "floor"@[4] == 'r');
    assert("round"@.len() == 5 && "round"@[0] == 'r' && "round"@[1] == 'o' && "round"@[2] == 'u'
        && "round"@[3] == 'n' && "round"@[4] == 'd');
    assert("abs"@.len() == 3 && "abs"@[0] == 'a' && "abs"@[1] == 'b' && "abs"@[2] == 's');
}

/// The name of every function is a word of ASCII letters.
pub proof fn lemma_function_name_letters(f: FunctionType)
    ensures
        f.name_text().len() > 0,
        forall|i: int| 0 <= i < f.name_text().len() ==> ascii_letter(#[trigger] f.name_text()[i]),
{
    reveal_strlit("sin");
    reveal_strlit("cos");
    reveal_strlit("tan");
    reveal_strlit("cot");
    reveal_strlit("sec");
    reveal_strlit("csc");
    reveal_strlit("sinh");
    reveal_strlit("cosh");
    reveal_strlit("tanh");
    reveal_strlit("coth");
    reveal_strlit("sech");
    reveal_strlit("csch");
    reveal_strlit("log");
    reveal_strlit("ln");
    reveal_strlit("sqrt");
    reveal_strlit("root");
    reveal_strlit("exp");
    reveal_strlit("mod");
    reveal_strlit("ceil");
    reveal_strlit("floor");
    reveal_strlit("round");
    reveal_strlit("abs");
    match f {
        FunctionType::Sin => {
            assert("sin"@.len() == 3 && "sin"@[0] == 's' && "sin"@[1] == 'i' && "sin"@[2] == 'n');
        },
        FunctionType::Cos => {
            assert("cos"@.len() == 3 && "cos"@[0] == 'c' && "cos"@[1] == 'o' && "cos"@[2] == 's');
        },
        FunctionType::Tan => {
            assert("tan"@.len() == 3 && "tan"@[0] == 't' && "tan"@[1] == 'a' && "tan"@[2] == 'n');
        },
        FunctionType::Cot => {
            assert("cot"@.len() == 3 && "cot"@[0] == 'c' && "cot"@[1] == 'o' && "cot"@[2] == 't');
        },
        FunctionType::Sec => {
            assert("sec"@.len() == 3 && "sec"@[0] == 's' && "sec"@[1] == 'e' && "sec"@[2] == 'c');
        },
        FunctionType::Csc => {
            assert("csc"@.len() == 3 && "csc"@[0] == 'c' && "csc"@[1] == 's' && "csc"@[2] == 'c');
        },
        FunctionType::Sinh => {
            assert("sinh"@.len() == 4 && "sinh"@[0] == 's' && "sinh"@[1] == 'i'
                && "sinh"@[2] == 'n' && "sinh"@[3] == 'h');
        },
        FunctionType::Cosh => {
            assert("cosh"@.len() == 4 && "cosh"@[0] == 'c' && "cosh"@[1] == 'o'
                && "cosh"@[2] == 's' && "cosh"@[3] == 'h');
        },
        FunctionType::Tanh => {
            assert("tanh"@.len() == 4 && "tanh"@[0] == 't' && "tanh"@[1] == 'a'
                && "tanh"@[2] == 'n' && "tanh"@[3] == 'h');
        },
        FunctionType::Coth => {
            assert("coth"@.len() == 4 && "coth"@[0] == 'c' && "coth"@[1] == 'o'
                && "coth"@[2] == 't' && "coth"@[3] == 'h');
        },
        FunctionType::Sech => {
            assert("sech"@.len() == 4 && "sech"@[0] == 's' && "sech"@[1] == 'e'
                && "sech"@[2] == 'c' && "sech"@[3] == 'h');
        },
        FunctionType::Csch => {
            assert("csch"@.len() == 4 && "csch"@[0] == 'c' && "csch"@[1] == 's'
                && "csch"@[2] == 'c' && "csch"@[3] == 'h');
        },
        FunctionType::Log => {
            assert("log"@.len() == 3 && "log"@[0] == 'l' && "log"@[1] == 'o' && "log"@[2] == 'g');
        },
        FunctionType::Ln => {
            assert("ln"@.len() == 2 && "ln"@[0] == 'l' && "ln"@[1] == 'n');
        },
        FunctionType::Sqrt => {
            assert("sqrt"@.len() == 4 && "sqrt"@[0] == 's' && "sqrt"@[1] == 'q'
                && "sqrt"@[2] == 'r' && "sqrt"@[3] == 't');
        },
        FunctionType::Root => {
            assert("root"@.len() == 4 && "root"@[0] == 'r' && "root"@[1] == 'o'
                && "root"@[2] == 'o' && "root"@[3] == 't');
        },
        FunctionType::Exp => {
            assert("exp"@.len() == 3 && "exp"@[0] == 'e' && "exp"@[1] == 'x' && "exp"@[2] == 'p');
        },
        FunctionType::Mod => {
            assert("mod"@.len() == 3 && "mod"@[0] == 'm' && "mod"@[1] == 'o' && "mod"@[2] == 'd');
        },
        FunctionType::Ceil => {
            assert("ceil"@.len() == 4 && "ceil"@[0] == 'c' && "ceil"@[1] == 'e'
                && "ceil"@[2] == 'i' && "ceil"@[3] == 'l');
        },
        FunctionType::Floor => {
            assert("floor"@.len() == 5 && "floor"@[0] == 'f' && "floor"@[1] == 'l'
                && "floor"@[2] == 'o' && "floor"@[3] == 'o' && "floor"@[4] == 'r');
        },
        FunctionType::Round => {
            assert("round"@.len() == 5 && "round"@[0] == 'r' && "round"@[1] == 'o'
                && "round"@[2] == 'u' && "round"@[3] == 'n' && "round"@[4] == 'd');
        },
        FunctionType::Abs => {
            assert("abs"@.len() == 3 && "abs"@[0] == 'a' && "abs"@[1] == 'b' && "abs"@[2] == 's');
        },
    }
}

/// Every operator is spelled by the character that spells it back.
pub proof fn lemma_operator_glyph_round_trip(op: Operator)
    ensures
        Operator::of_char(op.glyph()) == Some(op),
{
}

/// Every grouping symbol is spelled by the character that spells it back.
pub proof fn lemma_parenthesis_glyph_round_trip(p: ParenthesisType)
    ensures
        ParenthesisType::of_char(p.glyph()) == Some(p),
{
}

} // verus!
