use cranelift_equation_parser::{EquationParseError, FunctionType, Operator, ParenthesisType};

#[test]
fn operators_from_characters() {
    assert_eq!(Operator::try_from('+'), Ok(Operator::Add));
    assert_eq!(Operator::try_from('-'), Ok(Operator::Sub));
    assert_eq!(Operator::try_from('*'), Ok(Operator::Mul));
    assert_eq!(Operator::try_from('/'), Ok(Operator::Div));
    assert_eq!(Operator::try_from('^'), Ok(Operator::Pow));
    assert_eq!(Operator::try_from('x'), Err(EquationParseError::UnrecognizedCharacter));
    assert_eq!(Operator::try_from('('), Err(EquationParseError::UnrecognizedCharacter));
}

#[test]
fn operator_symbols_lead_back() {
    for operator in [Operator::Add, Operator::Sub, Operator::Mul, Operator::Div, Operator::Pow] {
        assert_eq!(Operator::try_from(operator.symbol()), Ok(operator));
    }
}

#[test]
fn operator_binding() {
    assert_eq!(Operator::Add.precedence(), 1);
    assert_eq!(Operator::Sub.precedence(), 1);
    assert_eq!(Operator::Mul.precedence(), 2);
    assert_eq!(Operator::Div.precedence(), 2);
    assert_eq!(Operator::Pow.precedence(), 3);
    assert!(Operator::Pow.is_right_associative());
    assert!(!Operator::Add.is_right_associative());
    assert!(!Operator::Sub.is_right_associative());
    assert!(!Operator::Mul.is_right_associative());
    assert!(!Operator::Div.is_right_associative());
}

#[test]
fn groupings_from_characters() {
    assert_eq!(ParenthesisType::try_from('('), Ok(ParenthesisType::Open));
    assert_eq!(ParenthesisType::try_from(')'), Ok(ParenthesisType::Close));
    assert_eq!(ParenthesisType::try_from('['), Ok(ParenthesisType::OpenSquare));
    assert_eq!(ParenthesisType::try_from(']'), Ok(ParenthesisType::CloseSquare));
    assert_eq!(ParenthesisType::try_from('{'), Ok(ParenthesisType::OpenCurly));
    assert_eq!(ParenthesisType::try_from('}'), Ok(ParenthesisType::CloseCurly));
    assert_eq!(ParenthesisType::try_from('|'), Err(EquationParseError::UnrecognizedCharacter));
    assert_eq!(ParenthesisType::try_from('<'), Err(EquationParseError::UnrecognizedCharacter));
}

#[test]
fn grouping_symbols_lead_back() {
    for p in [
        ParenthesisType::Open,
        ParenthesisType::Close,
        ParenthesisType::OpenSquare,
        ParenthesisType::CloseSquare,
        ParenthesisType::OpenCurly,
        ParenthesisType::CloseCurly,
    ] {
        assert_eq!(ParenthesisType::try_from(p.symbol()), Ok(p));
    }
}

#[test]
fn groupings_pair_by_kind() {
    assert!(ParenthesisType::Open.is_opening());
    assert!(ParenthesisType::OpenSquare.is_opening());
    assert!(ParenthesisType::OpenCurly.is_opening());
    assert!(!ParenthesisType::Close.is_opening());
    assert!(!ParenthesisType::CloseSquare.is_opening());
    assert!(!ParenthesisType::CloseCurly.is_opening());
    assert!(ParenthesisType::Open.is_closed_by(&ParenthesisType::Close));
    assert!(ParenthesisType::OpenSquare.is_closed_by(&ParenthesisType::CloseSquare));
    assert!(ParenthesisType::OpenCurly.is_closed_by(&ParenthesisType::CloseCurly));
    assert!(!ParenthesisType::Open.is_closed_by(&ParenthesisType::CloseSquare));
    assert!(!ParenthesisType::OpenSquare.is_closed_by(&ParenthesisType::CloseCurly));
    assert!(!ParenthesisType::Close.is_closed_by(&ParenthesisType::Close));
    assert!(!ParenthesisType::Open.is_closed_by(&ParenthesisType::Open));
}

#[test]
fn functions_from_names() {
    let table = [
        ("sin", FunctionType::Sin),
        ("cos", FunctionType::Cos),
        ("tan", FunctionType::Tan),
        ("cot", FunctionType::Cot),
        ("sec", FunctionType::Sec),
        ("csc", FunctionType::Csc),
        ("sinh", FunctionType::Sinh),
        ("cosh", FunctionType::Cosh),
        ("tanh", FunctionType::Tanh),
        ("coth", FunctionType::Coth),
        ("sech", FunctionType::Sech),
        ("csch", FunctionType::Csch),
        ("log", FunctionType::Log),
        ("ln", FunctionType::Ln),
        ("sqrt", FunctionType::Sqrt),
        ("root", FunctionType::Root),
        ("exp", FunctionType::Exp),
        ("mod", FunctionType::Mod),
        ("ceil", FunctionType::Ceil),
        ("floor", FunctionType::Floor),
        ("round", FunctionType::Round),
        ("abs", FunctionType::Abs),
    ];
    for (name, function) in table {
        assert_eq!(FunctionType::from_str(name), Ok(function));
        assert_eq!(function.name(), name);
    }
}

#[test]
fn unknown_function_names() {
    assert_eq!(FunctionType::from_str(""), Err(EquationParseError::UnknownFunction));
    assert_eq!(FunctionType::from_str("si"), Err(EquationParseError::UnknownFunction));
    assert_eq!(FunctionType::from_str("sine"), Err(EquationParseError::UnknownFunction));
    assert_eq!(FunctionType::from_str("SIN"), Err(EquationParseError::UnknownFunction));
    assert_eq!(FunctionType::from_str("log10"), Err(EquationParseError::UnknownFunction));
}

#[test]
fn function_arity() {
    assert_eq!(FunctionType::Log.arity(), 2);
    assert_eq!(FunctionType::Root.arity(), 2);
    assert_eq!(FunctionType::Mod.arity(), 2);
    for function in [
        FunctionType::Sin,
        FunctionType::Cos,
        FunctionType::Tan,
        FunctionType::Cot,
        FunctionType::Sec,
        FunctionType::Csc,
        FunctionType::Sinh,
        FunctionType::Cosh,
        FunctionType::Tanh,
        FunctionType::Coth,
        FunctionType::Sech,
        FunctionType::Csch,
        FunctionType::Ln,
        FunctionType::Sqrt,
        FunctionType::Exp,
        FunctionType::Ceil,
        FunctionType::Floor,
        FunctionType::Round,
        FunctionType::Abs,
    ] {
        assert_eq!(function.arity(), 1);
    }
}

#[test]
fn error_messages() {
    assert_eq!(EquationParseError::InvalidLiteral.message(), "Bad literal");
    assert_eq!(EquationParseError::UnknownFunction.message(), "Unknown function");
    assert_eq!(EquationParseError::UnrecognizedCharacter.message(), "No character match");
    assert_eq!(EquationParseError::MismatchedGrouping.message(), "Mismatched grouping");
    assert_eq!(EquationParseError::UnbalancedGrouping.message(), "Unbalanced grouping");
    assert_eq!(
        EquationParseError::WrongArity { expected: 1, found: 2 }.message(),
        "Wrong number of arguments"
    );
    assert_eq!(EquationParseError::EmptyExpression.message(), "Empty expression");
    assert_eq!(EquationParseError::UnexpectedToken.message(), "Unexpected token");
    assert_eq!(EquationParseError::TrailingTokens.message(), "Trailing tokens");
}
