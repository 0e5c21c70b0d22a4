use cranelift_equation_parser::{
    first_parse, second_parse, EquationParseError, FunctionType, Operator, ParenthesisType,
    RawSyntax, Syntax,
};

fn resolve(equation: &str) -> Result<Vec<Syntax<'_>>, EquationParseError> {
    let raw = first_parse(equation)?;
    second_parse(&raw, equation)
}

#[test]
fn tokenizes_a_number() {
    assert_eq!(first_parse("42"), Ok(vec![RawSyntax::ValueLit { start: 0, end: 2 }]));
    assert_eq!(first_parse("2.5"), Ok(vec![RawSyntax::ValueLit { start: 0, end: 3 }]));
}

#[test]
fn tokenizes_a_name() {
    assert_eq!(first_parse("x"), Ok(vec![RawSyntax::ValueIdent { start: 0, end: 1 }]));
    assert_eq!(first_parse("abc"), Ok(vec![RawSyntax::ValueIdent { start: 0, end: 3 }]));
}

#[test]
fn tokenizes_nothing_from_empty_text() {
    assert_eq!(first_parse(""), Ok(vec![]));
    assert_eq!(first_parse("   "), Ok(vec![]));
}

#[test]
fn tokenizes_a_function_name_only_before_a_round_bracket() {
    assert_eq!(
        first_parse("sin(x)"),
        Ok(vec![
            RawSyntax::Function { start: 0, end: 3 },
            RawSyntax::Parenthesis(ParenthesisType::Open),
            RawSyntax::ValueIdent { start: 4, end: 5 },
            RawSyntax::Parenthesis(ParenthesisType::Close),
        ])
    );
    assert_eq!(
        first_parse("sin (x)"),
        Ok(vec![
            RawSyntax::ValueIdent { start: 0, end: 3 },
            RawSyntax::Parenthesis(ParenthesisType::Open),
            RawSyntax::ValueIdent { start: 5, end: 6 },
            RawSyntax::Parenthesis(ParenthesisType::Close),
        ])
    );
    assert_eq!(
        first_parse("sin[x]"),
        Ok(vec![
            RawSyntax::ValueIdent { start: 0, end: 3 },
            RawSyntax::Parenthesis(ParenthesisType::OpenSquare),
            RawSyntax::ValueIdent { start: 4, end: 5 },
            RawSyntax::Parenthesis(ParenthesisType::CloseSquare),
        ])
    );
}

#[test]
fn a_run_of_one_class_ends_where_the_other_begins() {
    assert_eq!(
        first_parse("2x"),
        Ok(vec![RawSyntax::ValueLit { start: 0, end: 1 }, RawSyntax::ValueIdent { start: 1, end: 2 }])
    );
    assert_eq!(
        first_parse("x2"),
        Ok(vec![RawSyntax::ValueIdent { start: 0, end: 1 }, RawSyntax::ValueLit { start: 1, end: 2 }])
    );
    assert_eq!(
        first_parse("ab12.5cd"),
        Ok(vec![
            RawSyntax::ValueIdent { start: 0, end: 2 },
            RawSyntax::ValueLit { start: 2, end: 6 },
            RawSyntax::ValueIdent { start: 6, end: 8 },
        ])
    );
}

#[test]
fn tokenizes_every_single_character_token() {
    assert_eq!(
        first_parse("+-*/^,|()[]{}"),
        Ok(vec![
            RawSyntax::Operator(Operator::Add),
            RawSyntax::Operator(Operator::Sub),
            RawSyntax::Operator(Operator::Mul),
            RawSyntax::Operator(Operator::Div),
            RawSyntax::Operator(Operator::Pow),
            RawSyntax::Comma,
            RawSyntax::Abs,
            RawSyntax::Parenthesis(ParenthesisType::Open),
            RawSyntax::Parenthesis(ParenthesisType::Close),
            RawSyntax::Parenthesis(ParenthesisType::OpenSquare),
            RawSyntax::Parenthesis(ParenthesisType::CloseSquare),
            RawSyntax::Parenthesis(ParenthesisType::OpenCurly),
            RawSyntax::Parenthesis(ParenthesisType::CloseCurly),
        ])
    );
}

#[test]
fn spaces_part_runs_and_leave_no_token() {
    assert_eq!(
        first_parse("1 2"),
        Ok(vec![RawSyntax::ValueLit { start: 0, end: 1 }, RawSyntax::ValueLit { start: 2, end: 3 }])
    );
    assert_eq!(
        first_parse(" a  b "),
        Ok(vec![RawSyntax::ValueIdent { start: 1, end: 2 }, RawSyntax::ValueIdent { start: 4, end: 5 }])
    );
}

#[test]
fn white_space_of_any_kind_is_passed_over() {
    let spaced = first_parse("1 + x");
    assert_eq!(first_parse("1\t+\tx"), spaced);
    assert_eq!(first_parse("1\n+\rx"), spaced);
    // A no-break space and an ideographic space.
    assert_eq!(first_parse("1\u{a0}+\u{3000}x"), spaced);
    assert_eq!(
        first_parse("a\tb\n"),
        Ok(vec![RawSyntax::ValueIdent { start: 0, end: 1 }, RawSyntax::ValueIdent { start: 2, end: 3 }])
    );
}

#[test]
fn an_open_run_ends_with_the_text() {
    assert_eq!(
        first_parse("1+abc"),
        Ok(vec![
            RawSyntax::ValueLit { start: 0, end: 1 },
            RawSyntax::Operator(Operator::Add),
            RawSyntax::ValueIdent { start: 2, end: 5 },
        ])
    );
}

#[test]
fn rejects_a_character_that_is_no_token() {
    assert_eq!(first_parse("2#3"), Err(EquationParseError::UnrecognizedCharacter));
    assert_eq!(first_parse("x$"), Err(EquationParseError::UnrecognizedCharacter));
    assert_eq!(first_parse("a_b"), Err(EquationParseError::UnrecognizedCharacter));
    assert_eq!(first_parse("="), Err(EquationParseError::UnrecognizedCharacter));
}

#[test]
fn places_count_characters_not_bytes() {
    // Each Greek letter takes two bytes and one place.
    assert_eq!(
        first_parse("\u{3c0}+\u{3b1}\u{3b2}"),
        Ok(vec![
            RawSyntax::ValueIdent { start: 0, end: 1 },
            RawSyntax::Operator(Operator::Add),
            RawSyntax::ValueIdent { start: 2, end: 4 },
        ])
    );
    assert_eq!(
        resolve("\u{3c0}+\u{3b1}\u{3b2}"),
        Ok(vec![
            Syntax::ValueIdent("\u{3c0}"),
            Syntax::Operator(Operator::Add),
            Syntax::ValueIdent("\u{3b1}\u{3b2}"),
        ])
    );
}

#[test]
fn tokenizing_twice_gives_the_same_tokens() {
    let text = "2sin(x)+log(y,10)-|z|^[a/{b*c}]";
    let first = first_parse(text);
    let second = first_parse(text);
    assert!(first.is_ok());
    assert_eq!(first, second);
    let bad = "2 ? 3";
    assert_eq!(first_parse(bad), first_parse(bad));
}

#[test]
fn places_of_tokens_ascend() {
    let text = "12ab(3.4)cd 5";
    let tokens = first_parse(text).unwrap();
    let mut last_end = 0;
    let mut seen = 0;
    for token in tokens {
        match token {
            RawSyntax::ValueLit { start, end }
            | RawSyntax::ValueIdent { start, end }
            | RawSyntax::Function { start, end } => {
                assert!(last_end <= start);
                assert!(start < end);
                assert!(end <= text.len());
                last_end = end;
                seen += 1;
            }
            _ => {}
        }
    }
    assert_eq!(seen, 5);
}

#[test]
fn resolves_numbers_names_and_functions() {
    assert_eq!(
        resolve("sin(x)+2.5"),
        Ok(vec![
            Syntax::Function(FunctionType::Sin),
            Syntax::Parenthesis(ParenthesisType::Open),
            Syntax::ValueIdent("x"),
            Syntax::Parenthesis(ParenthesisType::Close),
            Syntax::Operator(Operator::Add),
            Syntax::ValueLit("2.5"),
        ])
    );
}

#[test]
fn resolves_a_longer_equation() {
    assert_eq!(
        resolve("2sin(x)+log(y,10)"),
        Ok(vec![
            Syntax::ValueLit("2"),
            Syntax::Operator(Operator::Mul),
            Syntax::Function(FunctionType::Sin),
            Syntax::Parenthesis(ParenthesisType::Open),
            Syntax::ValueIdent("x"),
            Syntax::Parenthesis(ParenthesisType::Close),
            Syntax::Operator(Operator::Add),
            Syntax::Function(FunctionType::Log),
            Syntax::Parenthesis(ParenthesisType::Open),
            Syntax::ValueIdent("y"),
            Syntax::Comma,
            Syntax::ValueLit("10"),
            Syntax::Parenthesis(ParenthesisType::Close),
        ])
    );
}

#[test]
fn implied_product_between_number_and_name() {
    assert_eq!(resolve("2x"), resolve("2*x"));
    assert_eq!(
        resolve("2x"),
        Ok(vec![Syntax::ValueLit("2"), Syntax::Operator(Operator::Mul), Syntax::ValueIdent("x")])
    );
}

#[test]
fn implied_product_before_a_function() {
    assert_eq!(resolve("2sin(x)"), resolve("2*sin(x)"));
}

#[test]
fn implied_product_around_groupings() {
    assert_eq!(resolve("x (y)"), resolve("x*(y)"));
    assert_eq!(resolve("x[y]"), resolve("x*[y]"));
    assert_eq!(resolve("(a)(b)"), resolve("(a)*(b)"));
    assert_eq!(resolve("(a)[b]{c}"), resolve("(a)*[b]*{c}"));
    assert_eq!(resolve("(a)2"), resolve("(a)*2"));
    assert_eq!(resolve("2 3"), resolve("2*3"));
}

#[test]
fn implied_product_around_bars() {
    assert_eq!(resolve("|x|y"), resolve("|x|*y"));
    assert_eq!(resolve("2|x|"), resolve("2*|x|"));
    assert_eq!(resolve("|x||y|"), resolve("|x|*|y|"));
    assert_eq!(
        resolve("|x|"),
        Ok(vec![Syntax::Abs, Syntax::ValueIdent("x"), Syntax::Abs])
    );
}

#[test]
fn no_product_is_implied_next_to_operators_and_commas() {
    assert_eq!(
        resolve("a+b"),
        Ok(vec![Syntax::ValueIdent("a"), Syntax::Operator(Operator::Add), Syntax::ValueIdent("b")])
    );
    assert_eq!(
        resolve("a,b"),
        Ok(vec![Syntax::ValueIdent("a"), Syntax::Comma, Syntax::ValueIdent("b")])
    );
    assert_eq!(
        resolve("(a)"),
        Ok(vec![
            Syntax::Parenthesis(ParenthesisType::Open),
            Syntax::ValueIdent("a"),
            Syntax::Parenthesis(ParenthesisType::Close),
        ])
    );
    assert_eq!(resolve("a"), Ok(vec![Syntax::ValueIdent("a")]));
}

#[test]
fn rejects_a_number_that_is_no_decimal() {
    assert_eq!(resolve("1.2.3"), Err(EquationParseError::InvalidLiteral));
    assert_eq!(resolve("."), Err(EquationParseError::InvalidLiteral));
    assert_eq!(resolve("2+.."), Err(EquationParseError::InvalidLiteral));
    // An Arabic-Indic digit counts as a number character and is no decimal digit.
    assert_eq!(resolve("\u{663}"), Err(EquationParseError::InvalidLiteral));
}

#[test]
fn accepts_a_point_at_either_end_of_a_number() {
    assert_eq!(resolve("1."), Ok(vec![Syntax::ValueLit("1.")]));
    assert_eq!(resolve(".5"), Ok(vec![Syntax::ValueLit(".5")]));
}

#[test]
fn rejects_an_unknown_function() {
    assert_eq!(resolve("foo(1)"), Err(EquationParseError::UnknownFunction));
    assert_eq!(resolve("Sin(1)"), Err(EquationParseError::UnknownFunction));
    assert_eq!(resolve("sinx(1)"), Err(EquationParseError::UnknownFunction));
}

#[test]
fn the_first_failure_wins() {
    assert_eq!(resolve("1.2.3+foo(1)"), Err(EquationParseError::InvalidLiteral));
    assert_eq!(resolve("foo(1)+1.2.3"), Err(EquationParseError::UnknownFunction));
    assert_eq!(resolve("foo(1)+#"), Err(EquationParseError::UnrecognizedCharacter));
}
