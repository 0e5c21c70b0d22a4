use cranelift_equation_parser::{
    parse, second_parse, third_parse, Entity, EquationParseError, Expression, FunctionType,
    Operator, ParenthesisType, RawSyntax, Syntax,
};

fn show_at(expression: &Expression<'_>, handle: usize) -> String {
    match expression.node(handle).unwrap() {
        Entity::ValueLit(text) => format!("{}", text),
        Entity::Value(name) => format!("{}", name),
        Entity::Operation(operation) => format!(
            "({}{}{})",
            show_at(expression, operation.left()),
            operation.operator().symbol(),
            show_at(expression, operation.right())
        ),
        Entity::Function(call) => match call.second() {
            None => format!("{}({})", call.function().name(), show_at(expression, call.first())),
            Some(second) => format!(
                "{}({},{})",
                call.function().name(),
                show_at(expression, call.first()),
                show_at(expression, second)
            ),
        },
    }
}

fn show(equation: &str) -> Result<String, EquationParseError> {
    let expression = parse(equation)?;
    Ok(show_at(&expression, expression.root()))
}

fn failure(equation: &str) -> EquationParseError {
    match parse(equation) {
        Ok(_) => panic!("{} was taken for an expression", equation),
        Err(e) => e,
    }
}

#[test]
fn a_number_is_one_node() {
    for text in ["7", "42", "2.5", "0.125", "1.", ".5", "12345678901234567890123"] {
        let expression = parse(text).unwrap();
        assert_eq!(expression.len(), 1);
        assert_eq!(expression.root(), 0);
        assert_eq!(expression.node(0), Some(&Entity::ValueLit(text)));
        assert_eq!(expression.node(1), None);
    }
}

#[test]
fn a_name_is_one_node() {
    for text in ["x", "y", "abc", "Z", "\u{3c0}"] {
        let expression = parse(text).unwrap();
        assert_eq!(expression.len(), 1);
        assert_eq!(expression.node(expression.root()), Some(&Entity::Value(text)));
    }
}

#[test]
fn implied_products_parse_like_written_ones() {
    assert_eq!(show("2x"), show("2*x"));
    assert_eq!(show("2x"), Ok("(2*x)".to_string()));
    assert_eq!(show("2sin(x)"), show("2*sin(x)"));
    assert_eq!(show("2sin(x)"), Ok("(2*sin(x))".to_string()));
    assert_eq!(show("(a)(b)"), Ok("(a*b)".to_string()));
    assert_eq!(show("x (y)"), Ok("(x*y)".to_string()));
    assert_eq!(show("x[y]"), Ok("(x*y)".to_string()));
    assert_eq!(show("|x|y"), Ok("(abs(x)*y)".to_string()));
}

#[test]
fn products_bind_tighter_than_sums() {
    assert_eq!(show("2+3*4"), Ok("(2+(3*4))".to_string()));
    assert_eq!(show("2*3+4"), Ok("((2*3)+4)".to_string()));
    assert_eq!(show("2-3/4"), Ok("(2-(3/4))".to_string()));
    assert_eq!(show("(2+3)*4"), Ok("((2+3)*4)".to_string()));
}

#[test]
fn powers_bind_tighter_than_products() {
    assert_eq!(show("2*3^4"), Ok("(2*(3^4))".to_string()));
    assert_eq!(show("2^3*4"), Ok("((2^3)*4)".to_string()));
    assert_eq!(show("1+2*3^4"), Ok("(1+(2*(3^4)))".to_string()));
    assert_eq!(show("1^2*3+4"), Ok("(((1^2)*3)+4)".to_string()));
}

#[test]
fn powers_group_from_the_right() {
    assert_eq!(show("2^3^2"), Ok("(2^(3^2))".to_string()));
    assert_eq!(show("a^b^c^d"), Ok("(a^(b^(c^d)))".to_string()));
}

#[test]
fn other_operators_group_from_the_left() {
    assert_eq!(show("1-2-3"), Ok("((1-2)-3)".to_string()));
    assert_eq!(show("1-2+3"), Ok("((1-2)+3)".to_string()));
    assert_eq!(show("8/4/2"), Ok("((8/4)/2)".to_string()));
    assert_eq!(show("8/4*2"), Ok("((8/4)*2)".to_string()));
}

#[test]
fn the_pairs_of_grouping_symbols_mean_the_same() {
    assert_eq!(show("[2+3]*4"), show("(2+3)*4"));
    assert_eq!(show("{2+3}*4"), show("(2+3)*4"));
    assert_eq!(show("{[(x)]}"), Ok("x".to_string()));
}

#[test]
fn mismatched_grouping_is_rejected() {
    assert_eq!(failure("(2+3]"), EquationParseError::MismatchedGrouping);
    assert_eq!(failure("[2+3)"), EquationParseError::MismatchedGrouping);
    assert_eq!(failure("{2+3]"), EquationParseError::MismatchedGrouping);
    assert_eq!(failure("|(x|)"), EquationParseError::MismatchedGrouping);
    assert_eq!(failure("sin(x]"), EquationParseError::MismatchedGrouping);
}

#[test]
fn arity_is_enforced() {
    assert_eq!(failure("sin(1,2)"), EquationParseError::WrongArity { expected: 1, found: 2 });
    assert_eq!(failure("log(1)"), EquationParseError::WrongArity { expected: 2, found: 1 });
    assert_eq!(failure("log(1,2,3)"), EquationParseError::WrongArity { expected: 2, found: 3 });
    assert_eq!(failure("sqrt(1,2,3,4)"), EquationParseError::WrongArity { expected: 1, found: 4 });
    assert_eq!(show("log(100,10)"), Ok("log(100,10)".to_string()));
    assert_eq!(show("root(x+1,3)"), Ok("root((x+1),3)".to_string()));
    assert_eq!(show("mod(7,2)"), Ok("mod(7,2)".to_string()));
    assert_eq!(show("sin(x)"), Ok("sin(x)".to_string()));
}

#[test]
fn every_function_can_be_called() {
    for name in [
        "sin", "cos", "tan", "cot", "sec", "csc", "sinh", "cosh", "tanh", "coth", "sech", "csch",
        "ln", "sqrt", "exp", "ceil", "floor", "round", "abs",
    ] {
        let text = format!("{}(x)", name);
        assert_eq!(show(&text), Ok(text.clone()));
    }
    for name in ["log", "root", "mod"] {
        let text = format!("{}(x,y)", name);
        assert_eq!(show(&text), Ok(text.clone()));
    }
}

#[test]
fn bars_pair_off() {
    assert_eq!(show("|x|"), Ok("abs(x)".to_string()));
    assert_eq!(show("|x|+|y|"), Ok("(abs(x)+abs(y))".to_string()));
    assert_eq!(show("|x||y|"), Ok("(abs(x)*abs(y))".to_string()));
    assert_eq!(show("|x-1|^2"), Ok("(abs((x-1))^2)".to_string()));
    assert_eq!(show("|(x)|"), Ok("abs(x)".to_string()));
    assert_eq!(show("(|x|)"), Ok("abs(x)".to_string()));
    assert_eq!(show("sin(|x|)"), Ok("sin(abs(x))".to_string()));
}

#[test]
fn bars_do_not_nest() {
    assert_eq!(failure("||x||"), EquationParseError::EmptyExpression);
    assert_eq!(failure("|(|x|)|"), EquationParseError::EmptyExpression);
    assert_eq!(failure("||"), EquationParseError::EmptyExpression);
}

#[test]
fn unbalanced_input_is_rejected() {
    assert_eq!(failure("(1+2"), EquationParseError::UnbalancedGrouping);
    assert_eq!(failure("1+2)"), EquationParseError::UnbalancedGrouping);
    assert_eq!(failure("1+2]"), EquationParseError::UnbalancedGrouping);
    assert_eq!(failure("|x"), EquationParseError::UnbalancedGrouping);
    assert_eq!(failure("sin(x"), EquationParseError::UnbalancedGrouping);
    assert_eq!(failure("((1)"), EquationParseError::UnbalancedGrouping);
    // Asking twice gives the same answer.
    assert_eq!(failure("(1+2"), failure("(1+2"));
}

#[test]
fn a_missing_operand_is_an_empty_expression() {
    assert_eq!(failure(""), EquationParseError::EmptyExpression);
    assert_eq!(failure("   "), EquationParseError::EmptyExpression);
    assert_eq!(failure("\n"), EquationParseError::EmptyExpression);
    assert_eq!(failure("()"), EquationParseError::EmptyExpression);
    assert_eq!(failure(")"), EquationParseError::EmptyExpression);
    assert_eq!(failure("2+"), EquationParseError::EmptyExpression);
    assert_eq!(failure("(2+)"), EquationParseError::EmptyExpression);
    assert_eq!(failure("sin()"), EquationParseError::EmptyExpression);
    assert_eq!(failure("|x+|"), EquationParseError::EmptyExpression);
    assert_eq!(failure("("), EquationParseError::EmptyExpression);
}

#[test]
fn a_token_out_of_place_is_unexpected() {
    assert_eq!(failure("+2"), EquationParseError::UnexpectedToken);
    assert_eq!(failure("-x"), EquationParseError::UnexpectedToken);
    assert_eq!(failure("2*/3"), EquationParseError::UnexpectedToken);
    assert_eq!(failure("1,2"), EquationParseError::UnexpectedToken);
    assert_eq!(failure("(1,2)"), EquationParseError::UnexpectedToken);
    assert_eq!(failure(",1"), EquationParseError::UnexpectedToken);
    assert_eq!(failure("log(1,,2)"), EquationParseError::UnexpectedToken);
}

#[test]
fn tokens_behind_a_complete_expression_trail() {
    let tokens = [Syntax::ValueLit("1"), Syntax::ValueLit("2")];
    assert_eq!(third_parse(&tokens).err(), Some(EquationParseError::TrailingTokens));
    let tokens = [Syntax::ValueIdent("x"), Syntax::Parenthesis(ParenthesisType::Open)];
    assert_eq!(third_parse(&tokens).err(), Some(EquationParseError::TrailingTokens));
    let tokens = [Syntax::ValueIdent("x"), Syntax::Function(FunctionType::Sin)];
    assert_eq!(third_parse(&tokens).err(), Some(EquationParseError::TrailingTokens));
    let tokens = [Syntax::ValueIdent("x"), Syntax::Abs];
    assert_eq!(third_parse(&tokens).err(), Some(EquationParseError::TrailingTokens));
}

#[test]
fn a_function_needs_its_round_bracket() {
    let tokens = [Syntax::Function(FunctionType::Sin), Syntax::ValueIdent("x")];
    assert_eq!(third_parse(&tokens).err(), Some(EquationParseError::UnexpectedToken));
    let tokens = [Syntax::Function(FunctionType::Sin)];
    assert_eq!(third_parse(&tokens).err(), Some(EquationParseError::UnexpectedToken));
    let tokens = [
        Syntax::Function(FunctionType::Sin),
        Syntax::Parenthesis(ParenthesisType::OpenSquare),
        Syntax::ValueIdent("x"),
        Syntax::Parenthesis(ParenthesisType::CloseSquare),
    ];
    assert_eq!(third_parse(&tokens).err(), Some(EquationParseError::UnexpectedToken));
}

#[test]
fn failures_of_earlier_stages_come_through() {
    assert_eq!(failure("2 # 3"), EquationParseError::UnrecognizedCharacter);
    assert_eq!(failure("1.2.3"), EquationParseError::InvalidLiteral);
    assert_eq!(failure("foo(1)"), EquationParseError::UnknownFunction);
    assert_eq!(failure("(1.2.3"), EquationParseError::InvalidLiteral);
}

#[test]
fn a_longer_equation() {
    assert_eq!(
        show("2sin(x)+log(y,10)"),
        Ok("((2*sin(x))+log(y,10))".to_string())
    );
    assert_eq!(
        show("3x^2 - 2|x| + sqrt(x+1)/(x-1)"),
        Ok("(((3*(x^2))-(2*abs(x)))+(sqrt((x+1))/(x-1)))".to_string())
    );
}

#[test]
fn children_stand_before_their_parents() {
    let expression = parse("2sin(x)+log(y,10)^|z|").unwrap();
    let n = expression.len();
    assert_eq!(expression.root(), n - 1);
    for handle in 0..n {
        match expression.node(handle).unwrap() {
            Entity::Operation(operation) => {
                assert!(operation.left() < handle);
                assert!(operation.right() < handle);
            }
            Entity::Function(call) => {
                assert!(call.first() < handle);
                if let Some(second) = call.second() {
                    assert!(second < handle);
                }
            }
            _ => {}
        }
    }
    assert_eq!(expression.node(n), None);
}

#[test]
fn preorder_walks_from_the_root() {
    let expression = parse("2+3*4").unwrap();
    // Nodes in the order of their making: 2, 3, 4, 3*4, 2+(3*4).
    assert_eq!(expression.len(), 5);
    assert_eq!(expression.preorder(), vec![4, 0, 3, 1, 2]);
    let kinds: Vec<String> = expression
        .preorder()
        .into_iter()
        .map(|handle| match expression.node(handle).unwrap() {
            Entity::ValueLit(text) => text.to_string(),
            Entity::Value(name) => name.to_string(),
            Entity::Operation(operation) => operation.operator().symbol().to_string(),
            Entity::Function(call) => call.function().name().to_string(),
        })
        .collect();
    assert_eq!(kinds, vec!["+", "2", "*", "3", "4"]);

    let expression = parse("log(x,|y|)").unwrap();
    assert_eq!(expression.preorder(), vec![3, 0, 2, 1]);

    let expression = parse("x").unwrap();
    assert_eq!(expression.preorder(), vec![0]);
}

#[test]
fn operator_of_the_root() {
    let expression = parse("a-b").unwrap();
    match expression.node(expression.root()).unwrap() {
        Entity::Operation(operation) => {
            assert_eq!(operation.operator(), Operator::Sub);
            assert_eq!(expression.node(operation.left()), Some(&Entity::Value("a")));
            assert_eq!(expression.node(operation.right()), Some(&Entity::Value("b")));
        }
        other => panic!("{:?} is no operation", other),
    }
}

#[test]
fn the_arena_holds_the_nodes_of_the_tree_and_no_others() {
    for text in ["x", "2+3*4", "2sin(x)+log(y,10)", "|x|^2", "((((a))))", "root(a,b)-c"] {
        let expression = parse(text).unwrap();
        let order = expression.preorder();
        assert_eq!(order.len(), expression.len());
        assert_eq!(order[0], expression.root());
        assert_eq!(expression.root() + 1, expression.len());
        let mut seen = vec![false; expression.len()];
        for handle in order {
            assert!(!seen[handle]);
            seen[handle] = true;
        }
        assert!(seen.into_iter().all(|s| s));
    }
}

#[test]
fn second_parse_on_tokens_made_by_hand() {
    let text = "abc123";
    let raw = [
        RawSyntax::ValueLit { start: 3, end: 6 },
        RawSyntax::ValueIdent { start: 0, end: 3 },
        RawSyntax::ValueLit { start: 4, end: 4 },
    ];
    assert_eq!(
        second_parse(&raw[..2], text),
        Ok(vec![
            Syntax::ValueLit("123"),
            Syntax::Operator(Operator::Mul),
            Syntax::ValueIdent("abc"),
        ])
    );
    // An empty place spells no number.
    assert_eq!(second_parse(&raw, text), Err(EquationParseError::InvalidLiteral));
    let raw = [RawSyntax::ValueLit { start: 0, end: 3 }];
    assert_eq!(second_parse(&raw, text), Err(EquationParseError::InvalidLiteral));
    let raw = [RawSyntax::Function { start: 0, end: 3 }];
    assert_eq!(second_parse(&raw, text), Err(EquationParseError::UnknownFunction));
}
