use cranelift_equation_parser::{
    first_parse, parse, render, second_parse, Entity, Expression, FunctionType, Operator,
    ParenthesisType, Syntax,
};

fn same_shape(a: &Expression<'_>, at: usize, b: &Expression<'_>, bt: usize) -> bool {
    match (a.node(at).unwrap(), b.node(bt).unwrap()) {
        (Entity::ValueLit(x), Entity::ValueLit(y)) => x == y,
        (Entity::Value(x), Entity::Value(y)) => x == y,
        (Entity::Operation(x), Entity::Operation(y)) => {
            x.operator() == y.operator()
                && same_shape(a, x.left(), b, y.left())
                && same_shape(a, x.right(), b, y.right())
        }
        (Entity::Function(x), Entity::Function(y)) => {
            x.function() == y.function()
                && same_shape(a, x.first(), b, y.first())
                && match (x.second(), y.second()) {
                    (None, None) => true,
                    (Some(p), Some(q)) => same_shape(a, p, b, q),
                    _ => false,
                }
        }
        _ => false,
    }
}

#[test]
fn infix_text_of_expressions() {
    assert_eq!(parse("7").unwrap().to_infix(), "7");
    assert_eq!(parse("x").unwrap().to_infix(), "x");
    assert_eq!(parse("2+3*4").unwrap().to_infix(), "(2+(3*4))");
    assert_eq!(parse("2^3^2").unwrap().to_infix(), "(2^(3^2))");
    assert_eq!(parse("2x").unwrap().to_infix(), "(2*x)");
    assert_eq!(parse("|x|").unwrap().to_infix(), "abs(x)");
    assert_eq!(parse("log(100,10)").unwrap().to_infix(), "log(100,10)");
    assert_eq!(parse("[a-b]/{c}").unwrap().to_infix(), "((a-b)/c)");
}

#[test]
fn infix_text_parses_back_to_the_same_expression() {
    for text in [
        "7",
        "x",
        "2+3*4",
        "2^3^2",
        "1-2-3",
        "2x",
        "2sin(x)+log(y,10)",
        "|x|+|y|",
        "3x^2 - 2|x| + sqrt(x+1)/(x-1)",
        "root(mod(a,b),ceil(2.5))",
        "{[(a)]}",
        "(a)(b)(c)",
    ] {
        let first = parse(text).unwrap();
        let written = first.to_infix();
        let second = parse(&written).unwrap();
        assert!(same_shape(&first, first.root(), &second, second.root()), "{}", text);
        assert!(first.same_as(&second), "{}", text);
        assert_eq!(second.to_infix(), written);
        assert_eq!(second.len(), first.len());
    }
}

#[test]
fn tokens_as_spaced_text() {
    let text = "2sin(x)+log(y,10)";
    let raw = first_parse(text).unwrap();
    let tokens = second_parse(&raw, text).unwrap();
    assert_eq!(render(&tokens), "2 * sin ( x ) + log ( y , 10 ) ");
    assert_eq!(render(&[]), "");
    assert_eq!(
        render(&[
            Syntax::Abs,
            Syntax::ValueIdent("x"),
            Syntax::Abs,
            Syntax::Operator(Operator::Pow),
            Syntax::Parenthesis(ParenthesisType::OpenCurly),
            Syntax::Function(FunctionType::Floor),
            Syntax::Comma,
            Syntax::ValueLit("2.5"),
            Syntax::Parenthesis(ParenthesisType::CloseCurly),
        ]),
        "| x | ^ { floor , 2.5 } "
    );
}

#[test]
fn spelling_of_tokens() {
    assert_eq!(Syntax::ValueLit("2.5").spelling(), "2.5");
    assert_eq!(Syntax::ValueIdent("abc").spelling(), "abc");
    assert_eq!(Syntax::Operator(Operator::Div).spelling(), "/");
    assert_eq!(Syntax::Parenthesis(ParenthesisType::CloseSquare).spelling(), "]");
    assert_eq!(Syntax::Function(FunctionType::Sqrt).spelling(), "sqrt");
    assert_eq!(Syntax::Comma.spelling(), ",");
    assert_eq!(Syntax::Abs.spelling(), "|");
    assert_eq!(Operator::Pow.spelling(), "^");
    assert_eq!(ParenthesisType::Open.spelling(), "(");
}

#[test]
fn expressions_are_compared_by_shape_numbers_and_names() {
    let a = parse("2+3*4").unwrap();
    assert!(a.same_as(&parse("2 + (3 * 4)").unwrap()));
    assert!(a.same_as(&parse("[2]+{3*4}").unwrap()));
    assert!(!a.same_as(&parse("(2+3)*4").unwrap()));
    assert!(!a.same_as(&parse("2+3*5").unwrap()));
    assert!(!a.same_as(&parse("2+3/4").unwrap()));
    assert!(!a.same_as(&parse("2+3").unwrap()));
    assert!(!a.same_as(&parse("2").unwrap()));
    assert!(!parse("x").unwrap().same_as(&parse("y").unwrap()));
    assert!(!parse("2").unwrap().same_as(&parse("2.0").unwrap()));
    assert!(parse("|x|").unwrap().same_as(&parse("abs(x)").unwrap()));
    assert!(!parse("sin(x)").unwrap().same_as(&parse("cos(x)").unwrap()));
    assert!(!parse("log(x,y)").unwrap().same_as(&parse("log(y,x)").unwrap()));
    assert!(parse("2x").unwrap().same_as(&parse("2*x").unwrap()));
    assert!(parse("2sin(x)").unwrap().same_as(&parse("2*sin(x)").unwrap()));
}
