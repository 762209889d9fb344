use lambdars::ast::Expr;
use lambdars::output::{construct_output, extract_valid_output, Output, OutputError};
use lambdars::syntax::{astize, collect_inputs, handle_io, Delimiter, SyntaxError, Token};

fn ident(s: &str) -> Token {
    Token::Ident(s.to_string())
}

fn punct(c: char) -> Token {
    Token::Punct(c)
}

fn paren(tokens: Vec<Token>) -> Token {
    Token::Group(Delimiter::Parenthesis, tokens)
}

/// The tokens of `Lx.` .. as the compiler hands them over: `Lx`, `.`.
fn binder(name: &str) -> Vec<Token> {
    vec![ident(&format!("L{name}")), punct('.')]
}

/// `@input(a, b, ...)`
fn inputs(names: &[&str]) -> Vec<Token> {
    let mut list = vec![];
    for (i, n) in names.iter().enumerate() {
        if i > 0 {
            list.push(punct(','));
        }
        list.push(ident(n));
    }
    vec![punct('@'), ident("input"), paren(list)]
}

fn concat(parts: Vec<Vec<Token>>) -> Vec<Token> {
    parts.into_iter().flatten().collect()
}

/// Read, evaluate and convert the tokens of one `lambda!` invocation.
fn lambda(tokens: &[Token]) -> Option<Output> {
    let (rest, names) = handle_io(tokens).unwrap();
    let expr = astize(rest).unwrap();
    let reduced = expr.eval();
    println!("{} --> {}", expr.code(), reduced.code());
    construct_output(&reduced, &names).unwrap()
}

/// The output with each name replaced by the text of its value.
fn render(o: &Output, values: &[(&str, &str)]) -> String {
    match o {
        Output::Name(n) => values
            .iter()
            .find(|(k, _)| k == n)
            .map(|(_, v)| v.to_string())
            .unwrap(),
        Output::Tuple(l, r) => format!("({}, {})", render(l, values), render(r, values)),
    }
}

#[test]
fn test_simple() {
    let t = lambda(&concat(vec![inputs(&["a"]), vec![ident("a")]])).unwrap();
    assert_eq!(render(&t, &[("a", "aaa")]), "aaa");
}

#[test]
fn test_test_swap() {
    // (Lx.Ly. y x) a b
    let body = paren(concat(vec![binder("x"), binder("y"), vec![ident("y"), ident("x")]]));
    let t = lambda(&concat(vec![
        inputs(&["a", "b"]),
        vec![body, ident("a"), ident("b")],
    ]))
    .unwrap();
    assert_eq!(render(&t, &[("a", "aaa"), ("b", "bbb")]), "(bbb, aaa)");
}

#[test]
fn test_test_copy() {
    // (Lx.x x) a
    let body = paren(concat(vec![binder("x"), vec![ident("x"), ident("x")]]));
    let t = lambda(&concat(vec![inputs(&["a"]), vec![body, ident("a")]])).unwrap();
    assert_eq!(render(&t, &[("a", "aaa")]), "(aaa, aaa)");
}

#[test]
fn test_nesting() {
    // (Lx.Ly. y x) a b c
    let body = paren(concat(vec![binder("x"), binder("y"), vec![ident("y"), ident("x")]]));
    let t = lambda(&concat(vec![
        inputs(&["a", "b", "c"]),
        vec![body, ident("a"), ident("b"), ident("c")],
    ]))
    .unwrap();
    assert_eq!(
        render(&t, &[("a", "1"), ("b", "2"), ("c", "ccc")]),
        "((2, 1), ccc)"
    );
}

#[test]
fn test_test_complex() {
    // (Lx.(Ly.x y)(Lz.z))(La.a a) t
    let f = paren(concat(vec![
        binder("x"),
        vec![
            paren(concat(vec![binder("y"), vec![ident("x"), ident("y")]])),
            paren(concat(vec![binder("z"), vec![ident("z")]])),
        ],
    ]));
    let g = paren(concat(vec![binder("a"), vec![ident("a"), ident("a")]]));
    let out = lambda(&concat(vec![inputs(&["t"]), vec![f, g, ident("t")]])).unwrap();
    assert_eq!(render(&out, &[("t", "2")]), "2");
}

fn not_gate() -> Token {
    // (Lt. (t (Lx.Ly.y) (Lx.Ly.x)))
    paren(concat(vec![
        binder("t"),
        vec![paren(vec![
            ident("t"),
            paren(concat(vec![binder("x"), binder("y"), vec![ident("y")]])),
            paren(concat(vec![binder("x"), binder("y"), vec![ident("x")]])),
        ])],
    ]))
}

#[test]
fn test_not() {
    let values = [("a", "1"), ("b", "2")];
    // NOT gate called with TRUE
    let church_true = paren(concat(vec![binder("x"), binder("y"), vec![ident("x")]]));
    let not_true = lambda(&concat(vec![
        inputs(&["a", "b"]),
        vec![not_gate(), church_true, ident("a"), ident("b")],
    ]))
    .unwrap();
    // NOT(TRUE) --> FALSE, and (FALSE a b) --> b
    assert_eq!(render(&not_true, &values), "2");

    // NOT gate called with FALSE
    let church_false = paren(concat(vec![binder("x"), binder("y"), vec![ident("y")]]));
    let not_false = lambda(&concat(vec![
        inputs(&["a", "b"]),
        vec![not_gate(), church_false, ident("a"), ident("b")],
    ]))
    .unwrap();
    // NOT(FALSE) --> TRUE, and (TRUE a b) --> a
    assert_eq!(render(&not_false, &values), "1");
}

#[test]
fn astize_applies_to_the_left() {
    let e = astize(&[ident("f"), ident("a"), ident("b")]).unwrap();
    assert_eq!(e.code(), "((f a) b)");
    let e = astize(&concat(vec![binder("x"), vec![ident("x"), ident("y")]])).unwrap();
    assert_eq!(e.code(), "(\\x. (x y))");
    let e = astize(&[ident("f"), paren(vec![ident("g"), ident("h")])]).unwrap();
    assert_eq!(e.code(), "(f (g h))");
    // a binder takes the rest of the tokens as its body
    let e = astize(&concat(vec![vec![ident("f")], binder("x"), vec![ident("x"), ident("x")]]))
        .unwrap();
    assert_eq!(e, Expr::application(
        Expr::variable("f"),
        Expr::abstraction("x", Expr::application(Expr::variable("x"), Expr::variable("x"))),
    ));
    // other punctuation and literals are passed over
    let e = astize(&[ident("f"), punct(';'), Token::Literal("1".to_string()), ident("a")]).unwrap();
    assert_eq!(e.code(), "(f a)");
}

#[test]
fn astize_errors() {
    assert_eq!(astize(&[]), Err(SyntaxError::EmptyExpression));
    assert_eq!(astize(&[paren(vec![])]), Err(SyntaxError::EmptyExpression));
    assert_eq!(astize(&binder("x")), Err(SyntaxError::EmptyExpression));
    assert_eq!(
        astize(&[ident("f"), Token::Group(Delimiter::Bracket, vec![ident("a")])]),
        Err(SyntaxError::InvalidDelimiter)
    );
}

#[test]
fn collect_inputs_lists_names() {
    assert_eq!(
        collect_inputs(&[ident("a"), punct(','), ident("b")]),
        Ok(vec!["a".to_string(), "b".to_string()])
    );
    assert_eq!(collect_inputs(&[]), Ok(vec![]));
    assert_eq!(
        collect_inputs(&[ident("a"), punct(';'), ident("b")]),
        Err(SyntaxError::InvalidInputChar(';'))
    );
    assert_eq!(
        collect_inputs(&[ident("a"), Token::Literal("1".to_string()), punct('?')]),
        Err(SyntaxError::InvalidInput)
    );
}

#[test]
fn handle_io_splits_decorator() {
    let tokens = concat(vec![inputs(&["a", "b"]), vec![ident("a")]]);
    let (rest, names) = handle_io(&tokens).unwrap();
    assert_eq!(rest, &[ident("a")]);
    assert_eq!(names, vec!["a".to_string(), "b".to_string()]);

    let tokens = vec![ident("a"), ident("b")];
    let (rest, names) = handle_io(&tokens).unwrap();
    assert_eq!(rest, &tokens[..]);
    assert!(names.is_empty());
}

#[test]
fn handle_io_errors() {
    assert_eq!(
        handle_io(&[punct('@'), ident("output"), paren(vec![])]),
        Err(SyntaxError::UnknownDecorator("output".to_string()))
    );
    assert_eq!(
        handle_io(&[punct('@'), ident("input"), Token::Group(Delimiter::Brace, vec![])]),
        Err(SyntaxError::InvalidInputDelimiter)
    );
    assert_eq!(handle_io(&[punct('@'), ident("input")]), Err(SyntaxError::InvalidDecorator));
    assert_eq!(handle_io(&[punct('@')]), Err(SyntaxError::InvalidDecorator));
    assert_eq!(
        handle_io(&[punct('@'), punct('!'), ident("a")]),
        Err(SyntaxError::InvalidDecorator)
    );
    assert_eq!(
        handle_io(&[punct('@'), ident("input"), paren(vec![punct('+')])]),
        Err(SyntaxError::InvalidInputChar('+'))
    );
}

#[test]
fn output_errors() {
    let names = vec!["a".to_string()];
    let abs = Expr::abstraction("x", Expr::variable("x"));
    assert_eq!(construct_output(&abs, &names), Ok(None));
    assert_eq!(
        construct_output(&Expr::variable("q"), &names),
        Err(OutputError::Undeclared("q".to_string()))
    );
    assert_eq!(
        construct_output(&Expr::application(Expr::variable("a"), abs), &names),
        Err(OutputError::NotAValue)
    );
    assert_eq!(
        extract_valid_output(&Expr::abstraction("x", Expr::variable("a")), &names),
        Err(OutputError::NotAValue)
    );
    assert_eq!(
        extract_valid_output(&Expr::variable("a"), &names),
        Ok(Output::Name("a".to_string()))
    );
}
