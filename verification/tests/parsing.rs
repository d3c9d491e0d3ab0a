use skcore::ast::{ASTNode, AssignOp, BinaryOp};
use skcore::grammar::Expected;
use skcore::parser::{parse, parse_expr, parse_program, ParseError, ParserState};
use skcore::program::{read_program, SyntaxError};
use skcore::scanner::{scan, LexError};
use skcore::token::{ParsableToken, Token};

fn program(source: &str) -> Vec<ASTNode> {
    parse_program(&scan(source).unwrap()).unwrap()
}

fn failure(source: &str) -> ParseError {
    parse_program(&scan(source).unwrap()).unwrap_err()
}

fn unexpected(expected: Expected, found: Token, position: usize) -> ParseError {
    ParseError::UnexpectedToken { expected, found, position }
}

fn text(t: &str) -> ASTNode {
    ASTNode::Text(t.to_string())
}

fn num(n: &str) -> ASTNode {
    ASTNode::Number(n.to_string())
}

fn var(name: &str) -> ASTNode {
    ASTNode::Variable(name.to_string())
}

fn call(name: &str, args: Vec<ASTNode>) -> ASTNode {
    ASTNode::FunctionCall(name.to_string(), args)
}

fn binary(op: BinaryOp, lhs: ASTNode, rhs: ASTNode) -> ASTNode {
    ASTNode::Binary(op, Box::new(lhs), Box::new(rhs))
}

fn assign(op: AssignOp, name: &str, value: ASTNode) -> ASTNode {
    ASTNode::Assign(op, name.to_string(), Box::new(value))
}

#[test]
fn parses_a_print_statement() {
    assert_eq!(program("print(42);"), vec![call("print", vec![num("42")]), ASTNode::Nothing]);
}

#[test]
fn an_empty_program_has_no_statements() {
    assert_eq!(program(""), Vec::<ASTNode>::new());
}

#[test]
fn a_separator_at_the_top_is_a_statement_that_is_nothing() {
    assert_eq!(program(";;"), vec![ASTNode::Nothing, ASTNode::Nothing]);
    assert_eq!(program("none; break;"), vec![ASTNode::Nothing; 4]);
}

#[test]
fn parses_atoms() {
    assert_eq!(program("1;"), vec![num("1"), ASTNode::Nothing]);
    assert_eq!(program("1.5;"), vec![num("1.5"), ASTNode::Nothing]);
    assert_eq!(program("\"hi\";"), vec![text("hi"), ASTNode::Nothing]);
    assert_eq!(program("true; false;"), vec![ASTNode::Boolean(true), ASTNode::Nothing, ASTNode::Boolean(false), ASTNode::Nothing]);
    assert_eq!(program("x;"), vec![var("x"), ASTNode::Nothing]);
}

#[test]
fn text_loses_its_quotes() {
    assert_eq!(program("\"a b\" ;"), vec![text("a b"), ASTNode::Nothing]);
}

#[test]
fn parses_let_and_assignments() {
    assert_eq!(program("let x = 5;"), vec![assign(AssignOp::Let, "x", num("5")), ASTNode::Nothing]);
    assert_eq!(program("x = 5;"), vec![assign(AssignOp::Change, "x", num("5")), ASTNode::Nothing]);
    assert_eq!(program("x += 5;"), vec![assign(AssignOp::AddEq, "x", num("5")), ASTNode::Nothing]);
    assert_eq!(program("x -= 5;"), vec![assign(AssignOp::SubEq, "x", num("5")), ASTNode::Nothing]);
    assert_eq!(program("let x = none;"), vec![assign(AssignOp::Let, "x", ASTNode::Nothing), ASTNode::Nothing]);
}

#[test]
fn parses_every_operator() {
    let cases = [
        ("+", BinaryOp::Add),
        ("-", BinaryOp::Sub),
        ("*", BinaryOp::Mul),
        ("/", BinaryOp::Div),
        ("%", BinaryOp::Modulo),
        ("==", BinaryOp::EqCheck),
        ("!=", BinaryOp::NeqCheck),
        (">", BinaryOp::GtCheck),
        ("<", BinaryOp::LtCheck),
        (">=", BinaryOp::GteCheck),
        ("<=", BinaryOp::LteCheck),
    ];
    for (symbol, op) in cases {
        let source = format!("a {} 2;", symbol);
        assert_eq!(program(&source), vec![binary(op, var("a"), num("2")), ASTNode::Nothing]);
    }
}

#[test]
fn chains_nest_to_the_right_whatever_the_operators() {
    assert_eq!(
        program("1 + 2 * 3;"),
        vec![binary(BinaryOp::Add, num("1"), binary(BinaryOp::Mul, num("2"), num("3"))), ASTNode::Nothing]
    );
    assert_eq!(
        program("1 * 2 + 3;"),
        vec![binary(BinaryOp::Mul, num("1"), binary(BinaryOp::Add, num("2"), num("3"))), ASTNode::Nothing]
    );
    assert_eq!(
        program("\"a\" + 1 + \"b\";"),
        vec![binary(BinaryOp::Add, text("a"), binary(BinaryOp::Add, num("1"), text("b"))), ASTNode::Nothing]
    );
    assert_eq!(
        program("x = y = 1 < 2;"),
        vec![
            assign(AssignOp::Change, "x", assign(AssignOp::Change, "y", binary(BinaryOp::LtCheck, num("1"), num("2")))),
            ASTNode::Nothing
        ]
    );
}

#[test]
fn a_number_of_several_digits_is_a_left_operand() {
    assert_eq!(program("10 + 5;"), vec![binary(BinaryOp::Add, num("10"), num("5")), ASTNode::Nothing]);
    assert_eq!(program("1.5 * 2;"), vec![binary(BinaryOp::Mul, num("1.5"), num("2")), ASTNode::Nothing]);
}

#[test]
fn a_call_ends_an_expression() {
    assert_eq!(
        program("x = 1 + print(2);"),
        vec![assign(AssignOp::Change, "x", binary(BinaryOp::Add, num("1"), call("print", vec![num("2")]))), ASTNode::Nothing]
    );
    assert_eq!(failure("print(1) + 2;"), unexpected(Expected::Expression, Token::OpAdd, 4));
}

#[test]
fn parses_call_arguments() {
    assert_eq!(program("print();"), vec![call("print", vec![]), ASTNode::Nothing]);
    assert_eq!(program("print(1, x, \"t\");"), vec![call("print", vec![num("1"), var("x"), text("t")]), ASTNode::Nothing]);
    assert_eq!(program("print(1 + 2, 3);"), vec![call("print", vec![binary(BinaryOp::Add, num("1"), num("2")), num("3")]), ASTNode::Nothing]);
    assert_eq!(program("print(return(1));"), vec![call("print", vec![call("return", vec![num("1")])]), ASTNode::Nothing]);
    assert_eq!(program("print(none, 1);"), vec![call("print", vec![num("1")]), ASTNode::Nothing]);
}

#[test]
fn arguments_may_do_without_commas() {
    assert_eq!(program("print(return(1) 2);"), vec![call("print", vec![call("return", vec![num("1")]), num("2")]), ASTNode::Nothing]);
}

#[test]
fn an_identifier_is_a_call_only_after_its_declaration() {
    assert_eq!(
        program("f; fn f() { } f();"),
        vec![
            var("f"),
            ASTNode::Nothing,
            ASTNode::FunctionDecl("f".to_string(), vec![], vec![]),
            call("f", vec![]),
            ASTNode::Nothing
        ]
    );
}

#[test]
fn a_function_knows_itself_in_its_body() {
    assert_eq!(
        program("fn f(n) { f(n); }"),
        vec![ASTNode::FunctionDecl("f".to_string(), vec!["n".to_string()], vec![call("f", vec![var("n")])])]
    );
}

#[test]
fn a_function_declared_in_a_body_is_known_in_that_body_only() {
    let nodes = program("fn f() { fn g() { } g(); } g;");
    assert_eq!(
        nodes,
        vec![
            ASTNode::FunctionDecl(
                "f".to_string(),
                vec![],
                vec![ASTNode::FunctionDecl("g".to_string(), vec![], vec![]), call("g", vec![])]
            ),
            var("g"),
            ASTNode::Nothing
        ]
    );
}

#[test]
fn a_function_declared_in_a_branch_is_known_after_it() {
    let nodes = program("if true { fn g() { } } g();");
    assert_eq!(nodes[1], call("g", vec![]));
}

#[test]
fn parses_parameters_with_or_without_commas() {
    let expected = vec![ASTNode::FunctionDecl("f".to_string(), vec!["a".to_string(), "b".to_string()], vec![])];
    assert_eq!(program("fn f(a b) { }"), expected);
    assert_eq!(program("fn f(a, b) { }"), expected);
    assert_eq!(program("fn f() { }"), vec![ASTNode::FunctionDecl("f".to_string(), vec![], vec![])]);
}

#[test]
fn a_body_keeps_nothing_only_where_it_was_written() {
    assert_eq!(
        program("fn f() { ; none; break; 1; }"),
        vec![ASTNode::FunctionDecl("f".to_string(), vec![], vec![ASTNode::Nothing, num("1")])]
    );
}

#[test]
fn parses_if_without_else() {
    assert_eq!(
        program("if x < 3 { print(x); }"),
        vec![ASTNode::IfStatement(
            Box::new(binary(BinaryOp::LtCheck, var("x"), num("3"))),
            vec![call("print", vec![var("x")])],
            false,
            vec![]
        )]
    );
}

#[test]
fn parses_if_with_else_block() {
    assert_eq!(
        program("if x { 1; } else { 2; }"),
        vec![ASTNode::IfStatement(Box::new(var("x")), vec![num("1")], true, vec![num("2")])]
    );
}

#[test]
fn parses_else_if_as_one_statement() {
    assert_eq!(
        program("if a { 1; } else if b { 2; } else { 3; }"),
        vec![ASTNode::IfStatement(
            Box::new(var("a")),
            vec![num("1")],
            true,
            vec![ASTNode::IfStatement(Box::new(var("b")), vec![num("2")], true, vec![num("3")])]
        )]
    );
    assert_eq!(
        program("if a { } else x = 1;"),
        vec![
            ASTNode::IfStatement(Box::new(var("a")), vec![], true, vec![assign(AssignOp::Change, "x", num("1"))]),
            ASTNode::Nothing
        ]
    );
}

#[test]
fn an_atom_before_a_closing_brace_stands_alone() {
    assert_eq!(
        program("if a { x = 5 }"),
        vec![ASTNode::IfStatement(Box::new(var("a")), vec![assign(AssignOp::Change, "x", num("5"))], false, vec![])]
    );
    assert_eq!(
        program("if a { x } if a { true }"),
        vec![
            ASTNode::IfStatement(Box::new(var("a")), vec![var("x")], false, vec![]),
            ASTNode::IfStatement(Box::new(var("a")), vec![ASTNode::Boolean(true)], false, vec![])
        ]
    );
}

#[test]
fn parses_a_conditional_loop() {
    assert_eq!(
        program("loop while x < 3 { x += 1; }"),
        vec![ASTNode::ConditionalLoop(
            Box::new(binary(BinaryOp::LtCheck, var("x"), num("3"))),
            vec![assign(AssignOp::AddEq, "x", num("1"))]
        )]
    );
}

#[test]
fn parses_an_incrementing_loop() {
    assert_eq!(
        program("loop i in 0 to 3 { x = 99; }"),
        vec![ASTNode::IncrementingLoop(
            "i".to_string(),
            Box::new(num("0")),
            Box::new(num("3")),
            vec![assign(AssignOp::Change, "x", num("99"))]
        )]
    );
    assert_eq!(
        program("loop i in a to a + 1 { }"),
        vec![ASTNode::IncrementingLoop(
            "i".to_string(),
            Box::new(var("a")),
            Box::new(binary(BinaryOp::Add, var("a"), num("1"))),
            vec![]
        )]
    );
}

#[test]
fn parsing_twice_gives_the_same_tree() {
    let source = "fn f(a) { if a > 0 { print(a); } else { return(0); } } let x = 3; loop i in 0 to x { f(i); }";
    assert_eq!(program(source), program(source));
    assert_eq!(read_program(source), read_program(source));
    assert_eq!(failure("let = 1;"), failure("let = 1;"));
}

#[test]
fn the_tokens_end_too_early() {
    assert_eq!(failure("x"), ParseError::UnexpectedEnd);
    assert_eq!(failure("x = 5"), ParseError::UnexpectedEnd);
    assert_eq!(failure("x ="), ParseError::UnexpectedEnd);
    assert_eq!(failure("print(1"), ParseError::UnexpectedEnd);
    assert_eq!(failure("print"), ParseError::UnexpectedEnd);
    assert_eq!(failure("let"), ParseError::UnexpectedEnd);
    assert_eq!(failure("let x"), ParseError::UnexpectedEnd);
    assert_eq!(failure("fn f(a"), ParseError::UnexpectedEnd);
    assert_eq!(failure("fn f()"), ParseError::UnexpectedEnd);
    assert_eq!(failure("if x { 1;"), ParseError::UnexpectedEnd);
    assert_eq!(failure("if x { } else"), ParseError::UnexpectedEnd);
    assert_eq!(failure("loop"), ParseError::UnexpectedEnd);
    assert_eq!(failure("loop i in 0 to 3"), ParseError::UnexpectedEnd);
}

#[test]
fn an_if_at_the_end_has_no_else() {
    assert_eq!(program("if x { }"), vec![ASTNode::IfStatement(Box::new(var("x")), vec![], false, vec![])]);
}

#[test]
fn an_expression_cannot_start_with_an_operator_or_a_bracket() {
    assert_eq!(failure("- 1;"), unexpected(Expected::Expression, Token::OpSub, 0));
    assert_eq!(failure("x = (1);"), unexpected(Expected::Expression, Token::KwLParen, 2));
    assert_eq!(failure("}"), unexpected(Expected::Expression, Token::KwRBrace, 0));
    assert_eq!(failure("x = let;"), unexpected(Expected::Expression, Token::KwLet, 2));
}

#[test]
fn an_atom_needs_an_operator_or_an_end() {
    assert_eq!(failure("1 2;"), unexpected(Expected::Operator, Token::Number, 1));
    assert_eq!(failure("x print(1);"), unexpected(Expected::Operator, Token::Identifier, 1));
    assert_eq!(failure("1 (2);"), unexpected(Expected::Operator, Token::KwLParen, 1));
    assert_eq!(failure("\"t\" (2);"), unexpected(Expected::Operator, Token::KwLParen, 1));
    assert_eq!(failure("print(1 x);"), unexpected(Expected::Operator, Token::Identifier, 3));
}

#[test]
fn only_a_variable_can_be_assigned_to() {
    assert_eq!(failure("5 = 3;"), unexpected(Expected::Name, Token::Number, 0));
    assert_eq!(failure("\"a\" += 3;"), unexpected(Expected::Name, Token::Text, 0));
    assert_eq!(failure("true -= 3;"), unexpected(Expected::Name, Token::KwTrue, 0));
}

#[test]
fn declarations_need_their_names_and_symbols() {
    assert_eq!(failure("let 5 = 3;"), unexpected(Expected::Name, Token::Number, 1));
    assert_eq!(failure("let x 3;"), unexpected(Expected::Symbol(Token::OpAssign), Token::Number, 2));
    assert_eq!(failure("fn 5() { }"), unexpected(Expected::Name, Token::Number, 1));
    assert_eq!(failure("fn f { }"), unexpected(Expected::Symbol(Token::KwLParen), Token::KwLBrace, 2));
    assert_eq!(failure("fn f(1) { }"), unexpected(Expected::Name, Token::Number, 3));
    assert_eq!(failure("fn f() 1;"), unexpected(Expected::Symbol(Token::KwLBrace), Token::Number, 4));
    assert_eq!(failure("print 1;"), unexpected(Expected::Symbol(Token::KwLParen), Token::Number, 1));
}

#[test]
fn control_forms_need_their_keywords_and_braces() {
    assert_eq!(failure("if x ; { }"), unexpected(Expected::Symbol(Token::KwLBrace), Token::KwTerminator, 2));
    assert_eq!(failure("loop 5 in 0 to 3 { }"), unexpected(Expected::Name, Token::Number, 1));
    assert_eq!(failure("loop i 0 to 3 { }"), unexpected(Expected::Symbol(Token::KwIn), Token::Number, 2));
    assert_eq!(failure("loop i in 0 , 3 { }"), unexpected(Expected::Symbol(Token::KwTo), Token::KwComma, 4));
    assert_eq!(failure("loop i in 0 to 3 ; { }"), unexpected(Expected::Symbol(Token::KwLBrace), Token::KwTerminator, 6));
    assert_eq!(failure("loop while x ; { }"), unexpected(Expected::Symbol(Token::KwLBrace), Token::KwTerminator, 3));
}

#[test]
fn parse_reads_one_statement_and_says_where_it_ends() {
    let tokens = scan("let x = 1; print(x);").unwrap();
    let (node, next, state) = parse(&tokens, 0, ParserState::new()).unwrap();
    assert_eq!(node, assign(AssignOp::Let, "x", num("1")));
    assert_eq!(next, 4);
    assert_eq!(state.registered_fn_names, vec!["print", "return"]);
    let (node, next, _) = parse(&tokens, 5, state).unwrap();
    assert_eq!(node, call("print", vec![var("x")]));
    assert_eq!(next, 9);
    assert_eq!(parse(&tokens, 10, ParserState::new()).unwrap_err(), ParseError::UnexpectedEnd);
}

#[test]
fn parse_registers_declared_functions() {
    let tokens = scan("fn twice(a) { return(a + a); }").unwrap();
    let (_, next, state) = parse(&tokens, 0, ParserState::new()).unwrap();
    assert_eq!(next, tokens.len());
    assert_eq!(state.registered_fn_names, vec!["print", "return", "twice"]);
    assert_eq!(state.registered_var_names, Vec::<String>::new());
    assert!(state.knows_function(&"twice".to_string()));
    assert!(!state.knows_function(&"thrice".to_string()));
}

#[test]
fn parse_expr_reads_an_expression_and_leaves_its_end() {
    let tokens = scan("1 + 2 ; 3").unwrap();
    let state = ParserState::new();
    let (node, next) = parse_expr(&tokens, 0, &state).unwrap();
    assert_eq!(node, binary(BinaryOp::Add, num("1"), num("2")));
    assert_eq!(next, 3);
    assert_eq!(parse_expr(&tokens, 3, &state).unwrap_err(), unexpected(Expected::Expression, Token::KwTerminator, 3));
}

#[test]
fn tokens_made_by_hand_parse_too() {
    let tokens = vec![
        ParsableToken::new(Token::Text, "q".to_string()),
        ParsableToken::new(Token::KwTerminator, ";".to_string()),
    ];
    assert_eq!(parse_program(&tokens).unwrap(), vec![text(""), ASTNode::Nothing]);
}

#[test]
fn reading_a_program_reports_both_kinds_of_error() {
    assert_eq!(read_program("print(1);").unwrap(), vec![call("print", vec![num("1")]), ASTNode::Nothing]);
    assert_eq!(read_program("print(1) @").unwrap_err(), SyntaxError::Lex(LexError { position: 9 }));
    assert_eq!(read_program("print(1").unwrap_err(), SyntaxError::Parse(ParseError::UnexpectedEnd));
}

#[test]
fn what_is_written_reads_back() {
    // Each token followed by a space, each statement by `;`, each argument
    // by a comma.
    let source = "fn f ( a b ) { let y = a + b ; if y < 3 { print ( y , ) ; } else { none ; } ; } ; \
                  loop i in 0 to 2.5 { f ( i , 1 , ) ; } ; loop while x != \"stop\" { x = \"stop\" ; } ; ";
    let expected = vec![
        ASTNode::FunctionDecl(
            "f".to_string(),
            vec!["a".to_string(), "b".to_string()],
            vec![
                assign(AssignOp::Let, "y", binary(BinaryOp::Add, var("a"), var("b"))),
                ASTNode::IfStatement(
                    Box::new(binary(BinaryOp::LtCheck, var("y"), num("3"))),
                    vec![call("print", vec![var("y")])],
                    true,
                    vec![ASTNode::Nothing],
                ),
            ],
        ),
        ASTNode::Nothing,
        ASTNode::IncrementingLoop(
            "i".to_string(),
            Box::new(num("0")),
            Box::new(num("2.5")),
            vec![call("f", vec![var("i"), num("1")])],
        ),
        ASTNode::Nothing,
        ASTNode::ConditionalLoop(
            Box::new(binary(BinaryOp::NeqCheck, var("x"), text("stop"))),
            vec![assign(AssignOp::Change, "x", text("stop"))],
        ),
        ASTNode::Nothing,
    ];
    assert_eq!(read_program(source).unwrap(), expected);
}

#[test]
fn a_statement_takes_at_least_one_token() {
    let tokens = scan("; x = 1 ; fn f() { } if a { } loop while a { }").unwrap();
    let mut pos = 0;
    let mut state = ParserState::new();
    while pos < tokens.len() {
        let (_, next, after) = parse(&tokens, pos, state).unwrap();
        assert!(pos < next && next <= tokens.len());
        pos = next;
        state = after;
    }
}

#[test]
fn a_call_of_a_function_declared_later_reads_as_a_variable() {
    let tokens = scan("g(1); fn g(a) { print(a); } g(2);").unwrap();
    let (node, next, state) = parse(&tokens, 0, ParserState::new()).unwrap();
    assert_eq!(node, var("g"));
    assert_eq!(next, 1);
    assert_eq!(state.registered_fn_names, vec!["print", "return"]);
    assert_eq!(
        parse_program(&tokens).unwrap(),
        vec![
            var("g"),
            ASTNode::Nothing,
            num("1"),
            ASTNode::Nothing,
            ASTNode::Nothing,
            ASTNode::FunctionDecl("g".to_string(), vec!["a".to_string()], vec![call("print", vec![var("a")])]),
            call("g", vec![num("2")]),
            ASTNode::Nothing,
        ]
    );
}

#[test]
fn a_call_of_a_function_that_is_never_declared_reads_as_a_variable() {
    assert_eq!(
        program("x (1);"),
        vec![var("x"), ASTNode::Nothing, num("1"), ASTNode::Nothing, ASTNode::Nothing]
    );
    assert_eq!(program("g();"), vec![var("g"), ASTNode::Nothing, ASTNode::Nothing, ASTNode::Nothing]);
    assert_eq!(
        program("let y = g(1, 2);"),
        vec![
            assign(AssignOp::Let, "y", var("g")),
            ASTNode::Nothing,
            num("1"),
            ASTNode::Nothing,
            num("2"),
            ASTNode::Nothing,
            ASTNode::Nothing,
        ]
    );
    assert_eq!(
        program("x = 1 + g(2);"),
        vec![
            assign(AssignOp::Change, "x", binary(BinaryOp::Add, num("1"), var("g"))),
            ASTNode::Nothing,
            num("2"),
            ASTNode::Nothing,
            ASTNode::Nothing,
        ]
    );
}

#[test]
fn an_unknown_call_in_a_body_leaves_its_parts_as_statements() {
    assert_eq!(
        program("fn f() { g(1); }"),
        vec![ASTNode::FunctionDecl("f".to_string(), vec![], vec![var("g"), num("1")])]
    );
}

#[test]
fn an_unknown_call_among_arguments_leaves_its_parts_as_arguments() {
    assert_eq!(
        program("print(g(1));"),
        vec![call("print", vec![var("g"), num("1")]), ASTNode::Nothing, ASTNode::Nothing]
    );
}

#[test]
fn an_unknown_call_as_a_condition_needs_the_brace() {
    assert_eq!(failure("if g(1) { }"), unexpected(Expected::Symbol(Token::KwLBrace), Token::KwLParen, 2));
}

#[test]
fn a_parenthesis_where_a_statement_starts_is_nothing() {
    assert_eq!(program("( ) ;"), vec![ASTNode::Nothing, ASTNode::Nothing, ASTNode::Nothing]);
    assert_eq!(program("fn f() { ( 1; ) }"), vec![ASTNode::FunctionDecl("f".to_string(), vec![], vec![num("1")])]);
}
