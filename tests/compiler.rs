use alumina::generation::{Generator, GeneratorError};
use alumina::parser::{Node, NodeType, Parser, ParserError};
use alumina::token::{keyword_from_lower, Lexer, Token};

fn parse_text(text: &str) -> Result<Vec<Node>, ParserError> {
    Parser::parse(Lexer::tokenize(text).unwrap())
}

fn compile(text: &str) -> Result<String, GeneratorError> {
    Generator::generate_program(parse_text(text).unwrap())
}

#[test]
fn block_markers_balance() {
    let nodes = parse_text("{ let a = 1 { let b = 2 } }\nwhile a < 2 { a = a + 1 }").unwrap();
    let mut depth: i64 = 0;
    for node in &nodes {
        match node.variant {
            NodeType::BlockStart => depth += 1,
            NodeType::BlockEnd => depth -= 1,
            _ => {}
        }
        assert!(depth >= 0);
    }
    assert_eq!(depth, 0);
}

#[test]
fn parents_point_backwards() {
    let nodes = parse_text("let x = 1\nif x == 1 { x = 2 } else { x = 3 }").unwrap();
    for (i, node) in nodes.iter().enumerate() {
        if let Some(p) = node.parent {
            assert!(p < i);
        }
    }
    assert!(matches!(nodes[2].variant, NodeType::StmtIf(1)));
}

#[test]
fn block_end_points_at_its_start() {
    let nodes = parse_text("{ let a = 1 }").unwrap();
    assert!(matches!(nodes[0].variant, NodeType::BlockStart));
    assert_eq!(nodes[0].parent, None);
    assert_eq!(nodes[1].parent, Some(0));
    assert!(matches!(nodes[3].variant, NodeType::BlockEnd));
    assert_eq!(nodes[3].parent, Some(0));
    let nodes = parse_text("while 1 { }").unwrap();
    assert!(matches!(nodes[3].variant, NodeType::BlockEnd));
    assert_eq!(nodes[3].parent, Some(0));
}

#[test]
fn statement_nodes_come_first() {
    let nodes = parse_text("let x = 5").unwrap();
    assert_eq!(nodes.len(), 2);
    assert!(matches!(&nodes[0].variant, NodeType::StmtNewVar(n) if n == "x"));
    assert_eq!(nodes[0].parent, None);
    assert!(matches!(nodes[1].variant, NodeType::ExprLiteral(5)));
    assert_eq!(nodes[1].parent, Some(0));
}

#[test]
fn precedence_orders_operators() {
    let nodes = parse_text("exit 1 + 2 * 3").unwrap();
    let kinds: Vec<String> = nodes.iter().map(|n| format!("{:?}", n.variant)).collect();
    assert_eq!(
        kinds,
        vec![
            "ExprLiteral(1)",
            "ExprLiteral(2)",
            "ExprLiteral(3)",
            "ExprBinMul",
            "ExprBinAdd",
            "StmtFunction(\"exit\")",
        ]
    );
    let code = compile("exit 1 + 2 * 3").unwrap();
    assert!(code.find("mul rbx").unwrap() < code.find("add rax, rbx").unwrap());
}

#[test]
fn exit_follows_its_argument() {
    let nodes = parse_text("exit 7").unwrap();
    assert_eq!(nodes.len(), 2);
    assert!(matches!(nodes[0].variant, NodeType::ExprLiteral(7)));
    assert!(matches!(&nodes[1].variant, NodeType::StmtFunction(n) if n == "exit"));
    assert_eq!(nodes[1].parent, None);
}

#[test]
fn parentheses_push_nothing_themselves() {
    let code = compile("let x = (1)\nexit x").unwrap();
    assert_eq!(code.matches("push rax\n").count(), 1);
    let code = compile("let x = 0\nwhile x < 10 { x = (x + 1) * 2 }\nexit x").unwrap();
    // inside the loop the variable stays on top of the stack
    assert!(code.contains("pop rax\nmov QWORD [rsp + 0], rax\n"));
}

#[test]
fn parentheses_invert_precedence() {
    let code = compile("exit (1 + 2) * 3").unwrap();
    assert!(code.find("add rax, rbx").unwrap() < code.find("mul rbx").unwrap());
}

#[test]
fn equality_condition_jumps_when_not_equal() {
    let code = compile("let a = 1\nlet b = 2\nif a == b { }").unwrap();
    assert!(code.contains("cmp rax, rbx\njne .if0\n"));
}

#[test]
fn less_condition_jumps_when_not_below() {
    let code = compile("let a = 1\nlet b = 2\nif a < b { }").unwrap();
    assert!(code.contains("cmp rax, rbx\njnb .if0\n"));
}

#[test]
fn every_comparison_is_inverted() {
    let cases = [("!=", "je"), ("==", "jne"), (">", "jna"), (">=", "jnae"), ("<", "jnb"), ("<=", "jnbe")];
    for (op, jump) in cases {
        let code = compile(&format!("let a = 1\nwhile a {} 2 {{ }}", op)).unwrap();
        assert!(code.contains(&format!("cmp rax, rbx\n{} .loopend1\n", jump)), "{}", op);
    }
}

#[test]
fn plain_value_condition_tests_against_zero() {
    let code = compile("let a = 1\nif a { }").unwrap();
    assert!(code.contains("pop rax\ncmp rax, 0\nje .if0\n"));
}

#[test]
fn scenario_exit_with_variable() {
    let code = compile("let x = 5\nexit x").unwrap();
    assert_eq!(
        code,
        "global _start\nsection .text\n_start:\n\
         mov rax, 5\npush rax\n\t; variable (x) assigned\n\
         push QWORD [rsp + 0]\npop rdi\nmov rax, 60\nsyscall\n\
         mov rdi, 0\nmov rax, 60\nsyscall"
    );
}

#[test]
fn scenario_counting_loop() {
    let code = compile("let x = 0\nwhile x < 3 { x = x + 1 }\nexit x").unwrap();
    assert_eq!(code.matches("jmp ").count(), 1);
    assert!(code.contains("jmp .loopstart0\n"));
    assert_eq!(code.matches("jnb ").count(), 1);
    assert!(code.contains("jnb .loopend1\n"));
    assert!(code.find(".loopstart0:\n").unwrap() < code.find("jnb .loopend1\n").unwrap());
    assert!(code.find("jmp .loopstart0\n").unwrap() < code.find(".loopend1:\n").unwrap());
    assert!(code.contains("mov QWORD [rsp + 0], rax\n"));
}

#[test]
fn scenario_if_else() {
    let code = compile("let x = 1\nif x == 1 { let y = 2 } else { let y = 3 }\nexit x").unwrap();
    assert!(code.contains("jne .if0\n"));
    assert!(code.contains("jmp .else1\n"));
    assert!(code.contains(".if0:\n"));
    assert!(code.contains(".else1:\n"));
    assert_eq!(code.matches("add rsp, 8\n").count(), 2);
    let closed = compile("let x = 1\nif x == 1 { let y = 2 } else { let y = 3 }\nexit y");
    assert!(matches!(closed, Err(GeneratorError::VariableNotYetDeclared(n)) if n == "y"));
}

#[test]
fn reparsing_gives_the_same_nodes() {
    let tokens = Lexer::tokenize("let x = 0\nwhile x < 3 { x = (x + 1) * 2 }\nexit x").unwrap();
    let first = Parser::parse(tokens.clone()).unwrap();
    let second = Parser::parse(tokens).unwrap();
    assert_eq!(format!("{:?}", first), format!("{:?}", second));
}

#[test]
fn duplicate_declaration_in_one_scope_fails() {
    let r = compile("let x = 1\nlet x = 2");
    assert!(matches!(r, Err(GeneratorError::VariableAlreadyDeclared(n)) if n == "x"));
    let r = compile("{ let x = 1\nlet x = 2 }");
    assert!(matches!(r, Err(GeneratorError::VariableAlreadyDeclared(n)) if n == "x"));
}

#[test]
fn inner_scope_may_shadow() {
    let code = compile("let x = 1\n{ let x = 2\nexit x }\nexit x").unwrap();
    // the inner read finds the inner slot on top, the outer one after the block is gone
    assert_eq!(code.matches("push QWORD [rsp + 0]\n").count(), 2);
    assert!(code.contains("add rsp, 8\n"));
}

#[test]
fn block_releases_its_slots() {
    let code = compile("let a = 1\n{ let b = 2\nlet c = 3\nexit b }\nexit a").unwrap();
    // b sits one slot below c inside the block
    assert!(code.contains("push QWORD [rsp + 8]\npop rdi\n"));
    assert!(code.contains("add rsp, 16\n"));
    // after the block only a is left, on top of the stack
    assert!(code.ends_with("add rsp, 16\npush QWORD [rsp + 0]\npop rdi\nmov rax, 60\nsyscall\nmov rdi, 0\nmov rax, 60\nsyscall"));
}

#[test]
fn keyword_table_reads_lowercase_words() {
    assert_eq!(keyword_from_lower(&"while".to_string()), Some(Token::While));
    assert_eq!(keyword_from_lower(&"While".to_string()), None);
    assert_eq!(keyword_from_lower(&"x".to_string()), None);
}

#[test]
fn variables_are_addressed_below_the_top() {
    let code = compile("let a = 1\nlet b = 2\nexit a").unwrap();
    assert!(code.contains("push QWORD [rsp + 8]\n"));
}

#[test]
fn empty_program_just_exits() {
    assert_eq!(
        Generator::generate_program(vec![]).unwrap(),
        "global _start\nsection .text\n_start:\nmov rdi, 0\nmov rax, 60\nsyscall"
    );
}

#[test]
fn parser_errors() {
    assert!(matches!(parse_text("let 5 = 3"), Err(ParserError::UnexpectedToken)));
    assert!(matches!(parse_text("let x"), Err(ParserError::EndOfInput)));
    assert!(matches!(parse_text("{ let x = 1"), Err(ParserError::EndOfInput)));
    assert!(matches!(parse_text("}"), Err(ParserError::EndOfBlock)));
    assert!(matches!(parse_text("exit"), Err(ParserError::EndOfInput)));
    assert!(matches!(parse_text("+"), Err(ParserError::UnexpectedToken)));
    assert!(matches!(parse_text("exit 1 2"), Err(ParserError::UnexpectedToken)));
    assert!(matches!(parse_text("exit + +"), Err(ParserError::UnexpectedToken)));
    assert!(matches!(parse_text("exit )"), Err(ParserError::UnexpectedToken)));
    assert!(matches!(parse_text("exit 1)"), Err(ParserError::UnexpectedToken)));
    assert!(matches!(parse_text("exit (1"), Err(ParserError::EndOfInput)));
    assert!(matches!(parse_text("exit 1 +"), Err(ParserError::EndOfInput)));
    assert!(matches!(parse_text("exit (1) 2"), Err(ParserError::UnexpectedToken)));
    assert!(parse_text("").unwrap().is_empty());
}

#[test]
fn generator_errors() {
    assert!(matches!(compile("exit y"), Err(GeneratorError::VariableNotYetDeclared(n)) if n == "y"));
    assert!(matches!(compile("y = 2"), Err(GeneratorError::VariableNotYetDeclared(n)) if n == "y"));
    let end = vec![Node { variant: NodeType::BlockEnd, parent: None }];
    assert!(matches!(Generator::generate_program(end), Err(GeneratorError::BlockNotYetOpened)));
    let open = vec![Node { variant: NodeType::BlockStart, parent: None }];
    assert!(matches!(Generator::generate_program(open), Err(GeneratorError::EndOfInput)));
    let bare = vec![Node { variant: NodeType::ExprBinAdd, parent: None }];
    assert!(matches!(Generator::generate_program(bare), Err(GeneratorError::UnexpectedNode(NodeType::ExprBinAdd))));
    let call = vec![
        Node { variant: NodeType::ExprLiteral(1), parent: None },
        Node { variant: NodeType::StmtFunction("print".to_string()), parent: None },
    ];
    assert!(matches!(Generator::generate_program(call), Err(GeneratorError::UnexpectedNode(NodeType::StmtFunction(_)))));
    let bare_call = vec![Node { variant: NodeType::StmtFunction("exit".to_string()), parent: None }];
    assert!(matches!(Generator::generate_program(bare_call), Err(GeneratorError::UnexpectedNode(_))));
    let no_call = vec![Node { variant: NodeType::ExprLiteral(1), parent: None }];
    assert!(matches!(Generator::generate_program(no_call), Err(GeneratorError::EndOfInput)));
    let two_values = vec![
        Node { variant: NodeType::ExprLiteral(1), parent: None },
        Node { variant: NodeType::ExprLiteral(2), parent: None },
        Node { variant: NodeType::StmtFunction("exit".to_string()), parent: None },
    ];
    assert!(matches!(Generator::generate_program(two_values), Err(GeneratorError::UnexpectedNode(NodeType::StmtFunction(_)))));
    let lone_add = vec![
        Node { variant: NodeType::ExprBinAdd, parent: None },
        Node { variant: NodeType::StmtFunction("exit".to_string()), parent: None },
    ];
    assert!(matches!(Generator::generate_program(lone_add), Err(GeneratorError::UnexpectedNode(NodeType::ExprBinAdd))));
}

#[test]
fn literals_are_written_in_decimal() {
    let code = compile("exit 4294967295").unwrap();
    assert!(code.contains("mov rax, 4294967295\n"));
}
