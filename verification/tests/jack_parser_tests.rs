use hack_toolchain::ast::{
    parse_class_var_dec, parse_extra_var_names, parse_parameters, parse_statement, parse_var_dec,
    ClassVarDec, ClassVarDecType, Expression, LetStatement, Op, OpTerm, Parameter, Statement,
    Statements, SubroutineBody, SubroutineCall, SubroutineDec, SubroutineName,
    SubroutineReturnType, SubroutineType, Term, Type, VarDec, VarName,
};
use hack_toolchain::tokenizer::{Token, Tokenizer};

fn fixture_tokens(content: &str) -> Vec<Token> {
    let lines: Vec<String> = content.lines().map(|s| s.to_string()).collect();
    Tokenizer::new(&lines).into_tokens()
}

#[test]
fn extra_var_names_parser() {
    let tokens = fixture_tokens(", hello, world");
    let (names, _) = parse_extra_var_names(&tokens, 0);
    let names = names.unwrap();
    assert_eq!(names.len(), 2);
    match &names[0] {
        VarName(v) if *v == "hello".to_string() => {},
        _ => panic!("error parsing var `hello`"),
    }
    match &names[1] {
        VarName(v) if *v == "world".to_string() => {},
        _ => panic!("error parsing var `world`"),
    }
}

#[test]
fn extra_paramters_parser() {
    let tokens = fixture_tokens("int a, boolean isTrue, People bran");
    let (params, _) = parse_parameters(&tokens, 0);
    let params = params.unwrap();
    assert_eq!(params.len(), 3);
    match &params[0] {
        Parameter(Type::Int, VarName(v)) if *v == "a".to_string() => {},
        _ => panic!("error parsing int parameter a"),
    }
    match &params[1] {
        Parameter(Type::Boolean, VarName(v)) if *v == "isTrue".to_string() => {},
        _ => panic!("error parsing boolean parameter isTrue"),
    }
    match &params[2] {
        Parameter(Type::ClassName(c), VarName(v)) if c == "People" && *v == "bran".to_string() => {},
        _ => panic!("error parsing classname parameter bran"),
    }
}

#[test]
fn class_var_dec_parser() {
    let tokens = fixture_tokens(
        "\
            static int a, b;
            field boolean c, d;
        ",
    );
    let (first, p) = parse_class_var_dec(&tokens, 0);
    let ClassVarDec { dec_type, var_type, var_name, extra_var_names } = first.unwrap();
    match dec_type {
        ClassVarDecType::Static => {},
        _ => panic!("error parsing dec_type"),
    }
    match var_type {
        Type::Int => {},
        _ => panic!("error parsing var_type"),
    }
    match var_name {
        VarName(v) if v == "a".to_string() => {},
        _ => panic!("error parsing int a"),
    }
    match extra_var_names.first().unwrap() {
        VarName(v) if *v == "b".to_string() => {},
        _ => panic!("error parsing int b"),
    }

    let (second, q) = parse_class_var_dec(&tokens, p);
    let ClassVarDec { dec_type, var_type, var_name, extra_var_names } = second.unwrap();
    match dec_type {
        ClassVarDecType::Field => {},
        _ => panic!("error parsing dec_type"),
    }
    match var_type {
        Type::Boolean => {},
        _ => panic!("error parsing var_type"),
    }
    match var_name {
        VarName(v) if v == "c".to_string() => {},
        _ => panic!("error parsing int c"),
    }
    match extra_var_names.first().unwrap() {
        VarName(v) if *v == "d".to_string() => {},
        _ => panic!("error parsing int d"),
    }

    let (third, _) = parse_class_var_dec(&tokens, q);
    assert!(third.is_none());
}

#[test]
fn subroutine_dec_parser() {
    let tokens = fixture_tokens(
        "\
            constructor People new(int age, String name) {
                var int a;
                let b = 1;
            }
            method int age() {}
        ",
    );
    let (first, p) = hack_toolchain::ast::parse_subroutine_dec(&tokens, 0);
    match first.unwrap() {
        SubroutineDec {
            subroutine_type: SubroutineType::Constructor,
            return_type: SubroutineReturnType::General(Type::ClassName(a)),
            name: SubroutineName(v),
            parameters,
            body: SubroutineBody { var_decs, statements: Statements(statements) },
        } => {
            assert_eq!(a.as_str(), "People");
            assert_eq!(v.as_str(), "new");
            let mut parameters = parameters.iter();
            match parameters.next().unwrap() {
                Parameter(Type::Int, VarName(n)) if *n == "age".to_string() => {},
                _ => panic!("error parsing parameter int age"),
            }
            match parameters.next().unwrap() {
                Parameter(Type::ClassName(c), VarName(n))
                    if *c == "String".to_string() && *n == "name".to_string() => {},
                _ => panic!("error parsing parameter String name"),
            }
            assert_eq!(1, var_decs.len());
            assert_eq!(1, statements.len());
        },
        _ => panic!(),
    }

    let (second, _) = hack_toolchain::ast::parse_subroutine_dec(&tokens, p);
    match second.unwrap() {
        SubroutineDec {
            subroutine_type: SubroutineType::Method,
            return_type: SubroutineReturnType::General(Type::Int),
            name: SubroutineName(v),
            parameters,
            body: SubroutineBody { var_decs, statements: Statements(statements) },
        } => {
            assert!(parameters.is_empty());
            assert_eq!(v.as_str(), "age");
            assert!(var_decs.is_empty());
            assert!(statements.is_empty());
        },
        _ => panic!(),
    }
}

#[test]
fn var_dec_parser() {
    let tokens = fixture_tokens(
        "\
            var int age, weight, height;
            var String name;
        ",
    );
    let (first, p) = parse_var_dec(&tokens, 0);
    let VarDec { var_type, var_name, extra_var_names } = first.unwrap();
    match var_type {
        Type::Int => {},
        _ => panic!("error parsing var type"),
    }
    match var_name {
        VarName(v) if v == "age".to_string() => {},
        _ => panic!("error parsing var_name"),
    }
    let mut extra_var_names = extra_var_names.iter();
    match extra_var_names.next().unwrap() {
        VarName(v) if *v == "weight".to_string() => {},
        _ => panic!("errpr parsing weight"),
    }
    match extra_var_names.next().unwrap() {
        VarName(v) if *v == "height".to_string() => {},
        _ => panic!("errpr parsing weight"),
    }
    assert!(extra_var_names.next().is_none());

    let (second, _) = parse_var_dec(&tokens, p);
    let VarDec { var_type, var_name, extra_var_names } = second.unwrap();
    match var_type {
        Type::ClassName(v) if v == "String".to_string() => {},
        _ => panic!("error parsing var type"),
    }
    match var_name {
        VarName(v) if v == "name".to_string() => {},
        _ => panic!("error parsing var_name"),
    }
    assert!(extra_var_names.is_empty());
}

#[test]
fn basic_expression_parser() {
    let tokens = fixture_tokens("a+b");
    let (expression, _) = Expression::parse(&tokens, 0);
    match expression.unwrap() {
        Expression { term: Term::VarName(a), extra_op_terms } if a == "a".to_string() => {
            let mut iter = extra_op_terms.iter();
            match iter.next().unwrap() {
                OpTerm(Op::Plus, Term::VarName(v)) if v.as_str() == "b" => {},
                _ => panic!("error parsing op term `+b`"),
            }
            assert!(iter.next().is_none());
        },
        _ => panic!("error parsing expression `a+b`"),
    }
}

#[test]
fn complex_expression_parser() {
    let tokens = fixture_tokens(
        "\
            -a - bob.age() / (get_max(size, 1) + alex[2])
        ",
    );
    let (expression, _) = Expression::parse(&tokens, 0);
    match expression.unwrap() {
        Expression { term: Term::WithUnary(hack_toolchain::ast::UnaryOp::Negative, t), extra_op_terms } => {
            match *t {
                Term::VarName(v) => assert_eq!(v.as_str(), "a"),
                _ => panic!("error parsing term `-a`"),
            }
            let mut iter = extra_op_terms.into_iter();
            match iter.next().unwrap() {
                OpTerm(
                    Op::Minus,
                    Term::Call(SubroutineCall { caller, subroutine_name: SubroutineName(v), expression_list }),
                ) => {
                    assert_eq!(caller, Some("bob".to_string()));
                    assert_eq!(v, "age".to_string());
                    assert!(expression_list.is_empty());
                },
                _ => panic!("error parsing op term `- bob.age`"),
            }
            match iter.next().unwrap() {
                OpTerm(Op::Divide, Term::Expression(expression)) => {
                    match *expression {
                        Expression {
                            term: Term::Call(SubroutineCall { caller, subroutine_name: SubroutineName(v), expression_list }),
                            extra_op_terms,
                        } => {
                            assert_eq!(caller, None);
                            assert_eq!(v, "get_max".to_string());
                            let mut iter = expression_list.into_iter();
                            match iter.next().unwrap() {
                                Expression { term: Term::VarName(v), extra_op_terms } => {
                                    assert_eq!(v, "size".to_string());
                                    assert!(extra_op_terms.is_empty());
                                },
                                _ => panic!(),
                            }
                            match iter.next().unwrap() {
                                Expression { term: Term::IntegerConstant(v), extra_op_terms } => {
                                    assert_eq!(v, 1);
                                    assert!(extra_op_terms.is_empty());
                                },
                                _ => panic!(),
                            }
                            let mut iter = extra_op_terms.into_iter();
                            match iter.next().unwrap() {
                                OpTerm(Op::Plus, Term::IndexVar(v, expression)) => {
                                    assert_eq!(v.as_str(), "alex");
                                    match *expression {
                                        Expression { term: Term::IntegerConstant(2), extra_op_terms } => {
                                            assert!(extra_op_terms.is_empty())
                                        },
                                        _ => panic!(),
                                    }
                                },
                                _ => panic!(),
                            }
                        },
                        _ => panic!(),
                    }
                },
                _ => panic!("error parsing expression `/ (get_max(size, 1) + alex[2]`"),
            }
            assert!(iter.next().is_none());
        },
        _ => panic!("error parsing complex expression"),
    }
}

#[test]
fn let_statement() {
    let tokens = fixture_tokens(
        "\
            let a = 1;
            let b[1] = 2;
        ",
    );
    let (first, p) = parse_statement(&tokens, 0);
    match first.unwrap() {
        Statement::Let(LetStatement {
            var_name: VarName(v),
            index_expression: None,
            expression: Expression { term: Term::IntegerConstant(1), extra_op_terms },
        }) => {
            assert_eq!(v.as_str(), "a");
            assert!(extra_op_terms.is_empty());
        },
        _ => panic!(),
    }
    let (second, _) = parse_statement(&tokens, p);
    match second.unwrap() {
        Statement::Let(LetStatement {
            var_name: VarName(v),
            index_expression:
                Some(Expression { term: Term::IntegerConstant(1), extra_op_terms: extra_op_terms_1 }),
            expression: Expression { term: Term::IntegerConstant(2), extra_op_terms },
        }) => {
            assert_eq!(v.as_str(), "b");
            assert!(extra_op_terms.is_empty());
            assert!(extra_op_terms_1.is_empty());
        },
        _ => panic!(),
    }
}

#[test]
fn if_statement() {
    let tokens = fixture_tokens(
        "\
            if (true) {
                let a = 1;
            } else {
                let b = 2;
            }
        ",
    );
    let (first, _) = parse_statement(&tokens, 0);
    match first.unwrap() {
        Statement::If(statement) => {
            match *statement {
                hack_toolchain::ast::IfStatement {
                    expression:
                        Expression {
                            term: Term::KeywordConstant(hack_toolchain::ast::KeywordConstant::True),
                            extra_op_terms,
                        },
                    if_statements: Statements(if_statements),
                    else_statements: Some(Statements(else_statements)),
                } => {
                    assert!(extra_op_terms.is_empty());
                    assert_eq!(1, if_statements.len());
                    assert_eq!(1, else_statements.len());
                    match if_statements.first().unwrap() {
                        Statement::Let(_) => {},
                        _ => panic!(),
                    }
                    match else_statements.first().unwrap() {
                        Statement::Let(_) => {},
                        _ => panic!(),
                    }
                },
                _ => panic!(),
            }
        },
        _ => panic!(),
    }
}

#[test]
fn while_statement() {
    let tokens = fixture_tokens(
        "\
            while (true) {
                let a = 1;
            }
        ",
    );
    let (first, _) = parse_statement(&tokens, 0);
    match first.unwrap() {
        Statement::While(statement) => {
            match *statement {
                hack_toolchain::ast::WhileStatement {
                    expression:
                        Expression {
                            term: Term::KeywordConstant(hack_toolchain::ast::KeywordConstant::True),
                            extra_op_terms,
                        },
                    statements: Statements(statements),
                } => {
                    assert!(extra_op_terms.is_empty());
                    assert_eq!(1, statements.len());
                },
                _ => panic!(),
            }
        },
        _ => panic!(),
    }
}

#[test]
fn do_statement() {
    let tokens = fixture_tokens(
        "\
            do get_max();
        ",
    );
    let (first, _) = parse_statement(&tokens, 0);
    match first.unwrap() {
        Statement::Do(SubroutineCall {
            caller,
            subroutine_name: SubroutineName(v),
            expression_list,
        }) => {
            assert_eq!(caller, None);
            assert_eq!(v.as_str(), "get_max");
            assert!(expression_list.is_empty());
        },
        _ => panic!(),
    }
}

#[test]
fn return_statement() {
    let tokens = fixture_tokens(
        "\
            return 1;
        ",
    );
    let (first, _) = parse_statement(&tokens, 0);
    match first.unwrap() {
        Statement::Return(Some(Expression { term: Term::IntegerConstant(1), extra_op_terms })) => {
            assert!(extra_op_terms.is_empty());
        },
        _ => panic!(),
    }
}
