use hack_toolchain::tokenizer::{Line, Token, Tokenizer};

#[test]
fn test_line() {
    let line = "do Output.printString(\"The average is \");  let i = 1;";
    let mut line = Line::new(line);

    match line.next().unwrap() {
        Token::Keyword(k) if k == "do".to_string() => {},
        _ => panic!("failed to parse keyword `do`"),
    }

    match line.next().unwrap() {
        Token::Identifier(v) if v == "Output".to_string() => {},
        _ => panic!("failed to parse identifier `Output`"),
    }

    match line.next().unwrap() {
        Token::Symbol('.') => {},
        _ => panic!("failed to parse the symbol `.`"),
    }

    match line.next().unwrap() {
        Token::Identifier(v) if v == "printString".to_string() => {},
        _ => panic!("failed to parse identifier `printString`"),
    }

    match line.next().unwrap() {
        Token::Symbol('(') => {},
        _ => panic!("failed to parse the symbol `(`"),
    }

    match line.next().unwrap() {
        Token::String(v) if v == "The average is ".to_string() => {},
        Token::String(v) => panic!("failed to parse the string content: {}", v),
        _ => panic!("Unknown string parsing error"),
    }

    match line.next().unwrap() {
        Token::Symbol(')') => {},
        _ => panic!("failed to parse the symbol `)`"),
    }

    match line.next().unwrap() {
        Token::Symbol(';') => {},
        _ => panic!("failed to parse the symbol `;`"),
    }

    match line.next().unwrap() {
        Token::Keyword(k) if k == "let".to_string() => {},
        _ => panic!("failed to parse keyword `let`"),
    }

    match line.next().unwrap() {
        Token::Identifier(v) if v == "i".to_string() => {},
        _ => panic!("failed to parse identifier `i`"),
    }

    match line.next().unwrap() {
        Token::Symbol('=') => {},
        _ => panic!("failed to parse the symbol `=`"),
    }

    match line.next().unwrap() {
        Token::Int(1) => {},
        _ => panic!("failed to parse the int `1`"),
    }

    match line.next().unwrap() {
        Token::Symbol(';') => {},
        _ => panic!("failed to parse the symbol `;`"),
    }

    assert!(line.next().is_none());
}

#[test]
fn test_tokenizer() {
    let content = "\
            if (x < 0) {
                // print the slogan
                /** I am a comment */
                /**
                 * Test
                 */
                do Output.printString(\"hello world :)\");
            }
        ";
    let lines: Vec<String> = content.lines().map(|s| s.to_string()).collect();
    let mut tokenizer = Tokenizer::new(&lines);

    match tokenizer.next() {
        Some(Token::Keyword(v)) if v == "if".to_string() => {},
        _ => panic!("error parsing keyword `if`"),
    }

    match tokenizer.next() {
        Some(Token::Symbol('(')) => {},
        _ => panic!("error parsing symbol `(`"),
    }

    match tokenizer.next() {
        Some(Token::Identifier(v)) if v == "x".to_string() => {},
        _ => panic!("error parsing identifier `x`"),
    }

    match tokenizer.next() {
        Some(Token::Symbol('<')) => {},
        _ => panic!("error parsing symbol `<`"),
    }

    match tokenizer.next() {
        Some(Token::Int(0)) => {},
        _ => panic!("error parsing integer `0`"),
    }

    match tokenizer.next() {
        Some(Token::Symbol(')')) => {},
        _ => panic!("error parsing symbol `)`"),
    }

    match tokenizer.next() {
        Some(Token::Symbol('{')) => {},
        _ => panic!("error parsing symbol `{{`"),
    }

    match tokenizer.next() {
        Some(Token::Keyword(v)) if v == "do".to_string() => {},
        Some(token) => panic!("error parsing: {:?}", token),
        _ => panic!("error parsing keyword `do`"),
    }

    match tokenizer.next() {
        Some(Token::Identifier(v)) if v == "Output".to_string() => {},
        _ => panic!("error parsing identifier `Output`"),
    }

    match tokenizer.next() {
        Some(Token::Symbol('.')) => {},
        _ => panic!("error parsing symbol `.`"),
    }

    match tokenizer.next() {
        Some(Token::Identifier(v)) if v == "printString".to_string() => {},
        _ => panic!("error parsing identifier `printString`"),
    }

    match tokenizer.next() {
        Some(Token::Symbol('(')) => {},
        _ => panic!("error parsing symbol `(`"),
    }

    match tokenizer.next() {
        Some(Token::String(v)) if v == "hello world :)".to_string() => {},
        _ => panic!("error parsing string"),
    }

    match tokenizer.next() {
        Some(Token::Symbol(')')) => {},
        _ => panic!("error parsing symbol `)`"),
    }

    match tokenizer.next() {
        Some(Token::Symbol(';')) => {},
        _ => panic!("error parsing symbol `;`"),
    }

    match tokenizer.next() {
        Some(Token::Symbol('}')) => {},
        _ => panic!("error parsing symbol `}}`"),
    }

    assert!(tokenizer.next().is_none());
}

#[test]
fn test() {
    assert!(" */\n".trim().starts_with("*/"));
}

#[test]
fn oversized_integer_cuts_the_line() {
    // an integer literal beyond 15 bits is a lexical error; the scan
    // stops there
    let mut line = Line::new("let x = 99999;");
    match line.next().unwrap() {
        Token::Keyword(k) => assert_eq!(k, "let"),
        _ => panic!("expected the keyword"),
    }
    match line.next().unwrap() {
        Token::Identifier(v) => assert_eq!(v, "x"),
        _ => panic!("expected the identifier"),
    }
    match line.next().unwrap() {
        Token::Symbol('=') => {},
        _ => panic!("expected the symbol"),
    }
    assert!(line.next().is_none());
}

// A block comment may start and end anywhere, mid-line included, and
// span lines; its content never yields tokens.
#[test]
fn block_comments_anywhere() {
    let lines: Vec<String> = ["let x /* note */ = 1; /* tail", "   still in it", "done */ ;"]
        .iter()
        .map(|s| s.to_string())
        .collect();
    let mut tokenizer = Tokenizer::new(&lines);
    assert!(tokenizer.is_ok());
    match tokenizer.next() {
        Some(Token::Keyword(k)) => assert_eq!(k, "let"),
        _ => panic!("expected the keyword"),
    }
    match tokenizer.next() {
        Some(Token::Identifier(v)) => assert_eq!(v, "x"),
        _ => panic!("expected the identifier"),
    }
    assert!(matches!(tokenizer.next(), Some(Token::Symbol('='))));
    assert!(matches!(tokenizer.next(), Some(Token::Int(1))));
    assert!(matches!(tokenizer.next(), Some(Token::Symbol(';'))));
    assert!(matches!(tokenizer.next(), Some(Token::Symbol(';'))));
    assert!(tokenizer.next().is_none());
}

// A one-line block comment with nothing in it is just skipped.
#[test]
fn tiny_block_comment_line() {
    let lines: Vec<String> = vec!["/* */".to_string()];
    let mut tokenizer = Tokenizer::new(&lines);
    assert!(tokenizer.is_ok());
    assert!(tokenizer.next().is_none());
}

// The closing quote of an empty literal ends the string: an empty
// String token comes out and scanning goes on normally.
#[test]
fn empty_string_literal() {
    let mut line = Line::new("let s = \"\";");
    assert!(line.is_ok());
    assert!(matches!(line.next(), Some(Token::Keyword(_))));
    assert!(matches!(line.next(), Some(Token::Identifier(_))));
    assert!(matches!(line.next(), Some(Token::Symbol('='))));
    match line.next() {
        Some(Token::String(v)) => assert_eq!(v, ""),
        _ => panic!("expected the empty string literal"),
    }
    assert!(matches!(line.next(), Some(Token::Symbol(';'))));
    assert!(line.next().is_none());
}

// A string left open at the end of its line is a lexical error.
#[test]
fn unterminated_string_is_an_error() {
    let line = Line::new("let s = \"abc");
    assert!(!line.is_ok());
}

// A block comment left open at the end of the file is a lexical
// error.
#[test]
fn unterminated_block_comment_is_an_error() {
    let lines: Vec<String> = vec!["let x = 1; /* open".to_string()];
    let tokenizer = Tokenizer::new(&lines);
    assert!(!tokenizer.is_ok());
}

// A division symbol is still a symbol: only `//` and `/*` open
// comments.
#[test]
fn slash_is_division() {
    let mut line = Line::new("a / b");
    assert!(matches!(line.next(), Some(Token::Identifier(_))));
    assert!(matches!(line.next(), Some(Token::Symbol('/'))));
    assert!(matches!(line.next(), Some(Token::Identifier(_))));
    assert!(line.next().is_none());
}

// Comment openers inside a string literal are just characters.
#[test]
fn comment_markers_inside_strings() {
    let mut line = Line::new("let u = \"a//b/*c\";");
    assert!(line.is_ok());
    assert!(matches!(line.next(), Some(Token::Keyword(_))));
    assert!(matches!(line.next(), Some(Token::Identifier(_))));
    assert!(matches!(line.next(), Some(Token::Symbol('='))));
    match line.next() {
        Some(Token::String(v)) => assert_eq!(v, "a//b/*c"),
        _ => panic!("expected the string literal"),
    }
    assert!(matches!(line.next(), Some(Token::Symbol(';'))));
    assert!(line.next().is_none());
}
