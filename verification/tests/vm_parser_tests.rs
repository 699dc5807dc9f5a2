use hack_toolchain::vm::{line_to_command, Command, Config, Operator, Parser, Segment, Source};

#[test]
fn arithmetic_line_to_command() {
    let command = line_to_command("add").unwrap();
    match command {
        Command::Arithmetic(Operator::Add) => {},
        _ => panic!("error parsing `add`!"),
    }

    let command = line_to_command("or").unwrap();
    match command {
        Command::Arithmetic(Operator::Or) => {},
        _ => panic!("error parsing `or`!"),
    }
}

#[test]
fn push_line_to_command() {
    let line = "push constant 1";
    let command = line_to_command(line).unwrap();
    match command {
        Command::Push(Segment::Constant, 1) => {},
        _ => panic!("error parsing `{}`", line),
    }
}

#[test]
fn pop_line_to_command() {
    let line = "pop local 2";
    let command = line_to_command(line).unwrap();
    match command {
        Command::Pop(Segment::Local, 2) => {},
        _ => panic!("error parsing `{}`", line),
    }
}

#[test]
fn basic_parser() {
    let content = "\
// Pushes and adds two constants.

push constant 7
push constant 8
add";
    let lines: Vec<String> = content.lines().map(|s| s.to_string()).collect();
    let mut parser = Parser::new(lines);

    match parser.next().unwrap() {
        Command::Push(Segment::Constant, 7) => {},
        _ => panic!("error parsing `push constant 7`"),
    }

    match parser.next().unwrap() {
        Command::Push(Segment::Constant, 8) => {},
        _ => panic!("error parsing `push constant 8`"),
    }

    match parser.next().unwrap() {
        Command::Arithmetic(Operator::Add) => {},
        _ => panic!("error parsing `add`"),
    }

    assert!(parser.next().is_none());
}

#[test]
fn command_display() {
    let command = Command::Arithmetic(Operator::Add);
    assert_eq!("add".to_string(), command.to_string());

    let command = Command::Push(Segment::Argument, 3);
    assert_eq!("push argument 3".to_string(), command.to_string());

    let command = Command::Pop(Segment::Local, 2);
    assert_eq!("pop local 2".to_string(), command.to_string());
}

#[test]
fn branching_and_function_lines() {
    match line_to_command("label LOOP").unwrap() {
        Command::Label(l) => assert_eq!(l, "LOOP"),
        _ => panic!("error parsing `label LOOP`"),
    }
    match line_to_command("goto END").unwrap() {
        Command::GoTo(l) => assert_eq!(l, "END"),
        _ => panic!("error parsing `goto END`"),
    }
    match line_to_command("if-goto LOOP").unwrap() {
        Command::IfGoTo(l) => assert_eq!(l, "LOOP"),
        _ => panic!("error parsing `if-goto LOOP`"),
    }
    match line_to_command("call Sys.init 0").unwrap() {
        Command::Call(f, 0) => assert_eq!(f, "Sys.init"),
        _ => panic!("error parsing `call Sys.init 0`"),
    }
    match line_to_command("function Foo.bar 2").unwrap() {
        Command::Function(f, 2) => assert_eq!(f, "Foo.bar"),
        _ => panic!("error parsing `function Foo.bar 2`"),
    }
    match line_to_command("return").unwrap() {
        Command::Return => {},
        _ => panic!("error parsing `return`"),
    }
    assert!(line_to_command("push constant").is_none());
    assert!(line_to_command("push nowhere 3").is_none());
    assert!(line_to_command("push constant 99999").is_none());
}

#[test]
fn file_source() {
    let args = vec!["app".to_string(), "../myfolder/test.vm".to_string()];
    let config = Config::new(args).unwrap();
    match config.source {
        Source::File(filename) if filename == "../myfolder/test.vm".to_string() => {},
        _ => panic!("Fail to parse the file input source!"),
    }
    match config.destination {
        value if value == "../myfolder/test.asm".to_string() => {},
        _ => panic!("Fail to parse the file destination source!"),
    }
}

#[test]
fn directory_source() {
    let args = vec!["app".to_string(), "../myfolder/".to_string()];
    let config = Config::new(args).unwrap();
    match config.source {
        Source::Directory(path) if path == "../myfolder/".to_string() => {},
        _ => panic!("Fail to parse the directory input source!"),
    }
    match config.destination {
        value if value == "../myfolder/myfolder.asm".to_string() => {},
        _ => panic!("Fail to parse the directory destination source!"),
    }
}

#[test]
fn invalid_source() {
    let args = vec!["app".to_string(), "notes.txt".to_string()];
    match Config::new(args) {
        Err(m) => assert_eq!(m, "Invalid source"),
        Ok(_) => panic!("a plain file name is no source"),
    }
    match Config::new(vec!["app".to_string()]) {
        Err(m) => assert_eq!(m, "missing filename"),
        Ok(_) => panic!("a missing argument is no source"),
    }
}
