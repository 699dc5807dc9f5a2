use hack_toolchain::hack::Hack;
use hack_toolchain::vm::{Command, Operator, Parser, Segment};

#[test]
fn label() {
    let command = Command::Label("LOOP".to_string());
    assert_eq!("\
(LOOP)
".to_string(), Hack::new("Foo.vm").translate(&command).unwrap());
}

#[test]
fn goto() {
    let command = Command::GoTo("LOOP".to_string());
    assert_eq!("\
@LOOP
0;JMP
".to_string(), Hack::new("Foo.vm").translate(&command).unwrap());
}

#[test]
fn if_goto() {
    let command = Command::IfGoTo("LOOP".to_string());
    assert_eq!("\
@SP
A=M-1
D=M
@SP
M=M-1
@LOOP
D;JNE
".to_string(), Hack::new("Foo.vm").translate(&command).unwrap());
}

#[test]
fn push_contant() {
    let command = Command::Push(Segment::Constant, 2);
    assert_eq!("\
@2
D=A
@SP
A=M
M=D
@SP
M=M+1
".to_string(), Hack::new("Foo.vm").translate(&command).unwrap());
}

#[test]
fn push_argument() {
    let command = Command::Push(Segment::Argument, 0);
    assert_eq!("\
@ARG
D=M
@0
A=D+A
D=M
@SP
A=M
M=D
@SP
M=M+1
".to_string(), Hack::new("Foo.vm").translate(&command).unwrap());
}

#[test]
fn push_static() {
    let command = Command::Push(Segment::Static, 3);
    assert_eq!("\
@Foo.3
D=M
@SP
A=M
M=D
@SP
M=M+1
".to_string(), Hack::new("Foo.vm").translate(&command).unwrap());
}

#[test]
fn push_temp() {
    let command = Command::Push(Segment::Temp, 2);
    assert_eq!("\
@5
D=A
@2
A=D+A
D=M
@SP
A=M
M=D
@SP
M=M+1
".to_string(), Hack::new("Foo.vm").translate(&command).unwrap());
}

#[test]
fn push_pointer() {
    let command = Command::Push(Segment::Pointer, 0);
    assert_eq!("\
@THIS
D=M
@SP
A=M
M=D
@SP
M=M+1
".to_string(), Hack::new("Foo.vm").translate(&command).unwrap());
}

#[test]
fn pop_pointer() {
    let command = Command::Pop(Segment::Pointer, 1);
    assert_eq!("\
@SP
AM=M-1
D=M
@THAT
M=D
".to_string(), Hack::new("Foo.vm").translate(&command).unwrap());
}

#[test]
fn pop_temp() {
    let command = Command::Pop(Segment::Temp, 3);
    assert_eq!("\
@5
D=A
@3
D=D+A
@R13
M=D
@SP
AM=M-1
D=M
@R13
A=M
M=D
".to_string(), Hack::new("Foo.vm").translate(&command).unwrap());
}

#[test]
fn pop_local() {
    let command = Command::Pop(Segment::Local, 3);
    assert_eq!("\
@LCL
D=M
@3
D=D+A
@R13
M=D
@SP
AM=M-1
D=M
@R13
A=M
M=D
".to_string(), Hack::new("Foo.vm").translate(&command).unwrap());
}

#[test]
fn pop_static() {
    let command = Command::Pop(Segment::Static, 2);
    assert_eq!("\
@SP
AM=M-1
D=M
@Foo.2
M=D
".to_string(), Hack::new("Foo.vm").translate(&command).unwrap());
}

#[test]
fn add() {
    let command = Command::Arithmetic(Operator::Add);
    assert_eq!("\
@SP
A=M-1
D=M
A=A-1
D=M+D
@SP
A=M-1
A=A-1
M=D
@SP
M=M-1
".to_string(), Hack::new("Foo.vm").translate(&command).unwrap());
}

#[test]
fn sub() {
    let command = Command::Arithmetic(Operator::Sub);
    assert_eq!("\
@SP
A=M-1
D=M
A=A-1
D=M-D
@SP
A=M-1
A=A-1
M=D
@SP
M=M-1
".to_string(), Hack::new("Foo.vm").translate(&command).unwrap());
}

#[test]
fn neg() {
    let command = Command::Arithmetic(Operator::Neg);
    assert_eq!("\
@SP
A=M-1
D=-M
@SP
A=M-1
M=D
".to_string(), Hack::new("Foo.vm").translate(&command).unwrap());
}

#[test]
fn not() {
    let command = Command::Arithmetic(Operator::Not);
    assert_eq!("\
@SP
A=M-1
D=!M
@SP
A=M-1
M=D
".to_string(), Hack::new("Foo.vm").translate(&command).unwrap());
}

#[test]
fn and() {
    let command = Command::Arithmetic(Operator::And);
    assert_eq!("\
@SP
A=M-1
D=M
A=A-1
D=D&M
@SP
A=M-1
A=A-1
M=D
@SP
M=M-1
".to_string(), Hack::new("Foo.vm").translate(&command).unwrap());
}

#[test]
fn or() {
    let command = Command::Arithmetic(Operator::Or);
    assert_eq!("\
@SP
A=M-1
D=M
A=A-1
D=D|M
@SP
A=M-1
A=A-1
M=D
@SP
M=M-1
".to_string(), Hack::new("Foo.vm").translate(&command).unwrap());
}

#[test]
fn eq() {
    let command = Command::Arithmetic(Operator::Eq);
    assert_eq!("\
@SP
M=M-1
A=M
D=M
A=A-1
D=M-D
@FOO_LABEL_0
D;JEQ
@SP
A=M-1
M=0
@FOO_LABEL_0_END
0;JMP
(FOO_LABEL_0)
@SP
A=M-1
M=-1
(FOO_LABEL_0_END)
".to_string(), Hack::new("Foo.vm").translate(&command).unwrap());
}

#[test]
fn gt() {
    let command = Command::Arithmetic(Operator::Gt);
    assert_eq!("\
@SP
M=M-1
A=M
D=M
A=A-1
D=M-D
@FOO_LABEL_0
D;JGT
@SP
A=M-1
M=0
@FOO_LABEL_0_END
0;JMP
(FOO_LABEL_0)
@SP
A=M-1
M=-1
(FOO_LABEL_0_END)
".to_string(), Hack::new("Foo.vm").translate(&command).unwrap());
}

#[test]
fn lt() {
    let command = Command::Arithmetic(Operator::Lt);
    assert_eq!("\
@SP
M=M-1
A=M
D=M
A=A-1
D=M-D
@FOO_LABEL_0
D;JLT
@SP
A=M-1
M=0
@FOO_LABEL_0_END
0;JMP
(FOO_LABEL_0)
@SP
A=M-1
M=-1
(FOO_LABEL_0_END)
".to_string(), Hack::new("Foo.vm").translate(&command).unwrap());
}

// The call site follows the canonical convention: the new ARG is
// computed from SP (SP - 5 - nArgs) after the five frame words are
// pushed.
#[test]
fn call_command() {
    let command = Command::Call("Foo.multiply".to_string(), 2);
    assert_eq!("\
@Foo$ret.0
D=A
@SP
A=M
M=D
@SP
M=M+1
@LCL
D=M
@SP
A=M
M=D
@SP
M=M+1
@ARG
D=M
@SP
A=M
M=D
@SP
M=M+1
@THIS
D=M
@SP
A=M
M=D
@SP
M=M+1
@THAT
D=M
@SP
A=M
M=D
@SP
M=M+1
@SP
D=M
@5
D=D-A
@2
D=D-A
@ARG
M=D
@SP
D=M
@LCL
M=D
@Foo.multiply
0;JMP
(Foo$ret.0)
".to_string(), Hack::new("Foo.vm").translate(&command).unwrap())
}

#[test]
fn function_command() {
    let command = Command::Function("Foo.multiply".to_string(), 2);
    assert_eq!("\
(Foo.multiply)
@SP
A=M
M=0
@SP
M=M+1
@SP
A=M
M=0
@SP
M=M+1
".to_string(), Hack::new("Foo.vm").translate(&command).unwrap())
}

// The return sequence follows the canonical convention: the return
// address is saved in a register before the result moves to *ARG, and
// the final jump goes through that register.
#[test]
fn return_command() {
    let command = Command::Return;
    assert_eq!("\
@LCL
D=M
@endframe
M=D
@5
A=D-A
D=M
@retaddr
M=D
@SP
AM=M-1
D=M
@ARG
A=M
M=D
@ARG
D=M+1
@SP
M=D
@endframe
AM=M-1
D=M
@THAT
M=D
@endframe
AM=M-1
D=M
@THIS
M=D
@endframe
AM=M-1
D=M
@ARG
M=D
@endframe
AM=M-1
D=M
@LCL
M=D
@retaddr
A=M
0;JMP
".to_string(), Hack::new("Foo.vm").translate(&command).unwrap())
}

// Two comparisons in one unit take consecutive counters, so their
// four labels are all distinct.
#[test]
fn comparison_labels_are_fresh() {
    let mut hack = Hack::new("Foo.vm");
    let first = hack.translate(&Command::Arithmetic(Operator::Eq)).unwrap();
    let second = hack.translate(&Command::Arithmetic(Operator::Eq)).unwrap();
    assert!(first.contains("(FOO_LABEL_0)"));
    assert!(first.contains("(FOO_LABEL_0_END)"));
    assert!(second.contains("(FOO_LABEL_1)"));
    assert!(second.contains("(FOO_LABEL_1_END)"));
    assert!(!second.contains("(FOO_LABEL_0)"));
}

// A static reference carries its own file's stem, never another's.
#[test]
fn static_labels_stay_per_file() {
    let out_a = Hack::new("Alpha.vm").translate(&Command::Push(Segment::Static, 1)).unwrap();
    let out_b = Hack::new("Beta.vm").translate(&Command::Push(Segment::Static, 1)).unwrap();
    assert!(out_a.contains("@Alpha.1"));
    assert!(!out_a.contains("Beta"));
    assert!(out_b.contains("@Beta.1"));
    assert!(!out_b.contains("Alpha"));
}

#[test]
fn bootstrap_and_end() {
    let b = Hack::bootstrap();
    assert!(b.starts_with("@256\nD=A\n@SP\nM=D\n@Sys$ret\n"));
    assert!(b.contains("@Sys.init\n0;JMP\n(Sys$ret)\n"));
    assert_eq!(Hack::end(), "(END)\n@END\n0;JMP\n");
}

// Pushing and adding two constants, as a whole-file translation.
#[test]
fn push_add_program() {
    let lines: Vec<String> = ["push constant 7", "push constant 8", "add"]
        .iter()
        .map(|s| s.to_string())
        .collect();
    let mut parser = Parser::new(lines);
    let mut hack = Hack::new("Test.vm");
    let mut out = String::new();
    while let Some(command) = parser.next() {
        if let Some(assembly) = hack.translate(&command) {
            out.push_str(&assembly);
        }
    }
    let expected = "\
@7\nD=A\n@SP\nA=M\nM=D\n@SP\nM=M+1\n\
@8\nD=A\n@SP\nA=M\nM=D\n@SP\nM=M+1\n\
@SP\nA=M-1\nD=M\nA=A-1\nD=M+D\n@SP\nA=M-1\nA=A-1\nM=D\n@SP\nM=M-1\n";
    assert_eq!(out, expected);
}
