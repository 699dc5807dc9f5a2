use hack_toolchain::codegen::VM;

fn compile(content: &str) -> String {
    let lines: Vec<String> = content.lines().map(|s| s.to_string()).collect();
    VM::compile(lines).unwrap()
}

// An arithmetic expression compiles left to right with no precedence;
// the parenthesized product compiles first only because it is nested.
#[test]
fn function_with_call_and_product() {
    let out = compile(
        "\
        class Main {
            function void main() {
                do Output.printInt(1 + (2 * 3));
                return;
            }
        }",
    );
    let expected = "\
function Main.main 0
push constant 1
push constant 2
push constant 3
call Math.multiply 2
add
call Output.printInt 1
pop temp 0
push constant 0
return
";
    assert_eq!(out, expected);
}

// A method installs `this` from argument 0 and reads fields through
// the `this` segment.
#[test]
fn method_reads_a_field() {
    let out = compile(
        "\
        class P {
            field int value;
            method int age() {
                return value;
            }
        }",
    );
    let expected = "\
function P.age 0
push argument 0
pop pointer 0
push this 0
return
";
    assert_eq!(out, expected);
}

// A constructor allocates one slot per field and installs the fresh
// object as `this` before its statements run.
#[test]
fn constructor_allocates_and_returns_this() {
    let out = compile(
        "\
        class P {
            field int x;
            constructor P new() {
                let x = 42;
                return this;
            }
        }",
    );
    let expected = "\
function P.new 0
push constant 1
call Memory.alloc 1
pop pointer 0
push constant 42
pop this 0
push pointer 0
return
";
    assert_eq!(out, expected);
}

// A while loop tests at the top, branches out on the negated
// condition, and loops back; its two labels are freshly minted.
#[test]
fn while_loop_labels() {
    let out = compile(
        "\
        class Main {
            function void run(int i, int n) {
                while (i < n) {
                    let i = i + 1;
                }
                return;
            }
        }",
    );
    let expected = "\
function Main.run 0
label MAIN_0
push argument 0
push argument 1
lt
not
if-goto MAIN_1
push argument 0
push constant 1
add
pop argument 0
goto MAIN_0
label MAIN_1
push constant 0
return
";
    assert_eq!(out, expected);
}

// An if with an else uses two labels; the else branch sits between
// them.
#[test]
fn if_else_labels() {
    let out = compile(
        "\
        class Main {
            function int pick(boolean b) {
                if (b) {
                    return 1;
                } else {
                    return 2;
                }
            }
        }",
    );
    let expected = "\
function Main.pick 0
push argument 0
not
if-goto MAIN_0
push constant 1
return
goto MAIN_1
label MAIN_0
push constant 2
return
label MAIN_1
";
    assert_eq!(out, expected);
}

// A string literal allocates, then appends one character at a time
// with its table code.
#[test]
fn string_literal_materializes() {
    let out = compile(
        "\
        class Main {
            function void greet() {
                do Output.printString(\"Hi!\");
                return;
            }
        }",
    );
    let expected = "\
function Main.greet 0
push constant 3
call String.new 1
push constant 72
call String.appendChar 2
push constant 105
call String.appendChar 2
push constant 33
call String.appendChar 2
call Output.printString 1
pop temp 0
push constant 0
return
";
    assert_eq!(out, expected);
}

// A qualified call on a known object variable is a method call: the
// receiver is pushed first and the arity grows by one.
#[test]
fn method_call_through_variable() {
    let out = compile(
        "\
        class Main {
            function int use(Point p) {
                return p.getx();
            }
        }",
    );
    let expected = "\
function Main.use 0
push argument 0
call Point.getx 1
return
";
    assert_eq!(out, expected);
}

// Locals count every declared name; array stores go through the
// indirect idiom with temp 0 and pointer 1.
#[test]
fn indexed_store_uses_the_holding_slot() {
    let out = compile(
        "\
        class Main {
            function void fill(Array a) {
                var int i, j;
                let a[1] = 5;
                return;
            }
        }",
    );
    let expected = "\
function Main.fill 2
push argument 0
push constant 1
add
push constant 5
pop temp 0
pop pointer 1
push temp 0
pop that 0
push constant 0
return
";
    assert_eq!(out, expected);
}

// An unresolved variable reference is a resolution error and fails
// the compilation.
#[test]
fn unresolved_variable_fails() {
    let lines: Vec<String> = "\
        class Main {
            function void f() {
                let ghostly = 1;
                return;
            }
        }"
    .lines()
    .map(|s| s.to_string())
    .collect();
    assert!(VM::compile(lines).is_none());
}

#[test]
fn vm_line_builders() {
    assert_eq!(VM::push("constant", 7), "push constant 7\n");
    assert_eq!(VM::pop("local", 2), "pop local 2\n");
    assert_eq!(VM::op("add"), "add\n");
    assert_eq!(VM::call("Math.multiply", 2), "call Math.multiply 2\n");
    assert_eq!(VM::label("L1"), "label L1\n");
    assert_eq!(VM::goto("L1"), "goto L1\n");
    assert_eq!(VM::ifgoto("L1"), "if-goto L1\n");
    assert_eq!(VM::function("Main.main", 3), "function Main.main 3\n");
    assert_eq!(
        VM::build(vec!["a\n".to_string(), "b\n".to_string(), "c\n".to_string()]),
        "a\nb\nc\n"
    );
}

#[test]
fn empty_class_compiles_to_nothing() {
    let lines: Vec<String> = vec!["class Main { }".to_string()];
    assert_eq!(VM::compile(lines).unwrap(), "");
}

#[test]
fn trailing_garbage_fails() {
    let lines: Vec<String> = vec!["class Main { } class".to_string()];
    assert!(VM::compile(lines).is_none());
}
