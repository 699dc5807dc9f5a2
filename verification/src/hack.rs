//! The VM-to-assembly translator for the Hack machine: stack
//! arithmetic, the eight memory segments, branching, and the full
//! calling convention with its five-word frame.

use vstd::prelude::*;
use vstd::string::StrSliceExecFns;
use vstd::string::StringExecFns;
use crate::text;
use crate::vm::{Command, CommandView, Operator, Segment};

verus! {

broadcast use vstd::string::group_string_axioms;

/// The instructions that push D onto the stack.
pub open spec fn spec_stack_push() -> Seq<char> {
    "@SP\nA=M\nM=D\n@SP\nM=M+1"@
}

/// The instructions that pop the stack top into D.
pub open spec fn spec_stack_pop() -> Seq<char> {
    "@SP\nAM=M-1\nD=M"@
}

pub open spec fn spec_push_constant(v: int) -> Seq<char> {
    "@"@ + text::spec_dec_int(v) + "\nD=A\n"@ + spec_stack_push() + "\n"@
}

pub open spec fn spec_push_segment(base: Seq<char>, i: int) -> Seq<char> {
    "@"@ + base + "\nD=M\n@"@ + text::spec_dec_int(i) + "\nA=D+A\nD=M\n"@ + spec_stack_push()
        + "\n"@
}

pub open spec fn spec_push_temp(i: int) -> Seq<char> {
    "@5\nD=A\n@"@ + text::spec_dec_int(i) + "\nA=D+A\nD=M\n"@ + spec_stack_push() + "\n"@
}

pub open spec fn spec_push_static(variable: Seq<char>) -> Seq<char> {
    "@"@ + variable + "\nD=M\n"@ + spec_stack_push() + "\n"@
}

pub open spec fn spec_push_pointer(v: int) -> Seq<char> {
    if v == 0 {
        "@THIS\nD=M\n"@ + spec_stack_push() + "\n"@
    } else {
        "@THAT\nD=M\n"@ + spec_stack_push() + "\n"@
    }
}

pub open spec fn spec_pop_pointer(v: int) -> Seq<char> {
    if v == 0 {
        spec_stack_pop() + "\n@THIS\nM=D\n"@
    } else {
        spec_stack_pop() + "\n@THAT\nM=D\n"@
    }
}

pub open spec fn spec_pop_temp(i: int) -> Seq<char> {
    "@5\nD=A\n@"@ + text::spec_dec_int(i) + "\nD=D+A\n@R13\nM=D\n"@ + spec_stack_pop()
        + "\n@R13\nA=M\nM=D\n"@
}

pub open spec fn spec_pop_segment(base: Seq<char>, i: int) -> Seq<char> {
    "@"@ + base + "\nD=M\n@"@ + text::spec_dec_int(i) + "\nD=D+A\n@R13\nM=D\n"@
        + spec_stack_pop() + "\n@R13\nA=M\nM=D\n"@
}

pub open spec fn spec_pop_static(variable: Seq<char>) -> Seq<char> {
    spec_stack_pop() + "\n@"@ + variable + "\nM=D\n"@
}

/// A binary stack operation: `comp` computes over M (x) and D (y).
pub open spec fn spec_binary(comp: Seq<char>) -> Seq<char> {
    "@SP\nA=M-1\nD=M\nA=A-1\nD="@ + comp + "\n@SP\nA=M-1\nA=A-1\nM=D\n@SP\nM=M-1\n"@
}

/// A unary stack operation in place at the top.
pub open spec fn spec_unary(comp: Seq<char>) -> Seq<char> {
    "@SP\nA=M-1\nD="@ + comp + "\n@SP\nA=M-1\nM=D\n"@
}

/// The branch label a comparison with counter `k` uses.
pub open spec fn spec_comp_label(prefix: Seq<char>, k: int) -> Seq<char> {
    prefix + "_"@ + text::spec_dec_int(k)
}

/// The rejoin label of the same comparison.
pub open spec fn spec_comp_end_label(prefix: Seq<char>, k: int) -> Seq<char> {
    spec_comp_label(prefix, k) + "_END"@
}

/// A comparison: x - y, a conditional jump, and a pushed -1 or 0.
pub open spec fn spec_comparison(prefix: Seq<char>, k: int, jump: Seq<char>) -> Seq<char> {
    "@SP\nM=M-1\nA=M\nD=M\nA=A-1\nD=M-D\n@"@ + spec_comp_label(prefix, k) + "\nD;"@ + jump
        + "\n@SP\nA=M-1\nM=0\n@"@ + spec_comp_label(prefix, k) + "_END\n0;JMP\n("@
        + spec_comp_label(prefix, k) + ")\n@SP\nA=M-1\nM=-1\n("@ + spec_comp_label(prefix, k)
        + "_END)\n"@
}

pub open spec fn spec_label_cmd(l: Seq<char>) -> Seq<char> {
    "("@ + l + ")\n"@
}

pub open spec fn spec_goto(l: Seq<char>) -> Seq<char> {
    "@"@ + l + "\n0;JMP\n"@
}

pub open spec fn spec_if_goto(l: Seq<char>) -> Seq<char> {
    "@SP\nA=M-1\nD=M\n@SP\nM=M-1\n@"@ + l + "\nD;JNE\n"@
}

/// Pushes the value of a register (its M) onto the stack.
pub open spec fn spec_push_register(r: Seq<char>) -> Seq<char> {
    "@"@ + r + "\nD=M\n@SP\nA=M\nM=D\n@SP\nM=M+1\n"@
}

/// Pushes the address a label stands for onto the stack.
pub open spec fn spec_push_label_value(l: Seq<char>) -> Seq<char> {
    "@"@ + l + "\nD=A\n@SP\nA=M\nM=D\n@SP\nM=M+1\n"@
}

/// The four registers a call saves after the return address, in the
/// order they are pushed.
pub open spec fn spec_saved_registers() -> Seq<Seq<char>> {
    seq!["LCL"@, "ARG"@, "THIS"@, "THAT"@]
}

/// The registers the return sequence restores, in restore order.
pub open spec fn spec_restored_registers() -> Seq<Seq<char>> {
    seq!["THAT"@, "THIS"@, "ARG"@, "LCL"@]
}

/// The return label a call with counter `k` mints.
pub open spec fn spec_ret_label(stem: Seq<char>, k: int) -> Seq<char> {
    stem + "$ret."@ + text::spec_dec_int(k)
}

/// A call site: push the return address and the four frame registers
/// (five words in all), rebase ARG to SP - 5 - n, set LCL, jump, and
/// place the return label.
pub open spec fn spec_call(ret: Seq<char>, f: Seq<char>, n: int) -> Seq<char> {
    spec_push_label_value(ret) + spec_push_register(spec_saved_registers()[0])
        + spec_push_register(spec_saved_registers()[1])
        + spec_push_register(spec_saved_registers()[2])
        + spec_push_register(spec_saved_registers()[3]) + "@SP\nD=M\n@5\nD=D-A\n@"@
        + text::spec_dec_int(n) + "\nD=D-A\n@ARG\nM=D\n@SP\nD=M\n@LCL\nM=D\n@"@ + f
        + "\n0;JMP\n("@ + ret + ")\n"@
}

/// `k` zero-initialized local slots.
pub open spec fn spec_local_init(k: int) -> Seq<char>
    decreases k,
{
    if k <= 0 {
        Seq::empty()
    } else {
        spec_local_init(k - 1) + "@SP\nA=M\nM=0\n@SP\nM=M+1\n"@
    }
}

/// A function entry: its label, then its zeroed locals.
pub open spec fn spec_function_cmd(f: Seq<char>, k: int) -> Seq<char> {
    "("@ + f + ")\n"@ + spec_local_init(k)
}

/// Restores one register from the walked-down frame pointer.
pub open spec fn spec_restore(r: Seq<char>) -> Seq<char> {
    "@endframe\nAM=M-1\nD=M\n@"@ + r + "\nM=D\n"@
}

/// The return sequence: save the frame end and return address, move
/// the result to ARG, rebase SP, restore the four frame registers in
/// the reverse of the order the call saved them, and jump back.
pub open spec fn spec_return() -> Seq<char> {
    "@LCL\nD=M\n@endframe\nM=D\n@5\nA=D-A\nD=M\n@retaddr\nM=D\n"@ + spec_stack_pop()
        + "\n@ARG\nA=M\nM=D\n@ARG\nD=M+1\n@SP\nM=D\n"@
        + spec_restore(spec_restored_registers()[0]) + spec_restore(spec_restored_registers()[1])
        + spec_restore(spec_restored_registers()[2]) + spec_restore(spec_restored_registers()[3])
        + "@retaddr\nA=M\n0;JMP\n"@
}

/// The static-segment variable of one translation unit.
pub open spec fn spec_static_var(stem: Seq<char>, i: int) -> Seq<char> {
    stem + "."@ + text::spec_dec_int(i)
}

/// Whether the translator accepts the command: the pointer segment has
/// exactly the two slots 0 and 1.
pub open spec fn spec_command_ok(c: CommandView) -> bool {
    match c {
        CommandView::Push(Segment::Pointer, v) => v == 0 || v == 1,
        CommandView::Pop(Segment::Pointer, v) => v == 0 || v == 1,
        _ => true,
    }
}

pub open spec fn spec_is_comparison(c: CommandView) -> bool {
    match c {
        CommandView::Arithmetic(op) => op == Operator::Eq || op == Operator::Lt
            || op == Operator::Gt,
        _ => false,
    }
}

/// The translator state: the file stem that namespaces statics, the
/// label prefix and counter for comparisons, and the call counter for
/// return labels.
pub struct HackView {
    pub static_identifier: Seq<char>,
    pub label_prefix: Seq<char>,
    pub counter: int,
    pub func_counter: int,
}

/// The assembly one command translates to in state `h`; a pop of the
/// constant segment has no meaning and yields nothing.
pub open spec fn spec_translate(h: HackView, c: CommandView) -> Option<Seq<char>> {
    match c {
        CommandView::Push(seg, v) => match seg {
            Segment::Constant => Some(spec_push_constant(v as int)),
            Segment::Local => Some(spec_push_segment("LCL"@, v as int)),
            Segment::Argument => Some(spec_push_segment("ARG"@, v as int)),
            Segment::This => Some(spec_push_segment("THIS"@, v as int)),
            Segment::That => Some(spec_push_segment("THAT"@, v as int)),
            Segment::Static => Some(spec_push_static(spec_static_var(h.static_identifier, v as int))),
            Segment::Temp => Some(spec_push_temp(v as int)),
            Segment::Pointer => Some(spec_push_pointer(v as int)),
        },
        CommandView::Pop(seg, v) => match seg {
            Segment::Local => Some(spec_pop_segment("LCL"@, v as int)),
            Segment::Argument => Some(spec_pop_segment("ARG"@, v as int)),
            Segment::This => Some(spec_pop_segment("THIS"@, v as int)),
            Segment::That => Some(spec_pop_segment("THAT"@, v as int)),
            Segment::Static => Some(spec_pop_static(spec_static_var(h.static_identifier, v as int))),
            Segment::Temp => Some(spec_pop_temp(v as int)),
            Segment::Pointer => Some(spec_pop_pointer(v as int)),
            Segment::Constant => None,
        },
        CommandView::Arithmetic(op) => match op {
            Operator::Add => Some(spec_binary("M+D"@)),
            Operator::Sub => Some(spec_binary("M-D"@)),
            Operator::And => Some(spec_binary("D&M"@)),
            Operator::Or => Some(spec_binary("D|M"@)),
            Operator::Neg => Some(spec_unary("-M"@)),
            Operator::Not => Some(spec_unary("!M"@)),
            Operator::Eq => Some(spec_comparison(h.label_prefix, h.counter, "JEQ"@)),
            Operator::Lt => Some(spec_comparison(h.label_prefix, h.counter, "JLT"@)),
            Operator::Gt => Some(spec_comparison(h.label_prefix, h.counter, "JGT"@)),
        },
        CommandView::Label(l) => Some(spec_label_cmd(l)),
        CommandView::GoTo(l) => Some(spec_goto(l)),
        CommandView::IfGoTo(l) => Some(spec_if_goto(l)),
        CommandView::Call(f, n) => Some(spec_call(
            spec_ret_label(h.static_identifier, h.func_counter),
            f,
            n as int,
        )),
        CommandView::Function(f, k) => Some(spec_function_cmd(f, k as int)),
        CommandView::Return => Some(spec_return()),
    }
}

/// One translator instance per input file.
pub struct Hack {
    static_identifier: String,
    label_prefix: String,
    counter: i16,
    func_counter: i16,
}

impl View for Hack {
    type V = HackView;

    closed spec fn view(&self) -> HackView {
        HackView {
            static_identifier: self.static_identifier@,
            label_prefix: self.label_prefix@,
            counter: self.counter as int,
            func_counter: self.func_counter as int,
        }
    }
}

/// The file stem of a `.vm` path: its last component without the
/// extension.
pub open spec fn spec_stem(filename: Seq<char>) -> Seq<char> {
    let lc = text::spec_last_component(filename);
    lc.subrange(0, lc.len() - 3)
}

impl Hack {
    /// Starts a translator for one file: the stem of the file name
    /// namespaces its statics, and its upper-cased form prefixes the
    /// comparison labels.
    pub fn new(filename: &str) -> (r: Hack)
        requires
            filename@.len() >= 3,
            filename@.subrange(filename@.len() - 3, filename@.len() as int) == ".vm"@,
        ensures
            r@.static_identifier == spec_stem(filename@),
            r@.label_prefix == text::spec_to_upper(spec_stem(filename@)) + "_LABEL"@,
            r@.counter == 0,
            r@.func_counter == 0,
    {
        proof {
            reveal_strlit(".vm");
            let f = filename@;
            assert(f[f.len() - 3] == f.subrange(f.len() - 3, f.len() as int)[0]);
            assert(f[f.len() - 2] == f.subrange(f.len() - 3, f.len() as int)[1]);
            assert(f[f.len() - 1] == f.subrange(f.len() - 3, f.len() as int)[2]);
            text::lemma_rfind_char_found(f, '/');
        }
        let lc = text::last_component(filename);
        let lclen = lc.unicode_len();
        proof {
            let f = filename@;
            match text::spec_rfind_char(f, '/') {
                Some(p) => {
                    assert(f[p] == '/');
                    assert(p < f.len() - 3);
                    assert(lc@[lc@.len() - 3] == f[f.len() - 3]);
                    assert(lc@[lc@.len() - 2] == f[f.len() - 2]);
                    assert(lc@[lc@.len() - 1] == f[f.len() - 1]);
                },
                None => {},
            }
        }
        let stem = lc.substring_char(0, lclen - 3).to_owned();
        let upper = text::to_upper(stem.as_str());
        let mut label_prefix = upper;
        label_prefix.append("_LABEL");
        Hack {
            static_identifier: stem,
            label_prefix,
            counter: 0,
            func_counter: 0,
        }
    }

    /// The bootstrap a multi-file program starts with: SP set to 256,
    /// then a call of Sys.init with no arguments.
    pub fn bootstrap() -> (r: String)
        ensures
            r@ == "@256\nD=A\n@SP\nM=D\n"@ + spec_call("Sys$ret"@, "Sys.init"@, 0),
    {
        let mut r = String::from_str("@256\nD=A\n@SP\nM=D\n");
        let call = translate_call("Sys$ret", "Sys.init", 0);
        r.append(call.as_str());
        r
    }

    /// The closing loop that halts the machine.
    pub fn end() -> (r: String)
        ensures
            r@ == "(END)\n@END\n0;JMP\n"@,
    {
        "(END)\n@END\n0;JMP\n".to_owned()
    }

    /// Translates one command, advancing the label counter on a
    /// comparison and the call counter on a call. A pop of the
    /// constant segment yields nothing.
    pub fn translate(&mut self, command: &Command) -> (r: Option<String>)
        requires
            0 <= old(self)@.counter < 32767,
            0 <= old(self)@.func_counter < 32767,
            spec_command_ok(command@),
        ensures
            final(self)@.static_identifier == old(self)@.static_identifier,
            final(self)@.label_prefix == old(self)@.label_prefix,
            final(self)@.counter == old(self)@.counter
                + (if spec_is_comparison(command@) { 1int } else { 0int }),
            final(self)@.func_counter == old(self)@.func_counter
                + (if command@ is Call { 1int } else { 0int }),
            match r {
                Some(s) => spec_translate(old(self)@, command@) == Some(s@),
                None => spec_translate(old(self)@, command@) is None,
            },
    {
        match command {
            Command::Push(segment, value) => {
                match segment {
                    Segment::Constant => Some(push_contant(*value)),
                    Segment::Local => Some(push_segment("LCL", *value)),
                    Segment::Argument => Some(push_segment("ARG", *value)),
                    Segment::This => Some(push_segment("THIS", *value)),
                    Segment::That => Some(push_segment("THAT", *value)),
                    Segment::Static => {
                        let variable = self.static_variable(*value);
                        Some(push_static(variable.as_str()))
                    },
                    Segment::Temp => Some(push_temp(*value)),
                    Segment::Pointer => Some(push_pointer(*value)),
                }
            },
            Command::Pop(segment, value) => {
                match segment {
                    Segment::Local => Some(pop_segment("LCL", *value)),
                    Segment::Argument => Some(pop_segment("ARG", *value)),
                    Segment::This => Some(pop_segment("THIS", *value)),
                    Segment::That => Some(pop_segment("THAT", *value)),
                    Segment::Static => {
                        let variable = self.static_variable(*value);
                        Some(pop_static(variable.as_str()))
                    },
                    Segment::Temp => Some(pop_temp(*value)),
                    Segment::Pointer => Some(pop_pointer(*value)),
                    Segment::Constant => None,
                }
            },
            Command::Arithmetic(operator) => {
                match operator {
                    Operator::Add => Some(comp_x_and_y("M+D")),
                    Operator::Sub => Some(comp_x_and_y("M-D")),
                    Operator::And => Some(comp_x_and_y("D&M")),
                    Operator::Or => Some(comp_x_and_y("D|M")),
                    Operator::Neg => Some(comp_y("-M")),
                    Operator::Not => Some(comp_y("!M")),
                    Operator::Eq => {
                        let counter = self.counter;
                        self.counter = self.counter + 1;
                        Some(comp_logic(counter, self.label_prefix.as_str(), "JEQ"))
                    },
                    Operator::Lt => {
                        let counter = self.counter;
                        self.counter = self.counter + 1;
                        Some(comp_logic(counter, self.label_prefix.as_str(), "JLT"))
                    },
                    Operator::Gt => {
                        let counter = self.counter;
                        self.counter = self.counter + 1;
                        Some(comp_logic(counter, self.label_prefix.as_str(), "JGT"))
                    },
                }
            },
            Command::Label(label) => {
                let mut r = String::from_str("(");
                r.append(label.as_str());
                r.append(")\n");
                Some(r)
            },
            Command::GoTo(label) => {
                let mut r = String::from_str("@");
                r.append(label.as_str());
                r.append("\n0;JMP\n");
                Some(r)
            },
            Command::IfGoTo(label) => {
                let mut r = String::from_str("@SP\nA=M-1\nD=M\n@SP\nM=M-1\n@");
                r.append(label.as_str());
                r.append("\nD;JNE\n");
                Some(r)
            },
            Command::Call(name, n_args) => {
                let mut return_label = self.static_identifier.clone();
                return_label.append("$ret.");
                text::push_dec_i16(self.func_counter, &mut return_label);
                self.func_counter = self.func_counter + 1;
                Some(translate_call(return_label.as_str(), name.as_str(), *n_args))
            },
            Command::Function(name, n_vars) => Some(translate_function(name.as_str(), *n_vars)),
            Command::Return => Some(translate_return()),
        }
    }

    /// The static-segment variable of this unit with the given index.
    fn static_variable(&self, value: i16) -> (r: String)
        ensures
            r@ == spec_static_var(self@.static_identifier, value as int),
    {
        let mut variable = self.static_identifier.clone();
        variable.append(".");
        text::push_dec_i16(value, &mut variable);
        variable
    }
}

fn translate_call(return_label: &str, func_label: &str, n_args: i16) -> (r: String)
    ensures
        r@ == spec_call(return_label@, func_label@, n_args as int),
{
    let mut r = String::from_str("@");
    r.append(return_label);
    r.append("\nD=A\n@SP\nA=M\nM=D\n@SP\nM=M+1\n");
    r.append("@");
    r.append("LCL");
    r.append("\nD=M\n@SP\nA=M\nM=D\n@SP\nM=M+1\n");
    r.append("@");
    r.append("ARG");
    r.append("\nD=M\n@SP\nA=M\nM=D\n@SP\nM=M+1\n");
    r.append("@");
    r.append("THIS");
    r.append("\nD=M\n@SP\nA=M\nM=D\n@SP\nM=M+1\n");
    r.append("@");
    r.append("THAT");
    r.append("\nD=M\n@SP\nA=M\nM=D\n@SP\nM=M+1\n");
    r.append("@SP\nD=M\n@5\nD=D-A\n@");
    text::push_dec_i16(n_args, &mut r);
    r.append("\nD=D-A\n@ARG\nM=D\n@SP\nD=M\n@LCL\nM=D\n@");
    r.append(func_label);
    r.append("\n0;JMP\n(");
    r.append(return_label);
    r.append(")\n");
    proof {
        assert(r@ =~= spec_call(return_label@, func_label@, n_args as int));
    }
    r
}

fn translate_function(func_label: &str, n_vars: i16) -> (r: String)
    ensures
        r@ == spec_function_cmd(func_label@, n_vars as int),
{
    let mut assembly = String::from_str("(");
    assembly.append(func_label);
    assembly.append(")\n");
    let mut k: i16 = 0;
    while k < n_vars
        invariant
            0 <= k,
            k <= n_vars || k == 0,
            assembly@ == "("@ + func_label@ + ")\n"@ + spec_local_init(k as int),
        decreases n_vars - k,
    {
        assembly.append("@SP\nA=M\nM=0\n@SP\nM=M+1\n");
        k = k + 1;
        proof {
            assert(assembly@ =~= "("@ + func_label@ + ")\n"@ + spec_local_init(k as int));
        }
    }
    proof {
        if n_vars <= 0 {
            assert(spec_local_init(n_vars as int) == Seq::<char>::empty());
            assert(assembly@ =~= spec_function_cmd(func_label@, n_vars as int));
        }
    }
    assembly
}

fn translate_return() -> (r: String)
    ensures
        r@ == spec_return(),
{
    let mut r = String::from_str("@LCL\nD=M\n@endframe\nM=D\n@5\nA=D-A\nD=M\n@retaddr\nM=D\n");
    r.append("@SP\nAM=M-1\nD=M");
    r.append("\n@ARG\nA=M\nM=D\n@ARG\nD=M+1\n@SP\nM=D\n");
    r.append("@endframe\nAM=M-1\nD=M\n@");
    r.append("THAT");
    r.append("\nM=D\n");
    r.append("@endframe\nAM=M-1\nD=M\n@");
    r.append("THIS");
    r.append("\nM=D\n");
    r.append("@endframe\nAM=M-1\nD=M\n@");
    r.append("ARG");
    r.append("\nM=D\n");
    r.append("@endframe\nAM=M-1\nD=M\n@");
    r.append("LCL");
    r.append("\nM=D\n");
    r.append("@retaddr\nA=M\n0;JMP\n");
    proof {
        assert(r@ =~= spec_return());
    }
    r
}

fn comp_x_and_y(expression: &str) -> (r: String)
    ensures
        r@ == spec_binary(expression@),
{
    let mut r = String::from_str("@SP\nA=M-1\nD=M\nA=A-1\nD=");
    r.append(expression);
    r.append("\n@SP\nA=M-1\nA=A-1\nM=D\n@SP\nM=M-1\n");
    r
}

fn comp_y(expression: &str) -> (r: String)
    ensures
        r@ == spec_unary(expression@),
{
    let mut r = String::from_str("@SP\nA=M-1\nD=");
    r.append(expression);
    r.append("\n@SP\nA=M-1\nM=D\n");
    r
}

fn comp_logic(counter: i16, label_prefix: &str, jump: &str) -> (r: String)
    ensures
        r@ == spec_comparison(label_prefix@, counter as int, jump@),
{
    let mut label = label_prefix.to_owned();
    label.append("_");
    text::push_dec_i16(counter, &mut label);
    let mut r = String::from_str("@SP\nM=M-1\nA=M\nD=M\nA=A-1\nD=M-D\n@");
    r.append(label.as_str());
    r.append("\nD;");
    r.append(jump);
    r.append("\n@SP\nA=M-1\nM=0\n@");
    r.append(label.as_str());
    r.append("_END\n0;JMP\n(");
    r.append(label.as_str());
    r.append(")\n@SP\nA=M-1\nM=-1\n(");
    r.append(label.as_str());
    r.append("_END)\n");
    proof {
        assert(r@ =~= spec_comparison(label_prefix@, counter as int, jump@));
    }
    r
}

fn push_contant(value: i16) -> (r: String)
    ensures
        r@ == spec_push_constant(value as int),
{
    let mut r = String::from_str("@");
    text::push_dec_i16(value, &mut r);
    r.append("\nD=A\n");
    r.append("@SP\nA=M\nM=D\n@SP\nM=M+1");
    r.append("\n");
    r
}

fn push_segment(segment_base: &str, index: i16) -> (r: String)
    ensures
        r@ == spec_push_segment(segment_base@, index as int),
{
    let mut r = String::from_str("@");
    r.append(segment_base);
    r.append("\nD=M\n@");
    text::push_dec_i16(index, &mut r);
    r.append("\nA=D+A\nD=M\n");
    r.append("@SP\nA=M\nM=D\n@SP\nM=M+1");
    r.append("\n");
    r
}

fn push_temp(index: i16) -> (r: String)
    ensures
        r@ == spec_push_temp(index as int),
{
    let mut r = String::from_str("@5\nD=A\n@");
    text::push_dec_i16(index, &mut r);
    r.append("\nA=D+A\nD=M\n");
    r.append("@SP\nA=M\nM=D\n@SP\nM=M+1");
    r.append("\n");
    r
}

fn push_static(variable: &str) -> (r: String)
    ensures
        r@ == spec_push_static(variable@),
{
    let mut r = String::from_str("@");
    r.append(variable);
    r.append("\nD=M\n");
    r.append("@SP\nA=M\nM=D\n@SP\nM=M+1");
    r.append("\n");
    r
}

fn push_pointer(value: i16) -> (r: String)
    requires
        value == 0 || value == 1,
    ensures
        r@ == spec_push_pointer(value as int),
{
    let mut r = if value == 0 {
        String::from_str("@THIS\nD=M\n")
    } else {
        String::from_str("@THAT\nD=M\n")
    };
    r.append("@SP\nA=M\nM=D\n@SP\nM=M+1");
    r.append("\n");
    r
}

fn pop_pointer(value: i16) -> (r: String)
    requires
        value == 0 || value == 1,
    ensures
        r@ == spec_pop_pointer(value as int),
{
    let mut r = String::from_str("@SP\nAM=M-1\nD=M");
    if value == 0 {
        r.append("\n@THIS\nM=D\n");
    } else {
        r.append("\n@THAT\nM=D\n");
    }
    r
}

fn pop_temp(index: i16) -> (r: String)
    ensures
        r@ == spec_pop_temp(index as int),
{
    let mut r = String::from_str("@5\nD=A\n@");
    text::push_dec_i16(index, &mut r);
    r.append("\nD=D+A\n@R13\nM=D\n");
    r.append("@SP\nAM=M-1\nD=M");
    r.append("\n@R13\nA=M\nM=D\n");
    r
}

fn pop_segment(segment_base: &str, index: i16) -> (r: String)
    ensures
        r@ == spec_pop_segment(segment_base@, index as int),
{
    let mut r = String::from_str("@");
    r.append(segment_base);
    r.append("\nD=M\n@");
    text::push_dec_i16(index, &mut r);
    r.append("\nD=D+A\n@R13\nM=D\n");
    r.append("@SP\nAM=M-1\nD=M");
    r.append("\n@R13\nA=M\nM=D\n");
    r
}

fn pop_static(variable: &str) -> (r: String)
    ensures
        r@ == spec_pop_static(variable@),
{
    let mut r = String::from_str("@SP\nAM=M-1\nD=M");
    r.append("\n@");
    r.append(variable);
    r.append("\nM=D\n");
    r
}

/// Each comparison takes the counter once and moves it on, so a file
/// with N comparisons emits 2N labels, and they are all distinct: the
/// two labels of one comparison differ from each other, and both
/// differ from those of every comparison with another counter value.
pub proof fn lemma_comparison_labels_distinct(prefix: Seq<char>, k1: int, k2: int)
    requires
        0 <= k1,
        0 <= k2,
        k1 != k2,
    ensures
        spec_comp_label(prefix, k1) != spec_comp_label(prefix, k2),
        spec_comp_end_label(prefix, k1) != spec_comp_end_label(prefix, k2),
        spec_comp_label(prefix, k1) != spec_comp_end_label(prefix, k2),
        spec_comp_label(prefix, k1) != spec_comp_end_label(prefix, k1),
{
    reveal_strlit("_END");
    let a = prefix + "_"@;
    let d1 = text::spec_dec_int(k1);
    let d2 = text::spec_dec_int(k2);
    text::lemma_dec_nat_digits(k1 as nat);
    text::lemma_dec_nat_digits(k2 as nat);
    assert("_END"@.len() == 4 && "_END"@[3] == 'D');
    if spec_comp_label(prefix, k1) == spec_comp_label(prefix, k2) {
        text::lemma_append_cancel_left(a, d1, d2);
        text::lemma_dec_nat_injective(k1 as nat, k2 as nat);
    }
    if spec_comp_end_label(prefix, k1) == spec_comp_end_label(prefix, k2) {
        text::lemma_append_cancel_right(
            spec_comp_label(prefix, k1),
            spec_comp_label(prefix, k2),
            "_END"@,
        );
        text::lemma_append_cancel_left(a, d1, d2);
        text::lemma_dec_nat_injective(k1 as nat, k2 as nat);
    }
    if spec_comp_label(prefix, k1) == spec_comp_end_label(prefix, k2) {
        assert(spec_comp_end_label(prefix, k2) =~= a + (d2 + "_END"@));
        text::lemma_append_cancel_left(a, d1, d2 + "_END"@);
        assert(d1.last() == (d2 + "_END"@)[d1.len() - 1]);
        assert((d2 + "_END"@)[d2.len() as int + 3] == 'D');
        assert(text::is_digit(d1.last()));
    }
    assert(spec_comp_label(prefix, k1).len() < spec_comp_end_label(prefix, k1).len());
}

/// A static-segment label `<stem>.<i>` made for one file stem never
/// equals one made for a different stem, provided stems hold no '.'
/// (a stem such as `a.b` could collide with stem `a`).
pub proof fn lemma_static_labels_distinct(stem1: Seq<char>, stem2: Seq<char>, i1: int, i2: int)
    requires
        stem1 != stem2,
        forall|j: int| 0 <= j < stem1.len() ==> stem1[j] != '.',
        forall|j: int| 0 <= j < stem2.len() ==> stem2[j] != '.',
    ensures
        spec_static_var(stem1, i1) != spec_static_var(stem2, i2),
{
    reveal_strlit(".");
    assert("."@.len() == 1 && "."@[0] == '.');
    let s1 = spec_static_var(stem1, i1);
    let s2 = spec_static_var(stem2, i2);
    if s1 == s2 {
        assert(s1[stem1.len() as int] == '.') by {
            assert((stem1 + "."@)[stem1.len() as int] == "."@[0]);
            assert(s1[stem1.len() as int] == (stem1 + "."@)[stem1.len() as int]);
        }
        assert(s2[stem2.len() as int] == '.') by {
            assert((stem2 + "."@)[stem2.len() as int] == "."@[0]);
            assert(s2[stem2.len() as int] == (stem2 + "."@)[stem2.len() as int]);
        }
        if stem1.len() == stem2.len() {
            assert forall|j: int| 0 <= j < stem1.len() implies stem1[j] == stem2[j] by {
                assert(s1[j] == (stem1 + "."@)[j]);
                assert((stem1 + "."@)[j] == stem1[j]);
                assert(s2[j] == (stem2 + "."@)[j]);
                assert((stem2 + "."@)[j] == stem2[j]);
            }
            assert(stem1 =~= stem2);
        } else if stem1.len() < stem2.len() {
            assert(s2[stem1.len() as int] == (stem2 + "."@)[stem1.len() as int]);
            assert((stem2 + "."@)[stem1.len() as int] == stem2[stem1.len() as int]);
            assert(stem2[stem1.len() as int] != '.');
        } else {
            assert(s1[stem2.len() as int] == (stem1 + "."@)[stem2.len() as int]);
            assert((stem1 + "."@)[stem2.len() as int] == stem1[stem2.len() as int]);
            assert(stem1[stem2.len() as int] != '.');
        }
    }
}

/// The call sequence pushes five frame words: the return address and
/// then the four saved registers in order; the return sequence
/// restores exactly those four registers in the reverse order.
pub proof fn lemma_return_restores_saved_reverse()
    ensures
        spec_saved_registers().len() == 4,
        spec_restored_registers() == spec_saved_registers().reverse(),
        spec_return() == "@LCL\nD=M\n@endframe\nM=D\n@5\nA=D-A\nD=M\n@retaddr\nM=D\n"@
            + spec_stack_pop() + "\n@ARG\nA=M\nM=D\n@ARG\nD=M+1\n@SP\nM=D\n"@
            + spec_restore(spec_saved_registers().reverse()[0])
            + spec_restore(spec_saved_registers().reverse()[1])
            + spec_restore(spec_saved_registers().reverse()[2])
            + spec_restore(spec_saved_registers().reverse()[3]) + "@retaddr\nA=M\n0;JMP\n"@,
        forall|ret: Seq<char>, f: Seq<char>, n: int|
            #[trigger] spec_call(ret, f, n) == spec_push_label_value(ret)
                + spec_push_register(spec_saved_registers()[0])
                + spec_push_register(spec_saved_registers()[1])
                + spec_push_register(spec_saved_registers()[2])
                + spec_push_register(spec_saved_registers()[3]) + "@SP\nD=M\n@5\nD=D-A\n@"@
                + text::spec_dec_int(n) + "\nD=D-A\n@ARG\nM=D\n@SP\nD=M\n@LCL\nM=D\n@"@ + f
                + "\n0;JMP\n("@ + ret + ")\n"@,
{
    assert(spec_restored_registers() =~= spec_saved_registers().reverse());
}

} // verus!
