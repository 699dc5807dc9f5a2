//! The Jack-to-VM code generator: walks a class tree, resolves
//! identifiers through the two symbol scopes, and emits VM commands
//! with fresh labels for control flow.

use vstd::prelude::*;
use vstd::string::StrSliceExecFns;
use vstd::string::StringExecFns;
use crate::ast::{
    Class, ClassVarDec, ClassVarDecType, Expression, IfStatement, KeywordConstant, LetStatement, Op, OpTerm,
    Statement, Statements, SubroutineCall, SubroutineDec, SubroutineReturnType, SubroutineType,
    Term, Type, UnaryOp, VarDec, WhileStatement,
};
use crate::symbols::{
    spec_char_code, spec_count_kind, spec_find_symbol, spec_generated_label, spec_kind_segment,
    CharSet, LabelGenerator, Symbol, SymbolKind, SymbolTable,
};
use crate::text;
use crate::tokenizer::Tokenizer;

verus! {

broadcast use vstd::string::group_string_axioms;

pub open spec fn spec_vm_push(seg: Seq<char>, v: int) -> Seq<char> {
    "push "@ + seg + " "@ + text::spec_dec_int(v) + "\n"@
}

pub open spec fn spec_vm_pop(seg: Seq<char>, v: int) -> Seq<char> {
    "pop "@ + seg + " "@ + text::spec_dec_int(v) + "\n"@
}

pub open spec fn spec_vm_op(name: Seq<char>) -> Seq<char> {
    name + "\n"@
}

pub open spec fn spec_vm_call(f: Seq<char>, n: int) -> Seq<char> {
    "call "@ + f + " "@ + text::spec_dec_int(n) + "\n"@
}

pub open spec fn spec_vm_label(l: Seq<char>) -> Seq<char> {
    "label "@ + l + "\n"@
}

pub open spec fn spec_vm_goto(l: Seq<char>) -> Seq<char> {
    "goto "@ + l + "\n"@
}

pub open spec fn spec_vm_ifgoto(l: Seq<char>) -> Seq<char> {
    "if-goto "@ + l + "\n"@
}

pub open spec fn spec_vm_function(f: Seq<char>, k: int) -> Seq<char> {
    "function "@ + f + " "@ + text::spec_dec_int(k) + "\n"@
}

/// The first matching symbol: the subroutine scope shadows the class
/// scope.
pub open spec fn spec_lookup(subs: Seq<Symbol>, cls: Seq<Symbol>, name: Seq<char>) -> Option<
    Symbol,
> {
    match spec_find_symbol(subs, name, 0) {
        Some(s) => Some(s),
        None => spec_find_symbol(cls, name, 0),
    }
}

/// The VM text an operator compiles to, emitted after both operands.
pub open spec fn spec_op_code(op: Op) -> Seq<char> {
    match op {
        Op::Plus => spec_vm_op("add"@),
        Op::Minus => spec_vm_op("sub"@),
        Op::Multiply => spec_vm_call("Math.multiply"@, 2),
        Op::Divide => spec_vm_call("Math.divide"@, 2),
        Op::And => spec_vm_op("and"@),
        Op::Or => spec_vm_op("or"@),
        Op::Lt => spec_vm_op("lt"@),
        Op::Gt => spec_vm_op("gt"@),
        Op::Eq => spec_vm_op("eq"@),
    }
}

pub open spec fn spec_unary_op_code(op: UnaryOp) -> Seq<char> {
    match op {
        UnaryOp::Negative => spec_vm_op("neg"@),
        UnaryOp::Not => spec_vm_op("not"@),
    }
}

/// The appendChar calls that materialize a string literal, one per
/// character; a character outside the table is an error.
pub open spec fn spec_string_chars(s: Seq<char>) -> Option<Seq<char>>
    decreases s,
{
    if s.len() == 0 {
        Some(Seq::empty())
    } else {
        match (spec_string_chars(s.drop_last()), spec_char_code(s.last())) {
            (Some(prefix), Some(code)) => Some(
                prefix + spec_vm_push("constant"@, code) + spec_vm_call("String.appendChar"@, 2),
            ),
            _ => None,
        }
    }
}

/// A string literal: allocate it, then append each character.
pub open spec fn spec_compile_string(s: Seq<char>) -> Option<Seq<char>> {
    if s.len() > 32767 {
        None
    } else {
        match spec_string_chars(s) {
            Some(chars) => Some(
                spec_vm_push("constant"@, s.len() as int) + spec_vm_call("String.new"@, 1)
                    + chars,
            ),
            None => None,
        }
    }
}

/// What one term compiles to; an unresolved variable or an
/// ill-typed receiver is an error.
pub open spec fn spec_compile_term(
    t: Term,
    cn: Seq<char>,
    subs: Seq<Symbol>,
    cls: Seq<Symbol>,
) -> Option<Seq<char>>
    decreases t,
{
    match t {
        Term::IntegerConstant(v) => Some(spec_vm_push("constant"@, v as int)),
        Term::StringConstant(s) => spec_compile_string(s@),
        Term::KeywordConstant(k) => match k {
            KeywordConstant::Null => Some(spec_vm_push("constant"@, 0)),
            KeywordConstant::False => Some(spec_vm_push("constant"@, 0)),
            KeywordConstant::True => Some(spec_vm_push("constant"@, 1) + spec_vm_op("neg"@)),
            KeywordConstant::This => Some(spec_vm_push("pointer"@, 0)),
        },
        Term::VarName(v) => match spec_lookup(subs, cls, v@) {
            Some(s) => Some(spec_vm_push(spec_kind_segment(s.kind), s.index as int)),
            None => None,
        },
        Term::IndexVar(v, e) => match (spec_lookup(subs, cls, v@), spec_compile_expression(
            *e,
            cn,
            subs,
            cls,
        )) {
            (Some(s), Some(ec)) => Some(
                spec_vm_push(spec_kind_segment(s.kind), s.index as int) + ec + spec_vm_op("add"@)
                    + spec_vm_pop("pointer"@, 1) + spec_vm_push("that"@, 0),
            ),
            _ => None,
        },
        Term::Call(sc) => spec_compile_call(sc, cn, subs, cls),
        Term::Expression(e) => spec_compile_expression(*e, cn, subs, cls),
        Term::WithUnary(op, inner) => match spec_compile_term(*inner, cn, subs, cls) {
            Some(ic) => Some(ic + spec_unary_op_code(op)),
            None => None,
        },
    }
}

pub open spec fn spec_compile_op_terms(
    s: Seq<OpTerm>,
    cn: Seq<char>,
    subs: Seq<Symbol>,
    cls: Seq<Symbol>,
) -> Option<Seq<char>>
    decreases s,
{
    if s.len() == 0 {
        Some(Seq::empty())
    } else {
        match (spec_compile_op_terms(s.drop_last(), cn, subs, cls), spec_compile_term(
            s.last().1,
            cn,
            subs,
            cls,
        )) {
            (Some(prefix), Some(tc)) => Some(prefix + tc + spec_op_code(s.last().0)),
            _ => None,
        }
    }
}

/// An expression: its head term, then each further term followed by
/// its operator, strictly left to right.
pub open spec fn spec_compile_expression(
    e: Expression,
    cn: Seq<char>,
    subs: Seq<Symbol>,
    cls: Seq<Symbol>,
) -> Option<Seq<char>>
    decreases e,
{
    match (spec_compile_term(e.term, cn, subs, cls), spec_compile_op_terms(
        e.extra_op_terms@,
        cn,
        subs,
        cls,
    )) {
        (Some(tc), Some(oc)) => Some(tc + oc),
        _ => None,
    }
}

pub open spec fn spec_compile_args(
    s: Seq<Expression>,
    cn: Seq<char>,
    subs: Seq<Symbol>,
    cls: Seq<Symbol>,
) -> Option<Seq<char>>
    decreases s,
{
    if s.len() == 0 {
        Some(Seq::empty())
    } else {
        match (spec_compile_args(s.drop_last(), cn, subs, cls), spec_compile_expression(
            s.last(),
            cn,
            subs,
            cls,
        )) {
            (Some(prefix), Some(ec)) => Some(prefix + ec),
            _ => None,
        }
    }
}

/// A call: an unqualified name is a method of the current class on
/// `this`; a qualified name is a method call when the receiver is a
/// known object variable, else a function of the named class.
pub open spec fn spec_compile_call(
    sc: SubroutineCall,
    cn: Seq<char>,
    subs: Seq<Symbol>,
    cls: Seq<Symbol>,
) -> Option<Seq<char>>
    decreases sc,
{
    if sc.expression_list@.len() > 32766 {
        None
    } else {
        match spec_compile_args(sc.expression_list@, cn, subs, cls) {
            None => None,
            Some(args) => {
                let n = sc.expression_list@.len() as int;
                match sc.caller {
                    None => Some(
                        spec_vm_push("pointer"@, 0) + args + spec_vm_call(
                            cn + "."@ + sc.subroutine_name.0@,
                            n + 1,
                        ),
                    ),
                    Some(c) => match spec_lookup(subs, cls, c@) {
                        Some(s) => match s.var_type {
                            Type::ClassName(tn) => Some(
                                spec_vm_push(spec_kind_segment(s.kind), s.index as int) + args
                                    + spec_vm_call(tn@ + "."@ + sc.subroutine_name.0@, n + 1),
                            ),
                            _ => None,
                        },
                        None => Some(args + spec_vm_call(c@ + "."@ + sc.subroutine_name.0@, n)),
                    },
                }
            },
        }
    }
}

/// A let statement: a plain target pops into its slot; an indexed
/// target uses the indirect-store idiom through temp 0 and pointer 1,
/// because compiling the right side may itself use pointer 1.
pub open spec fn spec_compile_let(
    l: LetStatement,
    cn: Seq<char>,
    subs: Seq<Symbol>,
    cls: Seq<Symbol>,
) -> Option<Seq<char>> {
    match spec_lookup(subs, cls, l.var_name.0@) {
        None => None,
        Some(s) => match l.index_expression {
            Some(ie) => match (spec_compile_expression(ie, cn, subs, cls),
            spec_compile_expression(l.expression, cn, subs, cls)) {
                (Some(ic), Some(rc)) => Some(
                    spec_vm_push(spec_kind_segment(s.kind), s.index as int) + ic + spec_vm_op(
                        "add"@,
                    ) + rc + spec_vm_pop("temp"@, 0) + spec_vm_pop("pointer"@, 1) + spec_vm_push(
                        "temp"@,
                        0,
                    ) + spec_vm_pop("that"@, 0),
                ),
                _ => None,
            },
            None => match spec_compile_expression(l.expression, cn, subs, cls) {
                Some(rc) => Some(rc + spec_vm_pop(spec_kind_segment(s.kind), s.index as int)),
                None => None,
            },
        },
    }
}

/// An if statement: the negated condition branches to the else label;
/// both labels are freshly minted before the branches compile.
pub open spec fn spec_compile_if(
    f: IfStatement,
    ret: SubroutineReturnType,
    cn: Seq<char>,
    subs: Seq<Symbol>,
    cls: Seq<Symbol>,
    counter: int,
) -> Option<(Seq<char>, int)>
    decreases f, 0int,
{
    if counter > 32765 {
        None
    } else {
        let l1 = spec_generated_label(cn, counter);
        let l2 = spec_generated_label(cn, counter + 1);
        match spec_compile_expression(f.expression, cn, subs, cls) {
            None => None,
            Some(ec) => match spec_compile_statements(
                f.if_statements.0@,
                0,
                ret,
                cn,
                subs,
                cls,
                counter + 2,
            ) {
                None => None,
                Some((tc, c1)) => match f.else_statements {
                    Some(es) => match spec_compile_statements(es.0@, 0, ret, cn, subs, cls, c1) {
                        None => None,
                        Some((elc, c2)) => Some(
                            (ec + spec_vm_op("not"@) + spec_vm_ifgoto(l1) + tc + spec_vm_goto(l2)
                                + spec_vm_label(l1) + elc + spec_vm_label(l2), c2),
                        ),
                    },
                    None => Some(
                        (ec + spec_vm_op("not"@) + spec_vm_ifgoto(l1) + tc + spec_vm_goto(l2)
                            + spec_vm_label(l1) + spec_vm_label(l2), c1),
                    ),
                },
            },
        }
    }
}

/// A while statement: test at the top, negated exit branch, loop back.
pub open spec fn spec_compile_while(
    w: WhileStatement,
    ret: SubroutineReturnType,
    cn: Seq<char>,
    subs: Seq<Symbol>,
    cls: Seq<Symbol>,
    counter: int,
) -> Option<(Seq<char>, int)>
    decreases w, 0int,
{
    if counter > 32765 {
        None
    } else {
        let l1 = spec_generated_label(cn, counter);
        let l2 = spec_generated_label(cn, counter + 1);
        match spec_compile_expression(w.expression, cn, subs, cls) {
            None => None,
            Some(ec) => match spec_compile_statements(
                w.statements.0@,
                0,
                ret,
                cn,
                subs,
                cls,
                counter + 2,
            ) {
                None => None,
                Some((bc, c1)) => Some(
                    (spec_vm_label(l1) + ec + spec_vm_op("not"@) + spec_vm_ifgoto(l2) + bc
                        + spec_vm_goto(l1) + spec_vm_label(l2), c1),
                ),
            },
        }
    }
}

/// What one statement compiles to, with the label counter it leaves
/// behind. A do statement discards the returned value into temp 0; a
/// bare return in a void subroutine pushes the conventional 0 first.
pub open spec fn spec_compile_statement(
    st: Statement,
    ret: SubroutineReturnType,
    cn: Seq<char>,
    subs: Seq<Symbol>,
    cls: Seq<Symbol>,
    counter: int,
) -> Option<(Seq<char>, int)>
    decreases st, 0int,
{
    match st {
        Statement::Do(sc) => match spec_compile_call(sc, cn, subs, cls) {
            Some(cc) => Some((cc + spec_vm_pop("temp"@, 0), counter)),
            None => None,
        },
        Statement::Let(l) => match spec_compile_let(l, cn, subs, cls) {
            Some(c) => Some((c, counter)),
            None => None,
        },
        Statement::Return(e) => match e {
            Some(e) => match spec_compile_expression(e, cn, subs, cls) {
                Some(ec) => Some((ec + "return\n"@, counter)),
                None => None,
            },
            None => {
                if ret is Void {
                    Some((spec_vm_push("constant"@, 0) + "return\n"@, counter))
                } else {
                    Some(("return\n"@, counter))
                }
            },
        },
        Statement::If(f) => spec_compile_if(*f, ret, cn, subs, cls, counter),
        Statement::While(w) => spec_compile_while(*w, ret, cn, subs, cls, counter),
    }
}

/// A statement list, threading the label counter through.
pub open spec fn spec_compile_statements(
    s: Seq<Statement>,
    i: int,
    ret: SubroutineReturnType,
    cn: Seq<char>,
    subs: Seq<Symbol>,
    cls: Seq<Symbol>,
    counter: int,
) -> Option<(Seq<char>, int)>
    decreases s, s.len() - i,
{
    if i < 0 || i >= s.len() {
        Some((Seq::empty(), counter))
    } else {
        match spec_compile_statement(s[i], ret, cn, subs, cls, counter) {
            None => None,
            Some((sc, c1)) => match spec_compile_statements(s, i + 1, ret, cn, subs, cls, c1) {
                None => None,
                Some((rest, c2)) => Some((sc + rest, c2)),
            },
        }
    }
}

/// The names and types a declaration contributes, in order.
pub open spec fn spec_dec_slots(d: VarDec) -> Seq<(Seq<char>, Type)> {
    seq![(d.var_name.0@, d.var_type)] + Seq::new(
        d.extra_var_names@.len(),
        |i: int| (d.extra_var_names@[i].0@, d.var_type),
    )
}

/// All local slots a body declares, in declaration order.
pub open spec fn spec_local_slots(s: Seq<VarDec>) -> Seq<(Seq<char>, Type)>
    decreases s,
{
    if s.len() == 0 {
        Seq::empty()
    } else {
        spec_local_slots(s.drop_last()) + spec_dec_slots(s.last())
    }
}

/// What the subroutine scope holds after a subroutine's prologue: the
/// implicit `this` for a method, then the parameters as arguments,
/// then the locals, each with the ordinal of its kind.
pub open spec fn spec_subroutine_scope(tbl: Seq<Symbol>, dec: SubroutineDec, cn: Seq<char>) -> bool {
    let base: int = if dec.subroutine_type is Method { 1int } else { 0int };
    let np = dec.parameters@.len() as int;
    let slots = spec_local_slots(dec.body.var_decs@);
    &&& tbl.len() == base + np + slots.len()
    &&& (dec.subroutine_type is Method ==> tbl[0].var_name@ == "this"@ && tbl[0].kind
        == SymbolKind::Argument && tbl[0].index == 0 && (tbl[0].var_type matches Type::ClassName(n)
        && n@ == cn))
    &&& (forall|i: int| 0 <= i < np ==> (#[trigger] tbl[base + i]).var_name@
        == dec.parameters@[i].1.0@ && tbl[base + i].var_type == dec.parameters@[i].0 && tbl[base
        + i].kind == SymbolKind::Argument && tbl[base + i].index == base + i)
    &&& (forall|j: int| 0 <= j < slots.len() ==> (#[trigger] tbl[base + np + j]).var_name@
        == slots[j].0 && tbl[base + np + j].var_type == slots[j].1 && tbl[base + np + j].kind
        == SymbolKind::Local && tbl[base + np + j].index == j)
}

/// Concatenation of emitted pieces, in order.
pub open spec fn spec_concat(parts: Seq<Seq<char>>) -> Seq<char>
    decreases parts,
{
    if parts.len() == 0 {
        Seq::empty()
    } else {
        spec_concat(parts.drop_last()) + parts.last()
    }
}

/// How many locals a body declares: one per name, extra names
/// included.
pub open spec fn spec_locals_count(s: Seq<VarDec>) -> int
    decreases s,
{
    if s.len() == 0 {
        0
    } else {
        spec_locals_count(s.drop_last()) + 1 + s.last().extra_var_names@.len()
    }
}

/// Whether the declaration's scopes fit the 15-bit counters: at most
/// 32767 arguments (the implicit `this` included) and at most 32767
/// locals.
pub open spec fn spec_subroutine_fits(dec: SubroutineDec) -> bool {
    let base: int = if dec.subroutine_type is Method { 1int } else { 0int };
    base + dec.parameters@.len() <= 32767 && spec_locals_count(dec.body.var_decs@) <= 32767
}

/// The code at a subroutine's entry: a constructor allocates the
/// object and installs `this`; a method installs `this` from argument
/// 0; a function has no prologue.
pub open spec fn spec_prologue(t: SubroutineType, field_count: int) -> Seq<char> {
    match t {
        SubroutineType::Constructor => spec_vm_push("constant"@, field_count) + spec_vm_call(
            "Memory.alloc"@,
            1,
        ) + spec_vm_pop("pointer"@, 0),
        SubroutineType::Method => spec_vm_push("argument"@, 0) + spec_vm_pop("pointer"@, 0),
        SubroutineType::Function => Seq::empty(),
    }
}

/// The `function C.m k` line a subroutine's code begins with.
pub open spec fn spec_function_header(cn: Seq<char>, dec: SubroutineDec) -> Seq<char> {
    spec_vm_function(cn + "."@ + dec.name.0@, spec_locals_count(dec.body.var_decs@))
}

/// Whether a code block begins with the subroutine's header line.
pub open spec fn spec_part_has_header(part: Seq<char>, cn: Seq<char>, dec: SubroutineDec) -> bool {
    let h = spec_function_header(cn, dec);
    part.len() >= h.len() && part.subrange(0, h.len() as int) == h
}

/// Whether a code block is one class's compiled output: one block per
/// subroutine, in order, each behind its own header line.
pub open spec fn spec_class_output(part: Seq<char>, c: Class) -> bool {
    exists|subparts: Seq<Seq<char>>|
        subparts.len() == c.subroutine_decs@.len() && part == spec_concat(subparts) && (forall|
            m: int,
        | 0 <= m < subparts.len() ==> spec_part_has_header(
            #[trigger] subparts[m],
            c.name.0@,
            c.subroutine_decs@[m],
        ))
}

/// One subroutine's whole code block: its header line, the prologue of
/// its kind against `field_count` fields, and its statements compiled
/// under scope `scope` from label counter `c_in`, leaving `c_out`.
pub open spec fn spec_subroutine_code(
    block: Seq<char>,
    dec: SubroutineDec,
    cn: Seq<char>,
    scope: Seq<Symbol>,
    cls: Seq<Symbol>,
    field_count: int,
    c_in: int,
    c_out: int,
) -> bool {
    &&& spec_subroutine_scope(scope, dec, cn)
    &&& spec_compile_statements(dec.body.statements.0@, 0, dec.return_type, cn, scope, cls, c_in)
        matches Some((code, cf)) && cf == c_out && block == spec_function_header(cn, dec)
        + spec_prologue(dec.subroutine_type, field_count) + code
}

/// Whether `cls` is `cls0` extended by exactly the class's declared
/// variables, in declaration order.
pub open spec fn spec_class_scope_conforms(cls0: Seq<Symbol>, cls: Seq<Symbol>, c: Class) -> bool {
    let slots = spec_class_slots(c.class_var_decs@);
    &&& cls.len() == cls0.len() + slots.len()
    &&& (forall|m: int| 0 <= m < cls0.len() ==> #[trigger] cls[m] == cls0[m])
    &&& (forall|m: int| 0 <= m < slots.len() ==> (#[trigger] cls[cls0.len() + m]).var_name@
        == slots[m].0 && cls[cls0.len() + m].var_type == slots[m].1 && cls[cls0.len() + m].kind
        == slots[m].2)
}

/// Whether compiling the class under a generator named `cn` genuinely
/// fails: its class scope would leave the 15-bit counters, or some
/// subroutine of it fails under scopes holding exactly the declared
/// names.
pub open spec fn spec_class_fails(c: Class, cn: Seq<char>) -> bool {
    ||| spec_class_slots(c.class_var_decs@).len() >= 32767
    ||| exists|cls: Seq<Symbol>, m: int, scope: Seq<Symbol>, c_in: int|
        #![trigger spec_compile_statements(
            c.subroutine_decs@[m].body.statements.0@,
            0,
            c.subroutine_decs@[m].return_type,
            cn,
            scope,
            cls,
            c_in,
        )]
        spec_class_scope_conforms(Seq::empty(), cls, c) && 0 <= m < c.subroutine_decs@.len() && (
        !spec_subroutine_fits(c.subroutine_decs@[m]) || (spec_subroutine_scope(
            scope,
            c.subroutine_decs@[m],
            cn,
        ) && spec_compile_statements(
            c.subroutine_decs@[m].body.statements.0@,
            0,
            c.subroutine_decs@[m].return_type,
            cn,
            scope,
            cls,
            c_in,
        ) is None))
}

/// One class's compiled output, pinned block by block: block m is
/// subroutine m's code under a scope holding exactly its declared
/// names, with the label counter threaded through the blocks in
/// declaration order.
pub open spec fn spec_class_code(
    part: Seq<char>,
    c: Class,
    cn: Seq<char>,
    cls: Seq<Symbol>,
    c_in: int,
    c_out: int,
) -> bool {
    exists|subparts: Seq<Seq<char>>, counters: Seq<int>, scopes: Seq<Seq<Symbol>>|
        #![trigger spec_concat(subparts), counters.len(), scopes.len()]
        {
            &&& subparts.len() == c.subroutine_decs@.len()
            &&& counters.len() == subparts.len() + 1
            &&& scopes.len() == subparts.len()
            &&& counters[0] == c_in
            &&& counters[subparts.len() as int] == c_out
            &&& part == spec_concat(subparts)
            &&& (forall|m: int| 0 <= m < subparts.len() ==> spec_subroutine_code(
                #[trigger] subparts[m],
                c.subroutine_decs@[m],
                cn,
                scopes[m],
                cls,
                spec_count_kind(cls, SymbolKind::Field),
                counters[m],
                counters[m + 1],
            ))
        }
}

impl ClassVarDecType {
    /// The storage kind a class-variable declaration uses.
    pub fn to_symbol_kind(&self) -> (r: SymbolKind)
        ensures
            r == (match self {
                ClassVarDecType::Static => SymbolKind::Static,
                ClassVarDecType::Field => SymbolKind::Field,
            }),
    {
        match self {
            ClassVarDecType::Static => SymbolKind::Static,
            ClassVarDecType::Field => SymbolKind::Field,
        }
    }
}

/// The storage kind a class-variable declaration uses.
pub open spec fn spec_class_slot_kind(d: ClassVarDecType) -> SymbolKind {
    match d {
        ClassVarDecType::Static => SymbolKind::Static,
        ClassVarDecType::Field => SymbolKind::Field,
    }
}

/// The names, types and kinds one class-variable declaration
/// contributes, in order.
pub open spec fn spec_class_dec_slots(d: ClassVarDec) -> Seq<(Seq<char>, Type, SymbolKind)> {
    seq![(d.var_name.0@, d.var_type, spec_class_slot_kind(d.dec_type))] + Seq::new(
        d.extra_var_names@.len(),
        |i: int| (d.extra_var_names@[i].0@, d.var_type, spec_class_slot_kind(d.dec_type)),
    )
}

/// All class-scope slots a class declares, in declaration order.
pub open spec fn spec_class_slots(s: Seq<ClassVarDec>) -> Seq<(Seq<char>, Type, SymbolKind)>
    decreases s,
{
    if s.len() == 0 {
        Seq::empty()
    } else {
        spec_class_slots(s.drop_last()) + spec_class_dec_slots(s.last())
    }
}

/// One code generator instance per class: the two symbol scopes, the
/// label counter, the character table, and the class name.
pub struct VM {
    class_table: SymbolTable,
    subroutine_table: SymbolTable,
    label_generator: LabelGenerator,
    charset: CharSet,
    class_name: String,
}

impl VM {
    pub closed spec fn spec_class_name(&self) -> Seq<char> {
        self.class_name@
    }

    pub closed spec fn spec_cls(&self) -> Seq<Symbol> {
        self.class_table@
    }

    pub closed spec fn spec_subs(&self) -> Seq<Symbol> {
        self.subroutine_table@
    }

    pub closed spec fn spec_counter(&self) -> int {
        self.label_generator@.counter
    }

    /// The scopes are consistent and the label counter is in range
    /// and tied to this class.
    pub closed spec fn wf(&self) -> bool {
        &&& self.class_table.wf()
        &&& self.subroutine_table.wf()
        &&& 0 <= self.label_generator@.counter <= 32767
        &&& self.label_generator@.class_name == self.class_name@
    }

    /// A fresh generator for one class.
    pub fn new(class_name: &str) -> (r: VM)
        ensures
            r.wf(),
            r.spec_class_name() == class_name@,
            r.spec_cls() == Seq::<Symbol>::empty(),
            r.spec_subs() == Seq::<Symbol>::empty(),
            r.spec_counter() == 0,
    {
        VM {
            class_table: SymbolTable::new(),
            subroutine_table: SymbolTable::new(),
            label_generator: LabelGenerator::new(class_name),
            charset: CharSet::new(),
            class_name: class_name.to_owned(),
        }
    }

    /// One push command line.
    pub fn push(segment: &str, value: i16) -> (r: String)
        ensures
            r@ == spec_vm_push(segment@, value as int),
    {
        let mut r = String::from_str("push ");
        r.append(segment);
        r.append(" ");
        text::push_dec_i16(value, &mut r);
        r.append("\n");
        r
    }

    /// One pop command line.
    pub fn pop(segment: &str, index: i16) -> (r: String)
        ensures
            r@ == spec_vm_pop(segment@, index as int),
    {
        let mut r = String::from_str("pop ");
        r.append(segment);
        r.append(" ");
        text::push_dec_i16(index, &mut r);
        r.append("\n");
        r
    }

    /// One bare command line.
    pub fn op(name: &str) -> (r: String)
        ensures
            r@ == spec_vm_op(name@),
    {
        let mut r = name.to_owned();
        r.append("\n");
        r
    }

    /// One call command line.
    pub fn call(function_name: &str, n_args: i16) -> (r: String)
        ensures
            r@ == spec_vm_call(function_name@, n_args as int),
    {
        let mut r = String::from_str("call ");
        r.append(function_name);
        r.append(" ");
        text::push_dec_i16(n_args, &mut r);
        r.append("\n");
        r
    }

    /// The given pieces, concatenated.
    pub fn build(instructions: Vec<String>) -> (r: String)
        ensures
            r@ == spec_concat(instructions.deep_view()),
    {
        let ghost parts = instructions.deep_view();
        proof {
            assert(parts.len() == instructions@.len());
        }
        let mut r = String::new();
        let n = instructions.len();
        let mut i: usize = 0;
        proof {
            assert(r@ =~= spec_concat(parts.subrange(0, 0)));
        }
        while i < n
            invariant
                0 <= i <= n,
                n == instructions@.len(),
                parts == instructions.deep_view(),
                parts.len() == n,
                r@ == spec_concat(parts.subrange(0, i as int)),
            decreases n - i,
        {
            proof {
                assert(parts[i as int] == instructions@[i as int]@);
            }
            r.append(instructions[i].as_str());
            i = i + 1;
            proof {
                assert(parts.subrange(0, i as int).drop_last() =~= parts.subrange(0, i - 1));
            }
        }
        proof {
            assert(parts.subrange(0, n as int) =~= parts);
        }
        r
    }

    /// One label command line.
    pub fn label(label: &str) -> (r: String)
        ensures
            r@ == spec_vm_label(label@),
    {
        let mut r = String::from_str("label ");
        r.append(label);
        r.append("\n");
        r
    }

    /// One goto command line.
    pub fn goto(label: &str) -> (r: String)
        ensures
            r@ == spec_vm_goto(label@),
    {
        let mut r = String::from_str("goto ");
        r.append(label);
        r.append("\n");
        r
    }

    /// One if-goto command line.
    pub fn ifgoto(label: &str) -> (r: String)
        ensures
            r@ == spec_vm_ifgoto(label@),
    {
        let mut r = String::from_str("if-goto ");
        r.append(label);
        r.append("\n");
        r
    }

    /// One function header line.
    pub fn function(name: &str, n_vars: i16) -> (r: String)
        ensures
            r@ == spec_vm_function(name@, n_vars as int),
    {
        let mut r = String::from_str("function ");
        r.append(name);
        r.append(" ");
        text::push_dec_i16(n_vars, &mut r);
        r.append("\n");
        r
    }

    /// Mints a fresh label for this class.
    pub fn generate_label(&mut self) -> (r: String)
        requires
            old(self).wf(),
            old(self).spec_counter() < 32767,
        ensures
            final(self).wf(),
            final(self).spec_class_name() == old(self).spec_class_name(),
            final(self).spec_cls() == old(self).spec_cls(),
            final(self).spec_subs() == old(self).spec_subs(),
            final(self).spec_counter() == old(self).spec_counter() + 1,
            r@ == spec_generated_label(old(self).spec_class_name(), old(self).spec_counter()),
    {
        self.label_generator.generate()
    }

    /// The first symbol under `name`: the subroutine scope first, then
    /// the class scope.
    pub fn find_by(&self, name: &str) -> (r: Option<&Symbol>)
        ensures
            match r {
                Some(s) => spec_lookup(self.spec_subs(), self.spec_cls(), name@) == Some(*s),
                None => spec_lookup(self.spec_subs(), self.spec_cls(), name@) is None,
            },
    {
        match self.subroutine_table.find_by(name) {
            Some(s) => Some(s),
            None => self.class_table.find_by(name),
        }
    }

    /// The code that materializes one string literal; a character
    /// outside the table, or a literal beyond 15 bits of length, is
    /// an error.
    pub fn compile_string(&self, content: &str) -> (r: Option<String>)
        ensures
            match r {
                Some(s) => spec_compile_string(content@) == Some(s@),
                None => spec_compile_string(content@) is None,
            },
    {
        let len = content.unicode_len();
        if len > 32767 {
            return None;
        }
        let mut push_chars = String::new();
        let mut i: usize = 0;
        proof {
            assert(content@.subrange(0, 0) =~= Seq::<char>::empty());
        }
        while i < len
            invariant
                0 <= i <= len,
                len == content@.len(),
                spec_string_chars(content@.subrange(0, i as int)) == Some(push_chars@),
            decreases len - i,
        {
            let c = content.get_char(i);
            match self.charset.code(c) {
                Some(char_number) => {
                    let p = VM::push("constant", char_number);
                    push_chars.append(p.as_str());
                    push_chars.append("call ");
                    push_chars.append("String.appendChar");
                    push_chars.append(" ");
                    text::push_dec_i16(2, &mut push_chars);
                    push_chars.append("\n");
                    i = i + 1;
                    proof {
                        assert(content@.subrange(0, i as int).drop_last() =~= content@.subrange(
                            0,
                            i - 1,
                        ));
                        assert(spec_vm_call("String.appendChar"@, 2) =~= "call "@
                            + "String.appendChar"@ + " "@ + text::spec_dec_int(2) + "\n"@);
                        assert(spec_string_chars(content@.subrange(0, i as int))
                            == Some(push_chars@));
                    }
                },
                None => {
                    proof {
                        assert(content@.subrange(0, i + 1).last() == content@[i as int]);
                        assert(content@.subrange(0, i + 1).drop_last() =~= content@.subrange(
                            0,
                            i as int,
                        ));
                        lemma_string_chars_cut(content@, i as int);
                    }
                    return None;
                },
            }
        }
        proof {
            assert(content@.subrange(0, len as int) =~= content@);
        }
        let mut r = VM::push("constant", len as i16);
        let c = VM::call("String.new", 1);
        r.append(c.as_str());
        r.append(push_chars.as_str());
        Some(r)
    }

    /// The one line an operator compiles to.
    fn compile_operation(&self, operation: &Op) -> (r: String)
        ensures
            r@ == spec_op_code(*operation),
    {
        match operation {
            Op::Plus => VM::op("add"),
            Op::Minus => VM::op("sub"),
            Op::Multiply => VM::call("Math.multiply", 2),
            Op::Divide => VM::call("Math.divide", 2),
            Op::And => VM::op("and"),
            Op::Or => VM::op("or"),
            Op::Lt => VM::op("lt"),
            Op::Gt => VM::op("gt"),
            Op::Eq => VM::op("eq"),
        }
    }

    /// The one line a unary operator compiles to.
    fn compile_unary_op(&self, unary_operation: &UnaryOp) -> (r: String)
        ensures
            r@ == spec_unary_op_code(*unary_operation),
    {
        match unary_operation {
            UnaryOp::Negative => VM::op("neg"),
            UnaryOp::Not => VM::op("not"),
        }
    }

    /// Compiles one term to code leaving one value on the stack.
    fn compile_term(&self, term: &Term) -> (r: Option<String>)
        ensures
            match r {
                Some(s) => spec_compile_term(*term, self.spec_class_name(), self.spec_subs(),
                    self.spec_cls()) == Some(s@),
                None => spec_compile_term(*term, self.spec_class_name(), self.spec_subs(),
                    self.spec_cls()) is None,
            },
        decreases *term, 0int,
    {
        match term {
            Term::IntegerConstant(v) => Some(VM::push("constant", *v)),
            Term::StringConstant(s) => self.compile_string(s.as_str()),
            Term::KeywordConstant(k) => {
                match k {
                    KeywordConstant::Null => Some(VM::push("constant", 0)),
                    KeywordConstant::False => Some(VM::push("constant", 0)),
                    KeywordConstant::True => {
                        let mut r = VM::push("constant", 1);
                        let o = VM::op("neg");
                        r.append(o.as_str());
                        Some(r)
                    },
                    KeywordConstant::This => Some(VM::push("pointer", 0)),
                }
            },
            Term::VarName(v) => {
                match self.find_by(v.as_str()) {
                    Some(symbol) => {
                        let segment = symbol.vm_memory_segment();
                        let index = symbol.index();
                        Some(VM::push(segment.as_str(), index))
                    },
                    None => None,
                }
            },
            Term::IndexVar(v, e) => {
                match self.find_by(v.as_str()) {
                    Some(symbol) => {
                        let segment = symbol.vm_memory_segment();
                        let index = symbol.index();
                        match self.compile_expression(e) {
                            Some(ec) => {
                                let mut r = VM::push(segment.as_str(), index);
                                r.append(ec.as_str());
                                let a = VM::op("add");
                                r.append(a.as_str());
                                let p = VM::pop("pointer", 1);
                                r.append(p.as_str());
                                let t = VM::push("that", 0);
                                r.append(t.as_str());
                                Some(r)
                            },
                            None => None,
                        }
                    },
                    None => None,
                }
            },
            Term::Call(sc) => self.compile_subroutine_call(sc),
            Term::Expression(e) => self.compile_expression(e),
            Term::WithUnary(op, inner) => {
                match self.compile_term(inner) {
                    Some(mut ic) => {
                        let o = self.compile_unary_op(op);
                        ic.append(o.as_str());
                        Some(ic)
                    },
                    None => None,
                }
            },
        }
    }

    /// Compiles an expression: the head term, then each further term
    /// followed by its operator, strictly left to right.
    pub fn compile_expression(&self, expression: &Expression) -> (r: Option<String>)
        ensures
            match r {
                Some(s) => spec_compile_expression(*expression, self.spec_class_name(),
                    self.spec_subs(), self.spec_cls()) == Some(s@),
                None => spec_compile_expression(*expression, self.spec_class_name(),
                    self.spec_subs(), self.spec_cls()) is None,
            },
        decreases *expression, 1int,
    {
        let ghost cn = self.spec_class_name();
        let ghost subs = self.spec_subs();
        let ghost cls = self.spec_cls();
        let mut r = match self.compile_term(&expression.term) {
            Some(tc) => tc,
            None => {
                return None;
            },
        };
        let ghost term_code = r@;
        let n = expression.extra_op_terms.len();
        let mut i: usize = 0;
        proof {
            assert(expression.extra_op_terms@.subrange(0, 0) =~= Seq::<OpTerm>::empty());
            assert(r@ =~= term_code + Seq::<char>::empty());
        }
        while i < n
            invariant
                0 <= i <= n,
                n == expression.extra_op_terms@.len(),
                spec_compile_term(expression.term, cn, subs, cls) == Some(term_code),
                cn == self.spec_class_name(),
                subs == self.spec_subs(),
                cls == self.spec_cls(),
                spec_compile_op_terms(expression.extra_op_terms@.subrange(0, i as int), cn, subs,
                    cls) matches Some(oc) && r@ == term_code + oc,
            decreases n - i,
        {
            let ot = &expression.extra_op_terms[i];
            match self.compile_term(&ot.1) {
                Some(tc) => {
                    r.append(tc.as_str());
                    let oc = self.compile_operation(&ot.0);
                    r.append(oc.as_str());
                    i = i + 1;
                    proof {
                        let pre = expression.extra_op_terms@.subrange(0, i as int);
                        assert(pre.drop_last() =~= expression.extra_op_terms@.subrange(0, i - 1));
                        assert(pre.last() == expression.extra_op_terms@[i - 1]);
                        assert(spec_compile_op_terms(pre, cn, subs, cls) matches Some(c2)
                            && r@ =~= term_code + c2);
                    }
                },
                None => {
                    proof {
                        lemma_op_terms_cut(expression.extra_op_terms@, i as int, cn, subs, cls);
                    }
                    return None;
                },
            }
        }
        proof {
            assert(expression.extra_op_terms@.subrange(0, n as int)
                =~= expression.extra_op_terms@);
        }
        Some(r)
    }

    /// Compiles a call, deciding among an unqualified method call, a
    /// qualified method call on an object variable, and a function or
    /// constructor call on a class name.
    pub fn compile_subroutine_call(&self, subroutine_call: &SubroutineCall) -> (r: Option<String>)
        ensures
            match r {
                Some(s) => spec_compile_call(*subroutine_call, self.spec_class_name(),
                    self.spec_subs(), self.spec_cls()) == Some(s@),
                None => spec_compile_call(*subroutine_call, self.spec_class_name(),
                    self.spec_subs(), self.spec_cls()) is None,
            },
        decreases *subroutine_call, 2int,
    {
        let ghost cn = self.spec_class_name();
        let ghost subs = self.spec_subs();
        let ghost cls = self.spec_cls();
        let n_exprs = subroutine_call.expression_list.len();
        if n_exprs > 32766 {
            return None;
        }
        let mut instructions = String::new();
        let mut i: usize = 0;
        proof {
            assert(subroutine_call.expression_list@.subrange(0, 0) =~= Seq::<Expression>::empty());
        }
        while i < n_exprs
            invariant
                0 <= i <= n_exprs,
                n_exprs == subroutine_call.expression_list@.len(),
                cn == self.spec_class_name(),
                subs == self.spec_subs(),
                cls == self.spec_cls(),
                spec_compile_args(subroutine_call.expression_list@.subrange(0, i as int), cn,
                    subs, cls) == Some(instructions@),
            decreases n_exprs - i,
        {
            match self.compile_expression(&subroutine_call.expression_list[i]) {
                Some(ec) => {
                    instructions.append(ec.as_str());
                    i = i + 1;
                    proof {
                        let pre = subroutine_call.expression_list@.subrange(0, i as int);
                        assert(pre.drop_last() =~= subroutine_call.expression_list@.subrange(
                            0,
                            i - 1,
                        ));
                        assert(pre.last() == subroutine_call.expression_list@[i - 1]);
                    }
                },
                None => {
                    proof {
                        lemma_args_cut(subroutine_call.expression_list@, i as int, cn, subs, cls);
                    }
                    return None;
                },
            }
        }
        proof {
            assert(subroutine_call.expression_list@.subrange(0, n_exprs as int)
                =~= subroutine_call.expression_list@);
        }
        let n_args = n_exprs as i16;
        match &subroutine_call.caller {
            None => {
                let mut command = self.class_name.clone();
                command.append(".");
                command.append(subroutine_call.subroutine_name.0.as_str());
                let mut r = VM::push("pointer", 0);
                r.append(instructions.as_str());
                let c = VM::call(command.as_str(), n_args + 1);
                r.append(c.as_str());
                proof {
                    assert(command@ =~= cn + "."@ + subroutine_call.subroutine_name.0@);
                }
                Some(r)
            },
            Some(caller) => {
                match self.find_by(caller.as_str()) {
                    Some(symbol) => {
                        match &symbol.var_type {
                            Type::ClassName(tn) => {
                                let segment = symbol.vm_memory_segment();
                                let index = symbol.index();
                                let mut command = tn.clone();
                                command.append(".");
                                command.append(subroutine_call.subroutine_name.0.as_str());
                                let mut r = VM::push(segment.as_str(), index);
                                r.append(instructions.as_str());
                                let c = VM::call(command.as_str(), n_args + 1);
                                r.append(c.as_str());
                                proof {
                                    assert(command@ =~= tn@ + "."@
                                        + subroutine_call.subroutine_name.0@);
                                }
                                Some(r)
                            },
                            _ => None,
                        }
                    },
                    None => {
                        let mut command = caller.clone();
                        command.append(".");
                        command.append(subroutine_call.subroutine_name.0.as_str());
                        let mut r = instructions;
                        let c = VM::call(command.as_str(), n_args);
                        r.append(c.as_str());
                        proof {
                            assert(command@ =~= caller@ + "."@
                                + subroutine_call.subroutine_name.0@);
                        }
                        Some(r)
                    },
                }
            },
        }
    }
}

impl VM {
    /// Compiles a let statement: a plain target pops into its slot;
    /// an indexed target stores through pointer 1 with temp 0 as the
    /// holding slot.
    pub fn compile_let_statement(&self, statement: &LetStatement) -> (r: Option<String>)
        ensures
            match r {
                Some(s) => spec_compile_let(*statement, self.spec_class_name(), self.spec_subs(),
                    self.spec_cls()) == Some(s@),
                None => spec_compile_let(*statement, self.spec_class_name(), self.spec_subs(),
                    self.spec_cls()) is None,
            },
    {
        let symbol = match self.find_by(statement.var_name.0.as_str()) {
            Some(s) => s,
            None => {
                return None;
            },
        };
        let segment = symbol.vm_memory_segment();
        let index = symbol.index();
        match &statement.index_expression {
            Some(ie) => {
                let ic = match self.compile_expression(ie) {
                    Some(c) => c,
                    None => {
                        return None;
                    },
                };
                let rc = match self.compile_expression(&statement.expression) {
                    Some(c) => c,
                    None => {
                        return None;
                    },
                };
                let mut r = VM::push(segment.as_str(), index);
                r.append(ic.as_str());
                let a = VM::op("add");
                r.append(a.as_str());
                r.append(rc.as_str());
                let p1 = VM::pop("temp", 0);
                r.append(p1.as_str());
                let p2 = VM::pop("pointer", 1);
                r.append(p2.as_str());
                let p3 = VM::push("temp", 0);
                r.append(p3.as_str());
                let p4 = VM::pop("that", 0);
                r.append(p4.as_str());
                Some(r)
            },
            None => {
                let rc = match self.compile_expression(&statement.expression) {
                    Some(c) => c,
                    None => {
                        return None;
                    },
                };
                let mut r = rc;
                let p = VM::pop(segment.as_str(), index);
                r.append(p.as_str());
                Some(r)
            },
        }
    }

    /// Compiles an if statement with two fresh labels.
    fn compile_if_statement(&mut self, statement: &IfStatement, return_type: &SubroutineReturnType)
        -> (r: Option<String>)
        requires
            old(self).wf(),
        ensures
            final(self).wf(),
            final(self).spec_class_name() == old(self).spec_class_name(),
            final(self).spec_cls() == old(self).spec_cls(),
            final(self).spec_subs() == old(self).spec_subs(),
            match r {
                Some(s) => spec_compile_if(*statement, *return_type, old(self).spec_class_name(),
                    old(self).spec_subs(), old(self).spec_cls(), old(self).spec_counter())
                    == Some((s@, final(self).spec_counter())),
                None => spec_compile_if(*statement, *return_type, old(self).spec_class_name(),
                    old(self).spec_subs(), old(self).spec_cls(), old(self).spec_counter())
                    is None,
            },
        decreases *statement, 2int,
    {
        if self.label_generator.counter() > 32765 {
            return None;
        }
        let l1 = self.generate_label();
        let l2 = self.generate_label();
        let ec = match self.compile_expression(&statement.expression) {
            Some(c) => c,
            None => {
                return None;
            },
        };
        let tc = match self.compile_statements(&statement.if_statements, return_type) {
            Some(c) => c,
            None => {
                return None;
            },
        };
        let mut r = ec;
        let o = VM::op("not");
        r.append(o.as_str());
        let ig = VM::ifgoto(l1.as_str());
        r.append(ig.as_str());
        r.append(tc.as_str());
        let g = VM::goto(l2.as_str());
        r.append(g.as_str());
        let lb1 = VM::label(l1.as_str());
        r.append(lb1.as_str());
        match &statement.else_statements {
            Some(es) => {
                let elc = match self.compile_statements(es, return_type) {
                    Some(c) => c,
                    None => {
                        return None;
                    },
                };
                r.append(elc.as_str());
            },
            None => {},
        }
        let lb2 = VM::label(l2.as_str());
        r.append(lb2.as_str());
        Some(r)
    }

    /// Compiles a while statement with two fresh labels.
    fn compile_while_statement(
        &mut self,
        statement: &WhileStatement,
        return_type: &SubroutineReturnType,
    ) -> (r: Option<String>)
        requires
            old(self).wf(),
        ensures
            final(self).wf(),
            final(self).spec_class_name() == old(self).spec_class_name(),
            final(self).spec_cls() == old(self).spec_cls(),
            final(self).spec_subs() == old(self).spec_subs(),
            match r {
                Some(s) => spec_compile_while(*statement, *return_type,
                    old(self).spec_class_name(), old(self).spec_subs(), old(self).spec_cls(),
                    old(self).spec_counter()) == Some((s@, final(self).spec_counter())),
                None => spec_compile_while(*statement, *return_type,
                    old(self).spec_class_name(), old(self).spec_subs(), old(self).spec_cls(),
                    old(self).spec_counter()) is None,
            },
        decreases *statement, 2int,
    {
        if self.label_generator.counter() > 32765 {
            return None;
        }
        let l1 = self.generate_label();
        let l2 = self.generate_label();
        let ec = match self.compile_expression(&statement.expression) {
            Some(c) => c,
            None => {
                return None;
            },
        };
        let bc = match self.compile_statements(&statement.statements, return_type) {
            Some(c) => c,
            None => {
                return None;
            },
        };
        let mut r = VM::label(l1.as_str());
        r.append(ec.as_str());
        let o = VM::op("not");
        r.append(o.as_str());
        let ig = VM::ifgoto(l2.as_str());
        r.append(ig.as_str());
        r.append(bc.as_str());
        let g = VM::goto(l1.as_str());
        r.append(g.as_str());
        let lb2 = VM::label(l2.as_str());
        r.append(lb2.as_str());
        Some(r)
    }

    /// Compiles a statement list, minting labels as needed.
    fn compile_statements(&mut self, statements: &Statements, return_type: &SubroutineReturnType)
        -> (r: Option<String>)
        requires
            old(self).wf(),
        ensures
            final(self).wf(),
            final(self).spec_class_name() == old(self).spec_class_name(),
            final(self).spec_cls() == old(self).spec_cls(),
            final(self).spec_subs() == old(self).spec_subs(),
            match r {
                Some(s) => spec_compile_statements(statements.0@, 0, *return_type,
                    old(self).spec_class_name(), old(self).spec_subs(), old(self).spec_cls(),
                    old(self).spec_counter()) == Some((s@, final(self).spec_counter())),
                None => spec_compile_statements(statements.0@, 0, *return_type,
                    old(self).spec_class_name(), old(self).spec_subs(), old(self).spec_cls(),
                    old(self).spec_counter()) is None,
            },
        decreases *statements, 3int,
    {
        let ghost list = statements.0@;
        let ghost cn = old(self).spec_class_name();
        let ghost subs = old(self).spec_subs();
        let ghost cls = old(self).spec_cls();
        let ghost ret = *return_type;
        let ghost c0 = old(self).spec_counter();
        let n = statements.0.len();
        let mut out = String::new();
        let mut i: usize = 0;
        proof {
            if let Some((rest, cf)) = spec_compile_statements(list, 0, ret, cn, subs, cls, c0) {
                assert(out@ + rest =~= rest);
            }
        }
        while i < n
            invariant
                0 <= i <= n,
                n == statements.0@.len(),
                list == statements.0@,
                ret == *return_type,
                self.wf(),
                cn == self.spec_class_name(),
                subs == self.spec_subs(),
                cls == self.spec_cls(),
                cn == old(self).spec_class_name(),
                subs == old(self).spec_subs(),
                cls == old(self).spec_cls(),
                c0 == old(self).spec_counter(),
                match spec_compile_statements(list, i as int, ret, cn, subs, cls,
                    self.spec_counter()) {
                    None => spec_compile_statements(list, 0, ret, cn, subs, cls, c0) is None,
                    Some((rest, cf)) => spec_compile_statements(list, 0, ret, cn, subs, cls, c0)
                        == Some((out@ + rest, cf)),
                },
            decreases n - i,
        {
            let ghost c_before = self.spec_counter();
            let code = match &statements.0[i] {
                Statement::Do(sc) => {
                    match self.compile_subroutine_call(sc) {
                        Some(cc) => {
                            let mut c = cc;
                            let p = VM::pop("temp", 0);
                            c.append(p.as_str());
                            Some(c)
                        },
                        None => None,
                    }
                },
                Statement::Let(l) => self.compile_let_statement(l),
                Statement::If(f) => self.compile_if_statement(f, return_type),
                Statement::While(w) => self.compile_while_statement(w, return_type),
                Statement::Return(e) => {
                    match e {
                        Some(e) => {
                            match self.compile_expression(e) {
                                Some(ec) => {
                                    let mut c = ec;
                                    c.append("return\n");
                                    Some(c)
                                },
                                None => None,
                            }
                        },
                        None => {
                            match return_type {
                                SubroutineReturnType::Void => {
                                    let mut c = VM::push("constant", 0);
                                    c.append("return\n");
                                    Some(c)
                                },
                                _ => Some(String::from_str("return\n")),
                            }
                        },
                    }
                },
            };
            match code {
                Some(c) => {
                    let ghost old_out = out@;
                    out.append(c.as_str());
                    proof {
                        assert(list[i as int] == statements.0@[i as int]);
                        assert(spec_compile_statement(list[i as int], ret, cn, subs, cls,
                            c_before) == Some((c@, self.spec_counter())));
                        if let Some((rest, cf)) = spec_compile_statements(list, i + 1, ret, cn,
                            subs, cls, self.spec_counter()) {
                            assert(old_out + (c@ + rest) =~= (old_out + c@) + rest);
                        }
                    }
                },
                None => {
                    proof {
                        assert(spec_compile_statement(list[i as int], ret, cn, subs, cls,
                            c_before) is None);
                    }
                    return None;
                },
            }
            i = i + 1;
        }
        proof {
            if let Some((rest, cf)) = spec_compile_statements(list, n as int, ret, cn, subs, cls,
                self.spec_counter()) {
                assert(out@ + rest =~= out@);
            }
        }
        Some(out)
    }

    /// Compiles one subroutine: a fresh subroutine scope takes the
    /// implicit `this`, the parameters and the locals; then the header
    /// line, the prologue of its kind, and its statements.
    pub fn compile_subroutine(&mut self, subroutine_dec: &SubroutineDec) -> (r: Option<String>)
        requires
            old(self).wf(),
        ensures
            final(self).wf(),
            final(self).spec_class_name() == old(self).spec_class_name(),
            final(self).spec_cls() == old(self).spec_cls(),
            match r {
                Some(s) => spec_subroutine_scope(final(self).spec_subs(), *subroutine_dec,
                    old(self).spec_class_name()) && (spec_compile_statements(
                    subroutine_dec.body.statements.0@,
                    0,
                    subroutine_dec.return_type,
                    old(self).spec_class_name(),
                    final(self).spec_subs(),
                    old(self).spec_cls(),
                    old(self).spec_counter(),
                ) matches Some((code, cf)) && final(self).spec_counter() == cf && s@
                    == spec_function_header(old(self).spec_class_name(), *subroutine_dec)
                    + spec_prologue(subroutine_dec.subroutine_type, spec_count_kind(
                    old(self).spec_cls(),
                    SymbolKind::Field,
                )) + code),
                None => !spec_subroutine_fits(*subroutine_dec) || (spec_subroutine_scope(
                    final(self).spec_subs(),
                    *subroutine_dec,
                    old(self).spec_class_name(),
                ) && spec_compile_statements(
                    subroutine_dec.body.statements.0@,
                    0,
                    subroutine_dec.return_type,
                    old(self).spec_class_name(),
                    final(self).spec_subs(),
                    old(self).spec_cls(),
                    old(self).spec_counter(),
                ) is None),
            },
    {
        let ghost cn = old(self).spec_class_name();
        self.subroutine_table = SymbolTable::new();
        proof {
            assert(spec_count_kind(Seq::<Symbol>::empty(), SymbolKind::Argument) == 0);
            assert(spec_count_kind(Seq::<Symbol>::empty(), SymbolKind::Local) == 0);
            assert(spec_count_kind(Seq::<Symbol>::empty(), SymbolKind::Field) == 0);
            assert(spec_count_kind(Seq::<Symbol>::empty(), SymbolKind::Static) == 0);
        }
        let ghost base: int = if subroutine_dec.subroutine_type is Method { 1int } else { 0int };
        let ghost ps = subroutine_dec.parameters@;
        let ghost dv = subroutine_dec.body.var_decs@;
        if let SubroutineType::Method = subroutine_dec.subroutine_type {
            let this_type = Type::ClassName(self.class_name.clone());
            self.subroutine_table.push("this", this_type, SymbolKind::Argument);
            proof {
                assert(spec_count_kind(self.spec_subs(), SymbolKind::Argument) == 1);
                assert(spec_count_kind(self.spec_subs(), SymbolKind::Local) == 0);
                assert(self.spec_subs().len() == 1);
                assert(self.spec_subs()[0] == self.spec_subs().last());
            }
        }
        let n_params = subroutine_dec.parameters.len();
        let mut i: usize = 0;
        while i < n_params
            invariant
                0 <= i <= n_params,
                n_params == ps.len(),
                ps == subroutine_dec.parameters@,
                base == (if subroutine_dec.subroutine_type is Method { 1int } else { 0int }),
                self.wf(),
                cn == self.spec_class_name(),
                cn == old(self).spec_class_name(),
                old(self).spec_cls() == self.spec_cls(),
                old(self).spec_counter() == self.spec_counter(),
                spec_count_kind(self.spec_subs(), SymbolKind::Argument) == base + i,
                spec_count_kind(self.spec_subs(), SymbolKind::Local) == 0,
                self.spec_subs().len() == base + i,
                subroutine_dec.subroutine_type is Method ==> (self.spec_subs()[0].var_name@
                    == "this"@ && self.spec_subs()[0].kind == SymbolKind::Argument
                    && self.spec_subs()[0].index == 0 && (self.spec_subs()[0].var_type matches
                    Type::ClassName(n) && n@ == cn)),
                forall|m: int| 0 <= m < i ==> (#[trigger] self.spec_subs()[base + m]).var_name@
                    == ps[m].1.0@ && self.spec_subs()[base + m].var_type == ps[m].0
                    && self.spec_subs()[base + m].kind == SymbolKind::Argument
                    && self.spec_subs()[base + m].index == base + m,
            decreases n_params - i,
        {
            if self.subroutine_table.kind_count(SymbolKind::Argument) >= 32767 {
                proof {
                    assert(!spec_subroutine_fits(*subroutine_dec));
                }
                return None;
            }
            let ghost old_subs = self.spec_subs();
            let parameter = &subroutine_dec.parameters[i];
            self.subroutine_table.push(
                parameter.1.0.as_str(),
                parameter.0.clone_type(),
                SymbolKind::Argument,
            );
            i = i + 1;
            proof {
                lemma_push_keeps_prefix(old_subs, self.spec_subs());
                assert(self.spec_subs()[base + (i - 1)] == self.spec_subs().last());
            }
        }
        let mut n_vars: i16 = 0;
        let n_decs = subroutine_dec.body.var_decs.len();
        let mut k: usize = 0;
        proof {
            assert(dv.subrange(0, 0) =~= Seq::<VarDec>::empty());
        }
        while k < n_decs
            invariant
                0 <= k <= n_decs,
                n_decs == dv.len(),
                dv == subroutine_dec.body.var_decs@,
                ps == subroutine_dec.parameters@,
                base == (if subroutine_dec.subroutine_type is Method { 1int } else { 0int }),
                self.wf(),
                cn == self.spec_class_name(),
                cn == old(self).spec_class_name(),
                old(self).spec_cls() == self.spec_cls(),
                old(self).spec_counter() == self.spec_counter(),
                0 <= n_vars,
                n_vars as int == spec_local_slots(dv.subrange(0, k as int)).len(),
                spec_count_kind(self.spec_subs(), SymbolKind::Local) == n_vars as int,
                self.spec_subs().len() == base + ps.len() + n_vars,
                subroutine_dec.subroutine_type is Method ==> (self.spec_subs()[0].var_name@
                    == "this"@ && self.spec_subs()[0].kind == SymbolKind::Argument
                    && self.spec_subs()[0].index == 0 && (self.spec_subs()[0].var_type matches
                    Type::ClassName(n) && n@ == cn)),
                forall|m: int| 0 <= m < ps.len() ==> (#[trigger] self.spec_subs()[base
                    + m]).var_name@ == ps[m].1.0@ && self.spec_subs()[base + m].var_type
                    == ps[m].0 && self.spec_subs()[base + m].kind == SymbolKind::Argument
                    && self.spec_subs()[base + m].index == base + m,
                forall|m: int| 0 <= m < n_vars as int ==> ({
                    let slots = spec_local_slots(dv.subrange(0, k as int));
                    (#[trigger] self.spec_subs()[base + ps.len() + m]).var_name@ == slots[m].0
                        && self.spec_subs()[base + ps.len() + m].var_type == slots[m].1
                        && self.spec_subs()[base + ps.len() + m].kind == SymbolKind::Local
                        && self.spec_subs()[base + ps.len() + m].index == m
                }),
            decreases n_decs - k,
        {
            let ghost sl_k = spec_local_slots(dv.subrange(0, k as int));
            let var_dec = &subroutine_dec.body.var_decs[k];
            if n_vars >= 32767 {
                proof {
                    lemma_local_slots_len(dv.subrange(0, k as int));
                    assert(dv.subrange(0, k + 1).drop_last() =~= dv.subrange(0, k as int));
                    assert(dv.subrange(0, k + 1).last() == dv[k as int]);
                    lemma_locals_count_prefix(dv, k + 1);
                    assert(!spec_subroutine_fits(*subroutine_dec));
                }
                return None;
            }
            n_vars = n_vars + 1;
            let ghost old_subs = self.spec_subs();
            self.subroutine_table.push(
                var_dec.var_name.0.as_str(),
                var_dec.var_type.clone_type(),
                SymbolKind::Local,
            );
            proof {
                lemma_push_keeps_prefix(old_subs, self.spec_subs());
                assert(self.spec_subs()[base + ps.len() + sl_k.len()]
                    == self.spec_subs().last());
            }
            let n_extra = var_dec.extra_var_names.len();
            let mut j: usize = 0;
            while j < n_extra
                invariant
                    0 <= j <= n_extra,
                    0 <= k < n_decs,
                    n_extra == dv[k as int].extra_var_names@.len(),
                    n_decs == dv.len(),
                    dv == subroutine_dec.body.var_decs@,
                    ps == subroutine_dec.parameters@,
                    base == (if subroutine_dec.subroutine_type is Method { 1int } else { 0int }),
                    sl_k == spec_local_slots(dv.subrange(0, k as int)),
                    self.wf(),
                    cn == self.spec_class_name(),
                    cn == old(self).spec_class_name(),
                    old(self).spec_cls() == self.spec_cls(),
                    old(self).spec_counter() == self.spec_counter(),
                    0 <= n_vars,
                    n_vars as int == sl_k.len() + 1 + j,
                    spec_count_kind(self.spec_subs(), SymbolKind::Local) == n_vars as int,
                    self.spec_subs().len() == base + ps.len() + n_vars,
                    subroutine_dec.subroutine_type is Method ==> (self.spec_subs()[0].var_name@
                        == "this"@ && self.spec_subs()[0].kind == SymbolKind::Argument
                        && self.spec_subs()[0].index == 0 && (self.spec_subs()[0].var_type
                        matches Type::ClassName(n) && n@ == cn)),
                    forall|m: int| 0 <= m < ps.len() ==> (#[trigger] self.spec_subs()[base
                        + m]).var_name@ == ps[m].1.0@ && self.spec_subs()[base + m].var_type
                        == ps[m].0 && self.spec_subs()[base + m].kind == SymbolKind::Argument
                        && self.spec_subs()[base + m].index == base + m,
                    forall|m: int| 0 <= m < sl_k.len() ==> (#[trigger] self.spec_subs()[base
                        + ps.len() + m]).var_name@ == sl_k[m].0 && self.spec_subs()[base
                        + ps.len() + m].var_type == sl_k[m].1 && self.spec_subs()[base + ps.len()
                        + m].kind == SymbolKind::Local && self.spec_subs()[base + ps.len()
                        + m].index == m,
                    self.spec_subs()[base + ps.len() + sl_k.len()].var_name@
                        == dv[k as int].var_name.0@,
                    self.spec_subs()[base + ps.len() + sl_k.len()].var_type
                        == dv[k as int].var_type,
                    self.spec_subs()[base + ps.len() + sl_k.len()].kind == SymbolKind::Local,
                    self.spec_subs()[base + ps.len() + sl_k.len()].index == sl_k.len(),
                    forall|m: int| 0 <= m < j ==> (#[trigger] self.spec_subs()[base + ps.len()
                        + sl_k.len() + 1 + m]).var_name@ == dv[k as int].extra_var_names@[m].0@
                        && self.spec_subs()[base + ps.len() + sl_k.len() + 1 + m].var_type
                        == dv[k as int].var_type && self.spec_subs()[base + ps.len() + sl_k.len()
                        + 1 + m].kind == SymbolKind::Local && self.spec_subs()[base + ps.len()
                        + sl_k.len() + 1 + m].index == sl_k.len() + 1 + m,
                decreases n_extra - j,
            {
                if n_vars >= 32767 {
                    proof {
                        lemma_local_slots_len(dv.subrange(0, k as int));
                        assert(dv.subrange(0, k + 1).drop_last() =~= dv.subrange(0, k as int));
                        assert(dv.subrange(0, k + 1).last() == dv[k as int]);
                        lemma_locals_count_prefix(dv, k + 1);
                        assert(!spec_subroutine_fits(*subroutine_dec));
                    }
                    return None;
                }
                n_vars = n_vars + 1;
                let ghost old_subs = self.spec_subs();
                let extra = &subroutine_dec.body.var_decs[k].extra_var_names[j];
                self.subroutine_table.push(
                    extra.0.as_str(),
                    subroutine_dec.body.var_decs[k].var_type.clone_type(),
                    SymbolKind::Local,
                );
                j = j + 1;
                proof {
                    lemma_push_keeps_prefix(old_subs, self.spec_subs());
                    assert(self.spec_subs()[base + ps.len() + sl_k.len() + 1 + (j - 1)]
                        == self.spec_subs().last());
                }
            }
            k = k + 1;
            proof {
                assert(dv.subrange(0, k as int).drop_last() =~= dv.subrange(0, k - 1));
                assert(dv.subrange(0, k as int).last() == dv[k - 1]);
                let sl_new = spec_local_slots(dv.subrange(0, k as int));
                let d = dv[k - 1];
                assert(sl_new == sl_k + spec_dec_slots(d));
                assert(spec_dec_slots(d).len() == 1 + d.extra_var_names@.len());
                assert forall|m: int| 0 <= m < sl_new.len() implies sl_new[m] == (if m
                    < sl_k.len() {
                    sl_k[m]
                } else if m == sl_k.len() {
                    (d.var_name.0@, d.var_type)
                } else {
                    (d.extra_var_names@[m - sl_k.len() - 1].0@, d.var_type)
                }) by {
                    if m >= sl_k.len() {
                        assert(sl_new[m] == spec_dec_slots(d)[m - sl_k.len()]);
                        if m > sl_k.len() {
                            assert(spec_dec_slots(d)[m - sl_k.len()] == Seq::new(
                                d.extra_var_names@.len(),
                                |x: int| (d.extra_var_names@[x].0@, d.var_type),
                            )[m - sl_k.len() - 1]);
                        }
                    }
                }
                assert forall|m: int| 0 <= m < n_vars as int implies (
                #[trigger] self.spec_subs()[base + ps.len() + m]).var_name@ == sl_new[m].0
                    && self.spec_subs()[base + ps.len() + m].var_type == sl_new[m].1
                    && self.spec_subs()[base + ps.len() + m].kind == SymbolKind::Local
                    && self.spec_subs()[base + ps.len() + m].index == m by {
                    if m < sl_k.len() {
                        assert(self.spec_subs()[base + ps.len() + m].var_name@ == sl_k[m].0);
                    } else if m > sl_k.len() {
                        let jj = m - sl_k.len() - 1;
                        assert(self.spec_subs()[base + ps.len() + sl_k.len() + 1 + jj].var_name@
                            == d.extra_var_names@[jj].0@);
                    }
                }
            }
        }
        proof {
            assert(dv.subrange(0, n_decs as int) =~= dv);
            lemma_local_slots_len(dv);
            assert(spec_subroutine_scope(self.spec_subs(), *subroutine_dec, cn));
        }
        let mut function_name = self.class_name.clone();
        function_name.append(".");
        function_name.append(subroutine_dec.name.0.as_str());
        let mut r = VM::function(function_name.as_str(), n_vars);
        match subroutine_dec.subroutine_type {
            SubroutineType::Constructor => {
                let field_vars_count = self.class_table.field_vars_count();
                let p = VM::push("constant", field_vars_count);
                r.append(p.as_str());
                let c = VM::call("Memory.alloc", 1);
                r.append(c.as_str());
                let q = VM::pop("pointer", 0);
                r.append(q.as_str());
            },
            SubroutineType::Method => {
                let p = VM::push("argument", 0);
                r.append(p.as_str());
                let q = VM::pop("pointer", 0);
                r.append(q.as_str());
            },
            SubroutineType::Function => {},
        }
        proof {
            assert(function_name@ =~= cn + "."@ + subroutine_dec.name.0@);
        }
        let body = match self.compile_statements(
            &subroutine_dec.body.statements,
            &subroutine_dec.return_type,
        ) {
            Some(c) => c,
            None => {
                return None;
            },
        };
        r.append(body.as_str());
        proof {
            assert(r@ =~= spec_function_header(cn, *subroutine_dec) + spec_prologue(
                subroutine_dec.subroutine_type,
                spec_count_kind(self.spec_cls(), SymbolKind::Field),
            ) + body@);
        }
        Some(r)
    }

    /// Compiles a whole class: its variables populate the class scope,
    /// then each subroutine compiles in order, so the output is the
    /// subroutines' code blocks in declaration order, each opening
    /// with its own `function C.m k` header.
    pub fn compile_class(&mut self, class: &Class) -> (r: Option<String>)
        requires
            old(self).wf(),
        ensures
            final(self).wf(),
            final(self).spec_class_name() == old(self).spec_class_name(),
            match r {
                Some(s) => ({
                    let slots = spec_class_slots(class.class_var_decs@);
                    let old_cls = old(self).spec_cls();
                    &&& final(self).spec_cls().len() == old_cls.len() + slots.len()
                    &&& (forall|m: int| 0 <= m < old_cls.len()
                        ==> #[trigger] final(self).spec_cls()[m] == old_cls[m])
                    &&& (forall|m: int| 0 <= m < slots.len()
                        ==> ((#[trigger] final(self).spec_cls()[old_cls.len() + m]).var_name@
                            == slots[m].0
                        && final(self).spec_cls()[old_cls.len() + m].var_type == slots[m].1
                        && final(self).spec_cls()[old_cls.len() + m].kind == slots[m].2))
                    &&& spec_class_code(s@, *class, old(self).spec_class_name(),
                        final(self).spec_cls(), old(self).spec_counter(),
                        final(self).spec_counter())
                    &&& exists|parts: Seq<Seq<char>>|
                        parts.len() == class.subroutine_decs@.len() && s@ == spec_concat(parts)
                            && (forall|i: int| 0 <= i < parts.len() ==> spec_part_has_header(
                            #[trigger] parts[i],
                            old(self).spec_class_name(),
                            class.subroutine_decs@[i],
                        ))
                }),
                None => old(self).spec_cls().len() + spec_class_slots(
                    class.class_var_decs@,
                ).len() >= 32767 || (spec_class_scope_conforms(old(self).spec_cls(),
                    final(self).spec_cls(), *class) && exists|m: int, scope: Seq<Symbol>, c_in: int|
                    #![trigger spec_compile_statements(
                        class.subroutine_decs@[m].body.statements.0@,
                        0,
                        class.subroutine_decs@[m].return_type,
                        old(self).spec_class_name(),
                        scope,
                        final(self).spec_cls(),
                        c_in,
                    )]
                    0 <= m < class.subroutine_decs@.len() && (!spec_subroutine_fits(
                        class.subroutine_decs@[m],
                    ) || (spec_subroutine_scope(scope, class.subroutine_decs@[m],
                        old(self).spec_class_name()) && spec_compile_statements(
                        class.subroutine_decs@[m].body.statements.0@,
                        0,
                        class.subroutine_decs@[m].return_type,
                        old(self).spec_class_name(),
                        scope,
                        final(self).spec_cls(),
                        c_in,
                    ) is None))),
            },
    {
        let ghost cn = old(self).spec_class_name();
        let ghost cv = class.class_var_decs@;
        let ghost cls0 = old(self).spec_cls();
        let n_decs = class.class_var_decs.len();
        let mut d: usize = 0;
        proof {
            assert(cv.subrange(0, 0) =~= Seq::<ClassVarDec>::empty());
        }
        while d < n_decs
            invariant
                0 <= d <= n_decs,
                n_decs == cv.len(),
                cv == class.class_var_decs@,
                cls0 == old(self).spec_cls(),
                self.wf(),
                cn == self.spec_class_name(),
                cn == old(self).spec_class_name(),
                old(self).spec_counter() == self.spec_counter(),
                self.spec_cls().len() == cls0.len() + spec_class_slots(cv.subrange(
                    0,
                    d as int,
                )).len(),
                forall|m: int| 0 <= m < cls0.len() ==> #[trigger] self.spec_cls()[m] == cls0[m],
                forall|m: int| 0 <= m < spec_class_slots(cv.subrange(0, d as int)).len() ==> ({
                    let slots = spec_class_slots(cv.subrange(0, d as int));
                    (#[trigger] self.spec_cls()[cls0.len() + m]).var_name@ == slots[m].0
                        && self.spec_cls()[cls0.len() + m].var_type == slots[m].1
                        && self.spec_cls()[cls0.len() + m].kind == slots[m].2
                }),
            decreases n_decs - d,
        {
            let ghost sl_d = spec_class_slots(cv.subrange(0, d as int));
            let var_dec = &class.class_var_decs[d];
            let kind = var_dec.dec_type.to_symbol_kind();
            if self.class_table.kind_count(kind) >= 32767 {
                proof {
                    lemma_count_kind_le_len(self.spec_cls(), kind);
                    lemma_class_slots_prefix(cv, d as int);
                }
                return None;
            }
            let ghost old_cls = self.spec_cls();
            self.class_table.push(
                var_dec.var_name.0.as_str(),
                var_dec.var_type.clone_type(),
                kind,
            );
            proof {
                lemma_push_keeps_prefix(old_cls, self.spec_cls());
                assert(self.spec_cls()[cls0.len() as int + sl_d.len()] == self.spec_cls().last());
            }
            let n_extra = var_dec.extra_var_names.len();
            let mut j: usize = 0;
            while j < n_extra
                invariant
                    0 <= j <= n_extra,
                    0 <= d < n_decs,
                    n_decs == cv.len(),
                    cv == class.class_var_decs@,
                    cls0 == old(self).spec_cls(),
                    n_extra == cv[d as int].extra_var_names@.len(),
                    sl_d == spec_class_slots(cv.subrange(0, d as int)),
                    self.wf(),
                    cn == self.spec_class_name(),
                    cn == old(self).spec_class_name(),
                    old(self).spec_counter() == self.spec_counter(),
                    self.spec_cls().len() == cls0.len() + sl_d.len() + 1 + j,
                    forall|m: int| 0 <= m < cls0.len() ==> #[trigger] self.spec_cls()[m]
                        == cls0[m],
                    forall|m: int| 0 <= m < sl_d.len() ==> (#[trigger] self.spec_cls()[cls0.len()
                        + m]).var_name@ == sl_d[m].0 && self.spec_cls()[cls0.len() + m].var_type
                        == sl_d[m].1 && self.spec_cls()[cls0.len() + m].kind == sl_d[m].2,
                    self.spec_cls()[cls0.len() as int + sl_d.len()].var_name@
                        == cv[d as int].var_name.0@,
                    self.spec_cls()[cls0.len() as int + sl_d.len()].var_type
                        == cv[d as int].var_type,
                    self.spec_cls()[cls0.len() as int + sl_d.len()].kind == spec_class_slot_kind(
                        cv[d as int].dec_type,
                    ),
                    forall|m: int| 0 <= m < j ==> (#[trigger] self.spec_cls()[cls0.len()
                        + sl_d.len() + 1 + m]).var_name@ == cv[d as int].extra_var_names@[m].0@
                        && self.spec_cls()[cls0.len() + sl_d.len() + 1 + m].var_type
                        == cv[d as int].var_type && self.spec_cls()[cls0.len() + sl_d.len() + 1
                        + m].kind == spec_class_slot_kind(cv[d as int].dec_type),
                decreases n_extra - j,
            {
                let kind = class.class_var_decs[d].dec_type.to_symbol_kind();
                if self.class_table.kind_count(kind) >= 32767 {
                    proof {
                        lemma_count_kind_le_len(self.spec_cls(), kind);
                        assert(cv.subrange(0, d + 1).drop_last() =~= cv.subrange(0, d as int));
                        assert(cv.subrange(0, d + 1).last() == cv[d as int]);
                        assert(spec_class_slots(cv.subrange(0, d + 1)).len() == sl_d.len() + 1
                            + cv[d as int].extra_var_names@.len());
                        lemma_class_slots_prefix(cv, d + 1);
                    }
                    return None;
                }
                let ghost old_cls = self.spec_cls();
                let extra = &class.class_var_decs[d].extra_var_names[j];
                self.class_table.push(
                    extra.0.as_str(),
                    class.class_var_decs[d].var_type.clone_type(),
                    kind,
                );
                j = j + 1;
                proof {
                    lemma_push_keeps_prefix(old_cls, self.spec_cls());
                    assert(self.spec_cls()[cls0.len() as int + sl_d.len() + 1 + (j - 1)]
                        == self.spec_cls().last());
                }
            }
            d = d + 1;
            proof {
                assert(cv.subrange(0, d as int).drop_last() =~= cv.subrange(0, d - 1));
                assert(cv.subrange(0, d as int).last() == cv[d - 1]);
                let sl_new = spec_class_slots(cv.subrange(0, d as int));
                let dec = cv[d - 1];
                assert(sl_new == sl_d + spec_class_dec_slots(dec));
                assert(spec_class_dec_slots(dec).len() == 1 + dec.extra_var_names@.len());
                assert forall|m: int| 0 <= m < sl_new.len() implies (
                #[trigger] self.spec_cls()[cls0.len() + m]).var_name@ == sl_new[m].0
                    && self.spec_cls()[cls0.len() + m].var_type == sl_new[m].1
                    && self.spec_cls()[cls0.len() + m].kind == sl_new[m].2 by {
                    if m < sl_d.len() {
                        assert(self.spec_cls()[cls0.len() + m].var_name@ == sl_d[m].0);
                        assert(sl_new[m] == sl_d[m]);
                    } else {
                        assert(sl_new[m] == spec_class_dec_slots(dec)[m - sl_d.len()]);
                        if m > sl_d.len() {
                            let jj = m - sl_d.len() - 1;
                            assert(spec_class_dec_slots(dec)[m - sl_d.len()] == Seq::new(
                                dec.extra_var_names@.len(),
                                |x: int| (
                                    dec.extra_var_names@[x].0@,
                                    dec.var_type,
                                    spec_class_slot_kind(dec.dec_type),
                                ),
                            )[jj]);
                            assert(self.spec_cls()[cls0.len() + sl_d.len() + 1 + jj].var_name@
                                == dec.extra_var_names@[jj].0@);
                        }
                    }
                }
            }
        }
        proof {
            assert(cv.subrange(0, n_decs as int) =~= cv);
        }
        let ghost cls_done = self.spec_cls();
        let ghost c0 = self.spec_counter();
        let mut instructions = String::new();
        let ghost mut parts: Seq<Seq<char>> = Seq::empty();
        let ghost mut scopes: Seq<Seq<Symbol>> = Seq::empty();
        let ghost mut counters: Seq<int> = seq![c0];
        let n_subs = class.subroutine_decs.len();
        let mut i: usize = 0;
        while i < n_subs
            invariant
                0 <= i <= n_subs,
                n_subs == class.subroutine_decs@.len(),
                self.wf(),
                cn == self.spec_class_name(),
                cn == old(self).spec_class_name(),
                old(self).spec_cls() == cls0,
                self.spec_cls() == cls_done,
                spec_class_scope_conforms(cls0, cls_done, *class),
                parts.len() == i,
                scopes.len() == i,
                counters.len() == i + 1,
                counters[0] == c0,
                counters[i as int] == self.spec_counter(),
                instructions@ == spec_concat(parts),
                forall|m: int| 0 <= m < parts.len() ==> spec_part_has_header(
                    #[trigger] parts[m],
                    cn,
                    class.subroutine_decs@[m],
                ),
                forall|m: int| 0 <= m < parts.len() ==> spec_subroutine_code(
                    #[trigger] parts[m],
                    class.subroutine_decs@[m],
                    cn,
                    scopes[m],
                    cls_done,
                    spec_count_kind(cls_done, SymbolKind::Field),
                    counters[m],
                    counters[m + 1],
                ),
            decreases n_subs - i,
        {
            let ghost c_in = self.spec_counter();
            let code = match self.compile_subroutine(&class.subroutine_decs[i]) {
                Some(c) => c,
                None => {
                    proof {
                        let dec = class.subroutine_decs@[i as int];
                        let scope = self.spec_subs();
                        if spec_subroutine_fits(dec) {
                            assert(spec_subroutine_scope(scope, dec, cn)
                                && spec_compile_statements(dec.body.statements.0@, 0,
                                dec.return_type, cn, scope, cls_done, c_in) is None);
                        }
                    }
                    return None;
                },
            };
            proof {
                let h = spec_function_header(cn, class.subroutine_decs@[i as int]);
                assert(code@.subrange(0, h.len() as int) =~= h);
                let old_parts = parts;
                parts = parts.push(code@);
                scopes = scopes.push(self.spec_subs());
                counters = counters.push(self.spec_counter());
                assert(parts.drop_last() =~= old_parts);
                assert(spec_concat(parts) == spec_concat(old_parts) + code@);
                assert(spec_subroutine_code(code@, class.subroutine_decs@[i as int], cn,
                    self.spec_subs(), cls_done, spec_count_kind(cls_done, SymbolKind::Field),
                    c_in, self.spec_counter()));
            }
            instructions.append(code.as_str());
            i = i + 1;
        }
        proof {
            assert(parts.len() == class.subroutine_decs@.len());
            assert(instructions@ == spec_concat(parts));
            assert(counters[parts.len() as int] == self.spec_counter());
            assert(spec_class_code(instructions@, *class, cn, cls_done, c0,
                self.spec_counter()));
        }
        Some(instructions)
    }

    /// Compiles a whole source file: the file's token stream must
    /// open with a run of well-formed classes, and the output is
    /// those classes' code blocks in order, each class's block made
    /// of its subroutines' blocks behind their `function C.m k`
    /// headers; any lexical, parse, resolution or emission error
    /// yields nothing.
    #[verifier::rlimit(100)]
    #[verifier::spinoff_prover]
    pub fn compile(lines: Vec<String>) -> (r: Option<String>)
        ensures
            r matches Some(s) ==> crate::tokenizer::spec_file_tokens(lines.deep_view(), 0,
                false).1 && exists|
                classes: Seq<Class>,
                rest: Seq<crate::tokenizer::TokenView>,
                parts: Seq<Seq<char>>,
            |
                #![trigger crate::xml::spec_classes_tokens(classes) + rest, spec_concat(parts)]
                crate::tokenizer::spec_file_tokens(lines.deep_view(), 0, false).0
                    == crate::xml::spec_classes_tokens(classes) + rest && parts.len()
                    == classes.len() && s@ == spec_concat(parts) && (rest.len() == 0 || rest[0]
                    != crate::ast::kw("class"@)) && (forall|i: int|
                    0 <= i < classes.len() ==> spec_class_output(
                    #[trigger] parts[i],
                    classes[i],
                )),
            r is None ==> ({
                let ft = crate::tokenizer::spec_file_tokens(lines.deep_view(), 0, false);
                !ft.1 || (exists|classes: Seq<Class>, p: int|
                    #![trigger crate::xml::spec_classes_tokens(classes),
                        crate::ast::spec_rec_class(ft.0, p)]
                    ft.0.subrange(0, p) == crate::xml::spec_classes_tokens(classes) && (
                    crate::ast::spec_rec_class(ft.0, p) is Malformed || (exists|cl: Class, np: int|
                        #![trigger crate::ast::spec_class_tokens(cl), ft.0.subrange(p, np)]
                        crate::ast::spec_rec_class(ft.0, p) == crate::ast::ParseStep::Parsed(np)
                            && ft.0.subrange(p, np) == crate::ast::spec_class_tokens(cl)
                            && spec_class_fails(cl, cl.name.0@))))
            }),
    {
        let ghost file_tokens = crate::tokenizer::spec_file_tokens(lines.deep_view(), 0, false).0;
        let tokenizer = Tokenizer::new(&lines);
        if !tokenizer.is_ok() {
            return None;
        }
        let tokens = tokenizer.into_tokens();
        proof {
            assert(tokens.deep_view() =~= file_tokens);
        }
        let ghost mut classes: Seq<Class> = Seq::empty();
        let ghost mut parts: Seq<Seq<char>> = Seq::empty();
        let mut out = String::new();
        let mut pos: usize = 0;
        let mut done = false;
        while !done
            invariant
                0 <= pos <= tokens.deep_view().len(),
                file_tokens == tokens.deep_view(),
                file_tokens == crate::tokenizer::spec_file_tokens(lines.deep_view(), 0, false).0,
                crate::tokenizer::spec_file_tokens(lines.deep_view(), 0, false).1,
                tokens.deep_view().subrange(0, pos as int)
                    == crate::xml::spec_classes_tokens(classes),
                parts.len() == classes.len(),
                out@ == spec_concat(parts),
                done ==> (pos >= tokens.deep_view().len() || tokens.deep_view()[pos as int]
                    != crate::ast::kw("class"@)),
                forall|i: int| 0 <= i < classes.len() ==> spec_class_output(
                    #[trigger] parts[i],
                    classes[i],
                ),
            decreases tokens.deep_view().len() - pos + (if done { 0int } else { 1int }),
        {
            let (parsed, np) = crate::ast::parse_class(&tokens, pos);
            proof {
                if parsed is None && np == pos {
                    assert(crate::ast::spec_rec_class(tokens.deep_view(), pos as int)
                        == crate::ast::ParseStep::NotHere);
                    assert(pos < tokens.deep_view().len() ==> tokens.deep_view()[pos as int]
                        != crate::ast::kw("class"@));
                }
            }
            match parsed {
                Some(class) => {
                    let mut vm = VM::new(class.name.0.as_str());
                    match vm.compile_class(&class) {
                        Some(code) => {
                            proof {
                                let old_classes = classes;
                                let old_parts = parts;
                                classes = classes.push(class);
                                parts = parts.push(code@);
                                assert(classes.drop_last() =~= old_classes);
                                assert(parts.drop_last() =~= old_parts);
                                assert(tokens.deep_view().subrange(0, np as int)
                                    =~= tokens.deep_view().subrange(0, pos as int)
                                    + tokens.deep_view().subrange(pos as int, np as int));
                            }
                            out.append(code.as_str());
                        },
                        None => {
                            proof {
                                let ft0 = tokens.deep_view();
                                let cn2 = class.name.0@;
                                if spec_class_slots(class.class_var_decs@).len() >= 32767 {
                                    assert(spec_class_fails(class, cn2));
                                } else {
                                    let (m, scope, c_in) = choose|m: int, scope: Seq<Symbol>, c_in: int|
                                        #![trigger spec_compile_statements(
                                            class.subroutine_decs@[m].body.statements.0@,
                                            0,
                                            class.subroutine_decs@[m].return_type,
                                            cn2,
                                            scope,
                                            vm.spec_cls(),
                                            c_in,
                                        )]
                                        0 <= m < class.subroutine_decs@.len() && (
                                        !spec_subroutine_fits(class.subroutine_decs@[m])
                                        || (spec_subroutine_scope(scope, class.subroutine_decs@[m],
                                            cn2) && spec_compile_statements(
                                            class.subroutine_decs@[m].body.statements.0@,
                                            0,
                                            class.subroutine_decs@[m].return_type,
                                            cn2,
                                            scope,
                                            vm.spec_cls(),
                                            c_in,
                                        ) is None));
                                    assert(spec_class_scope_conforms(Seq::empty(), vm.spec_cls(),
                                        class));
                                    assert(spec_class_fails(class, cn2));
                                }
                                assert(crate::ast::spec_rec_class(ft0, pos as int)
                                    == crate::ast::ParseStep::Parsed(np as int));
                                assert(ft0.subrange(pos as int, np as int)
                                    == crate::ast::spec_class_tokens(class));
                            }
                            return None;
                        },
                    }
                    pos = np;
                },
                None => {
                    if np == pos {
                        done = true;
                    } else {
                        proof {
                            assert(crate::ast::spec_rec_class(tokens.deep_view(), pos as int)
                                is Malformed);
                        }
                        return None;
                    }
                },
            }
        }
        proof {
            let rest = tokens.deep_view().subrange(pos as int, tokens.deep_view().len() as int);
            assert(file_tokens =~= crate::xml::spec_classes_tokens(classes) + rest);
            assert(rest.len() > 0 ==> rest[0] == tokens.deep_view()[pos as int]);
        }
        Some(out)
    }
}

impl Type {
    /// A copy of the type.
    pub fn clone_type(&self) -> (r: Type)
        ensures
            r == *self,
    {
        match self {
            Type::Int => Type::Int,
            Type::Char => Type::Char,
            Type::Boolean => Type::Boolean,
            Type::ClassName(n) => Type::ClassName(n.clone()),
        }
    }
}

proof fn lemma_push_keeps_prefix(old_t: Seq<Symbol>, new_t: Seq<Symbol>)
    requires
        new_t.len() == old_t.len() + 1,
        new_t.drop_last() == old_t,
    ensures
        forall|m: int| 0 <= m < old_t.len() ==> new_t[m] == old_t[m],
{
    assert forall|m: int| 0 <= m < old_t.len() implies new_t[m] == old_t[m] by {
        assert(new_t.drop_last()[m] == new_t[m]);
    }
}

/// Each declared name takes one local slot.
pub proof fn lemma_local_slots_len(s: Seq<VarDec>)
    ensures
        spec_local_slots(s).len() == spec_locals_count(s),
    decreases s,
{
    if s.len() > 0 {
        lemma_local_slots_len(s.drop_last());
    }
}

proof fn lemma_count_kind_le_len(s: Seq<Symbol>, k: SymbolKind)
    ensures
        spec_count_kind(s, k) <= s.len(),
    decreases s.len(),
{
    if s.len() > 0 {
        lemma_count_kind_le_len(s.drop_last(), k);
    }
}

proof fn lemma_class_slots_prefix(s: Seq<ClassVarDec>, k: int)
    requires
        0 <= k <= s.len(),
    ensures
        spec_class_slots(s.subrange(0, k)).len() <= spec_class_slots(s).len(),
    decreases s.len() - k,
{
    if k < s.len() {
        assert(s.subrange(0, k + 1).drop_last() =~= s.subrange(0, k));
        assert(s.subrange(0, k + 1).last() == s[k]);
        lemma_class_slots_prefix(s, k + 1);
    } else {
        assert(s.subrange(0, k) =~= s);
    }
}

proof fn lemma_locals_count_prefix(s: Seq<VarDec>, k: int)
    requires
        0 <= k <= s.len(),
    ensures
        spec_locals_count(s.subrange(0, k)) <= spec_locals_count(s),
    decreases s.len() - k,
{
    if k < s.len() {
        assert(s.subrange(0, k + 1).drop_last() =~= s.subrange(0, k));
        assert(s.subrange(0, k + 1).last() == s[k]);
        lemma_locals_count_prefix(s, k + 1);
    } else {
        assert(s.subrange(0, k) =~= s);
    }
}

proof fn lemma_locals_count_nonneg(s: Seq<VarDec>)
    ensures
        spec_locals_count(s) >= 0,
    decreases s,
{
    if s.len() > 0 {
        lemma_locals_count_nonneg(s.drop_last());
    }
}

/// Subroutines with distinct names have distinct `function C.m k`
/// headers, so in a class whose subroutine names are all different —
/// as a well-formed class's are — each header line opens exactly one
/// subroutine's code block. Names hold no space, as identifiers
/// cannot.
pub proof fn lemma_function_headers_distinct(
    cn: Seq<char>,
    dec1: SubroutineDec,
    dec2: SubroutineDec,
)
    requires
        dec1.name.0@ != dec2.name.0@,
        forall|j: int| 0 <= j < dec1.name.0@.len() ==> dec1.name.0@[j] != ' ',
        forall|j: int| 0 <= j < dec2.name.0@.len() ==> dec2.name.0@[j] != ' ',
    ensures
        spec_function_header(cn, dec1) != spec_function_header(cn, dec2),
{
    reveal_strlit(" ");
    reveal_strlit("\n");
    assert(" "@.len() == 1 && " "@[0] == ' ');
    assert("\n"@.len() == 1 && "\n"@[0] == '\n');
    let n1 = dec1.name.0@;
    let n2 = dec2.name.0@;
    let k1 = spec_locals_count(dec1.body.var_decs@);
    let k2 = spec_locals_count(dec2.body.var_decs@);
    lemma_locals_count_nonneg(dec1.body.var_decs@);
    lemma_locals_count_nonneg(dec2.body.var_decs@);
    text::lemma_dec_nat_digits(k1 as nat);
    text::lemma_dec_nat_digits(k2 as nat);
    let a = "function "@ + cn + "."@;
    let b1 = n1 + " "@ + text::spec_dec_int(k1) + "\n"@;
    let b2 = n2 + " "@ + text::spec_dec_int(k2) + "\n"@;
    assert(spec_function_header(cn, dec1) =~= a + b1);
    assert(spec_function_header(cn, dec2) =~= a + b2);
    if spec_function_header(cn, dec1) == spec_function_header(cn, dec2) {
        text::lemma_append_cancel_left(a, b1, b2);
        assert(b1[n1.len() as int] == ' ') by {
            assert((n1 + " "@)[n1.len() as int] == " "@[0]);
            assert(b1[n1.len() as int] == (n1 + " "@)[n1.len() as int]);
        }
        assert(b2[n2.len() as int] == ' ') by {
            assert((n2 + " "@)[n2.len() as int] == " "@[0]);
            assert(b2[n2.len() as int] == (n2 + " "@)[n2.len() as int]);
        }
        if n1.len() == n2.len() {
            assert forall|j: int| 0 <= j < n1.len() implies n1[j] == n2[j] by {
                assert(b1[j] == (n1 + " "@)[j]);
                assert((n1 + " "@)[j] == n1[j]);
                assert(b2[j] == (n2 + " "@)[j]);
                assert((n2 + " "@)[j] == n2[j]);
            }
            assert(n1 =~= n2);
        } else if n1.len() < n2.len() {
            assert(b2[n1.len() as int] == (n2 + " "@)[n1.len() as int]);
            assert((n2 + " "@)[n1.len() as int] == n2[n1.len() as int]);
            assert(n2[n1.len() as int] != ' ');
        } else {
            assert(b1[n2.len() as int] == (n1 + " "@)[n2.len() as int]);
            assert((n1 + " "@)[n2.len() as int] == n1[n2.len() as int]);
            assert(n1[n2.len() as int] != ' ');
        }
    }
}

proof fn lemma_string_chars_cut(s: Seq<char>, i: int)
    requires
        0 <= i < s.len(),
        spec_char_code(s[i]) is None,
    ensures
        spec_string_chars(s) is None,
{
    lemma_string_chars_cut_inner(s, i, s.len() as int);
    assert(s.subrange(0, s.len() as int) =~= s);
}

proof fn lemma_string_chars_cut_inner(s: Seq<char>, i: int, j: int)
    requires
        0 <= i < j <= s.len(),
        spec_char_code(s[i]) is None,
    ensures
        spec_string_chars(s.subrange(0, j)) is None,
    decreases j,
{
    if i == j - 1 {
        assert(s.subrange(0, j).drop_last() =~= s.subrange(0, j - 1));
        assert(s.subrange(0, j).last() == s[j - 1]);
    } else {
        lemma_string_chars_cut_inner(s, i, j - 1);
        assert(s.subrange(0, j).drop_last() =~= s.subrange(0, j - 1));
    }
}

proof fn lemma_op_terms_cut(
    s: Seq<OpTerm>,
    i: int,
    cn: Seq<char>,
    subs: Seq<Symbol>,
    cls: Seq<Symbol>,
)
    requires
        0 <= i < s.len(),
        spec_compile_term(s[i].1, cn, subs, cls) is None,
    ensures
        spec_compile_op_terms(s, cn, subs, cls) is None,
    decreases s.len(),
{
    if i == s.len() - 1 {
    } else {
        lemma_op_terms_cut(s.drop_last(), i, cn, subs, cls);
    }
}

proof fn lemma_args_cut(
    s: Seq<Expression>,
    i: int,
    cn: Seq<char>,
    subs: Seq<Symbol>,
    cls: Seq<Symbol>,
)
    requires
        0 <= i < s.len(),
        spec_compile_expression(s[i], cn, subs, cls) is None,
    ensures
        spec_compile_args(s, cn, subs, cls) is None,
    decreases s.len(),
{
    if i == s.len() - 1 {
    } else {
        lemma_args_cut(s.drop_last(), i, cn, subs, cls);
    }
}

} // verus!
