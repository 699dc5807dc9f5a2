//! The XML rendering of a parsed Jack class, used to inspect the
//! parser's output: every node prints as a tagged block, indented two
//! spaces per level.

use vstd::prelude::*;
use vstd::string::StrSliceExecFns;
use vstd::string::StringExecFns;
use crate::ast::{
    Class, ClassVarDec, ClassVarDecType, Expression, IfStatement, KeywordConstant, LetStatement,
    Op, OpTerm, Parameter, Statement, Statements, SubroutineBody, SubroutineCall, SubroutineDec,
    SubroutineReturnType, SubroutineType, Term, Type, UnaryOp, VarDec, WhileStatement,
};
use crate::text;
use crate::tokenizer::Tokenizer;

verus! {

broadcast use vstd::string::group_string_axioms;

/// One indentation step deeper; at the top of the machine's range the
/// indentation stops growing.
pub open spec fn spec_pad_inc(p: int) -> int {
    if p + 2 <= usize::MAX {
        p + 2
    } else {
        p
    }
}

/// `p` spaces.
pub open spec fn spec_spaces(p: int) -> Seq<char> {
    Seq::new(if p >= 0 { p as nat } else { 0 }, |i: int| ' ')
}

fn pad_inc(p: usize) -> (r: usize)
    ensures
        r as int == spec_pad_inc(p as int),
{
    if p <= usize::MAX - 2 {
        p + 2
    } else {
        p
    }
}

fn spaces(p: usize) -> (r: String)
    ensures
        r@ == spec_spaces(p as int),
{
    let mut r = String::new();
    let mut i: usize = 0;
    while i < p
        invariant
            0 <= i <= p,
            r@ == Seq::new(i as nat, |k: int| ' '),
        decreases p - i,
    {
        r.push(' ');
        i = i + 1;
        proof {
            assert(r@ =~= Seq::new(i as nat, |k: int| ' '));
        }
    }
    proof {
        assert(r@ =~= spec_spaces(p as int));
    }
    r
}

/// The token streams of a run of classes, in order.
pub open spec fn spec_classes_tokens(s: Seq<Class>) -> Seq<crate::tokenizer::TokenView>
    decreases s,
{
    if s.len() == 0 {
        Seq::empty()
    } else {
        spec_classes_tokens(s.drop_last()) + crate::ast::spec_class_tokens(s.last())
    }
}

/// The XML of a run of classes, each rendered from the margin.
pub open spec fn spec_classes_xml(s: Seq<Class>) -> Seq<char>
    decreases s,
{
    if s.len() == 0 {
        Seq::empty()
    } else {
        spec_classes_xml(s.drop_last()) + spec_xml_class(s.last(), 0)
    }
}

pub open spec fn spec_xml_symbol(c: char) -> Seq<char> {
    "<symbol> "@ + seq![c] + " </symbol>\n"@
}

pub open spec fn spec_xml_keyword(k: Seq<char>) -> Seq<char> {
    "<keyword> "@ + k + " </keyword>\n"@
}

pub open spec fn spec_xml_identifier(s: Seq<char>) -> Seq<char> {
    "<identifier> "@ + s + " </identifier>\n"@
}

/// The XML rendering; the markup characters `&`, `<` and `>` print as
/// entities.
pub struct XML;

impl XML {
    /// One symbol line.
    pub fn symbol(symbol: char) -> (r: String)
        ensures
            r@ == spec_xml_symbol(symbol),
    {
        let mut r = String::from_str("<symbol> ");
        r.push(symbol);
        r.append(" </symbol>\n");
        proof {
            assert(r@ =~= spec_xml_symbol(symbol));
        }
        r
    }

    /// One keyword line.
    pub fn keyword(keyword: &str) -> (r: String)
        ensures
            r@ == spec_xml_keyword(keyword@),
    {
        let mut r = String::from_str("<keyword> ");
        r.append(keyword);
        r.append(" </keyword>\n");
        r
    }

    /// One identifier line.
    pub fn identifier(identifier: &str) -> (r: String)
        ensures
            r@ == spec_xml_identifier(identifier@),
    {
        let mut r = String::from_str("<identifier> ");
        r.append(identifier);
        r.append(" </identifier>\n");
        r
    }

    /// Renders every class of a source file as XML: the file's token
    /// stream must open with a run of well-formed classes, and each
    /// prints from the margin; a lexical or parse error yields
    /// nothing.
    #[verifier::rlimit(100)]
    #[verifier::spinoff_prover]
    pub fn compile(lines: Vec<String>) -> (r: Option<String>)
        ensures
            r matches Some(s) ==> crate::tokenizer::spec_file_tokens(lines.deep_view(), 0,
                false).1 && (exists|classes: Seq<Class>, rest: Seq<
                crate::tokenizer::TokenView,
            >|
                crate::tokenizer::spec_file_tokens(lines.deep_view(), 0, false).0
                    == #[trigger] (spec_classes_tokens(classes) + rest) && s@
                    == spec_classes_xml(classes) && (rest.len() == 0 || rest[0] != crate::ast::kw(
                    "class"@,
                ))),
            r is None ==> ({
                let ft = crate::tokenizer::spec_file_tokens(lines.deep_view(), 0, false);
                !ft.1 || (exists|classes: Seq<Class>, p: int|
                    #![trigger spec_classes_tokens(classes), crate::ast::spec_rec_class(ft.0, p)]
                    ft.0.subrange(0, p) == spec_classes_tokens(classes)
                        && crate::ast::spec_rec_class(ft.0, p) is Malformed)
            }),
    {
        let ghost file_tokens = crate::tokenizer::spec_file_tokens(lines.deep_view(), 0, false).0;
        let tokenizer = Tokenizer::new(&lines);
        if !tokenizer.is_ok() {
            return None;
        }
        let tokens = tokenizer.into_tokens();
        proof {
            assert(tokens.deep_view() =~= file_tokens);
        }
        let ghost mut classes: Seq<Class> = Seq::empty();
        let mut out = String::new();
        let mut pos: usize = 0;
        let mut done = false;
        while !done
            invariant
                0 <= pos <= tokens.deep_view().len(),
                file_tokens == tokens.deep_view(),
                file_tokens == crate::tokenizer::spec_file_tokens(lines.deep_view(), 0, false).0,
                crate::tokenizer::spec_file_tokens(lines.deep_view(), 0, false).1,
                tokens.deep_view().subrange(0, pos as int) == spec_classes_tokens(classes),
                out@ == spec_classes_xml(classes),
                done ==> (pos >= tokens.deep_view().len() || tokens.deep_view()[pos as int]
                    != crate::ast::kw("class"@)),
            decreases tokens.deep_view().len() - pos + (if done { 0int } else { 1int }),
        {
            let (parsed, np) = crate::ast::parse_class(&tokens, pos);
            proof {
                if parsed is None && np == pos {
                    assert(crate::ast::spec_rec_class(tokens.deep_view(), pos as int)
                        == crate::ast::ParseStep::NotHere);
                    assert(pos < tokens.deep_view().len() ==> tokens.deep_view()[pos as int]
                        != crate::ast::kw("class"@));
                }
            }
            match parsed {
                Some(class) => {
                    let x = class.to_xml(0);
                    out.append(x.as_str());
                    proof {
                        let old_classes = classes;
                        classes = classes.push(class);
                        assert(classes.drop_last() =~= old_classes);
                        assert(tokens.deep_view().subrange(0, np as int)
                            =~= tokens.deep_view().subrange(0, pos as int)
                            + tokens.deep_view().subrange(pos as int, np as int));
                    }
                    pos = np;
                },
                None => {
                    if np == pos {
                        done = true;
                    } else {
                        proof {
                            assert(crate::ast::spec_rec_class(tokens.deep_view(), pos as int)
                                is Malformed);
                        }
                        return None;
                    }
                },
            }
        }
        proof {
            let rest = tokens.deep_view().subrange(
                pos as int,
                tokens.deep_view().len() as int,
            );
            assert(file_tokens =~= spec_classes_tokens(classes) + rest);
            assert(rest.len() > 0 ==> rest[0] == tokens.deep_view()[pos as int]);
        }
        Some(out)
    }
}

pub open spec fn spec_xml_type(t: Type) -> Seq<char> {
    match t {
        Type::Int => spec_xml_keyword("int"@),
        Type::Char => spec_xml_keyword("char"@),
        Type::Boolean => spec_xml_keyword("boolean"@),
        Type::ClassName(v) => spec_xml_identifier(v@),
    }
}

impl Type {
    /// The type's one XML line.
    pub fn to_xml(&self) -> (r: String)
        ensures
            r@ == spec_xml_type(*self),
    {
        match self {
            Type::Int => XML::keyword("int"),
            Type::Char => XML::keyword("char"),
            Type::Boolean => XML::keyword("boolean"),
            Type::ClassName(v) => XML::identifier(v.as_str()),
        }
    }
}

pub open spec fn spec_xml_cvd_type(d: ClassVarDecType) -> Seq<char> {
    match d {
        ClassVarDecType::Static => spec_xml_keyword("static"@),
        ClassVarDecType::Field => spec_xml_keyword("field"@),
    }
}

impl ClassVarDecType {
    pub fn to_xml(&self) -> (r: String)
        ensures
            r@ == spec_xml_cvd_type(*self),
    {
        match self {
            ClassVarDecType::Static => XML::keyword("static"),
            ClassVarDecType::Field => XML::keyword("field"),
        }
    }
}

pub open spec fn spec_xml_subroutine_type(s: SubroutineType) -> Seq<char> {
    match s {
        SubroutineType::Constructor => spec_xml_keyword("constructor"@),
        SubroutineType::Function => spec_xml_keyword("function"@),
        SubroutineType::Method => spec_xml_keyword("method"@),
    }
}

impl SubroutineType {
    pub fn to_xml(&self) -> (r: String)
        ensures
            r@ == spec_xml_subroutine_type(*self),
    {
        match self {
            SubroutineType::Constructor => XML::keyword("constructor"),
            SubroutineType::Function => XML::keyword("function"),
            SubroutineType::Method => XML::keyword("method"),
        }
    }
}

pub open spec fn spec_xml_return_type(r: SubroutineReturnType) -> Seq<char> {
    match r {
        SubroutineReturnType::Void => spec_xml_keyword("void"@),
        SubroutineReturnType::General(t) => spec_xml_type(t),
    }
}

impl SubroutineReturnType {
    pub fn to_xml(&self) -> (r: String)
        ensures
            r@ == spec_xml_return_type(*self),
    {
        match self {
            SubroutineReturnType::Void => XML::keyword("void"),
            SubroutineReturnType::General(t) => t.to_xml(),
        }
    }
}

pub open spec fn spec_xml_kwconst(k: KeywordConstant) -> Seq<char> {
    match k {
        KeywordConstant::True => spec_xml_keyword("true"@),
        KeywordConstant::False => spec_xml_keyword("false"@),
        KeywordConstant::Null => spec_xml_keyword("null"@),
        KeywordConstant::This => spec_xml_keyword("this"@),
    }
}

impl KeywordConstant {
    pub fn to_xml(&self) -> (r: String)
        ensures
            r@ == spec_xml_kwconst(*self),
    {
        match self {
            KeywordConstant::True => XML::keyword("true"),
            KeywordConstant::False => XML::keyword("false"),
            KeywordConstant::Null => XML::keyword("null"),
            KeywordConstant::This => XML::keyword("this"),
        }
    }
}

pub open spec fn spec_xml_unary(u: UnaryOp) -> Seq<char> {
    match u {
        UnaryOp::Negative => spec_xml_symbol('-'),
        UnaryOp::Not => spec_xml_symbol('~'),
    }
}

impl UnaryOp {
    pub fn to_xml(&self) -> (r: String)
        ensures
            r@ == spec_xml_unary(*self),
    {
        match self {
            UnaryOp::Negative => XML::symbol('-'),
            UnaryOp::Not => XML::symbol('~'),
        }
    }
}

/// The three markup characters print as entities.
pub open spec fn spec_xml_op(o: Op) -> Seq<char> {
    match o {
        Op::Plus => spec_xml_symbol('+'),
        Op::Minus => spec_xml_symbol('-'),
        Op::Multiply => spec_xml_symbol('*'),
        Op::Divide => spec_xml_symbol('/'),
        Op::And => "<symbol> &amp; </symbol>\n"@,
        Op::Or => spec_xml_symbol('|'),
        Op::Lt => "<symbol> &lt; </symbol>\n"@,
        Op::Gt => "<symbol> &gt; </symbol>\n"@,
        Op::Eq => spec_xml_symbol('='),
    }
}

impl Op {
    pub fn to_xml(&self) -> (r: String)
        ensures
            r@ == spec_xml_op(*self),
    {
        match self {
            Op::Plus => XML::symbol('+'),
            Op::Minus => XML::symbol('-'),
            Op::Multiply => XML::symbol('*'),
            Op::Divide => XML::symbol('/'),
            Op::And => "<symbol> &amp; </symbol>\n".to_owned(),
            Op::Or => XML::symbol('|'),
            Op::Lt => "<symbol> &lt; </symbol>\n".to_owned(),
            Op::Gt => "<symbol> &gt; </symbol>\n".to_owned(),
            Op::Eq => XML::symbol('='),
        }
    }
}

/// The `, name` tail of a declaration line.
pub open spec fn spec_xml_extra_names(s: Seq<crate::ast::VarName>, p: int) -> Seq<char>
    decreases s,
{
    if s.len() == 0 {
        Seq::empty()
    } else {
        spec_xml_extra_names(s.drop_last(), p) + spec_spaces(p) + spec_xml_symbol(',')
            + spec_spaces(p) + spec_xml_identifier(s.last().0@)
    }
}

fn xml_extra_names(names: &Vec<crate::ast::VarName>, p: usize) -> (r: String)
    ensures
        r@ == spec_xml_extra_names(names@, p as int),
{
    let mut r = String::new();
    let n = names.len();
    let mut i: usize = 0;
    proof {
        assert(r@ =~= spec_xml_extra_names(names@.subrange(0, 0), p as int));
    }
    while i < n
        invariant
            0 <= i <= n,
            n == names@.len(),
            r@ == spec_xml_extra_names(names@.subrange(0, i as int), p as int),
        decreases n - i,
    {
        let sp = spaces(p);
        r.append(sp.as_str());
        let cm = XML::symbol(',');
        r.append(cm.as_str());
        r.append(sp.as_str());
        let id = XML::identifier(names[i].0.as_str());
        r.append(id.as_str());
        i = i + 1;
        proof {
            assert(names@.subrange(0, i as int).drop_last() =~= names@.subrange(0, i - 1));
            assert(names@.subrange(0, i as int).last() == names@[i - 1]);
        }
    }
    proof {
        assert(names@.subrange(0, n as int) =~= names@);
    }
    r
}

pub open spec fn spec_xml_class_var_dec(d: ClassVarDec, p: int) -> Seq<char> {
    spec_spaces(p) + "<classVarDec>\n"@ + spec_spaces(spec_pad_inc(p)) + spec_xml_cvd_type(
        d.dec_type,
    ) + spec_spaces(spec_pad_inc(p)) + spec_xml_type(d.var_type) + spec_spaces(spec_pad_inc(p))
        + spec_xml_identifier(d.var_name.0@) + spec_xml_extra_names(
        d.extra_var_names@,
        spec_pad_inc(p),
    ) + spec_spaces(spec_pad_inc(p)) + spec_xml_symbol(';') + spec_spaces(p)
        + "</classVarDec>\n"@
}

impl ClassVarDec {
    #[verifier::rlimit(100)]
    #[verifier::spinoff_prover]
    pub fn to_xml(&self, padding: usize) -> (r: String)
        ensures
            r@ == spec_xml_class_var_dec(*self, padding as int),
    {
        let q = pad_inc(padding);
        let mut r = spaces(padding);
        r.append("<classVarDec>\n");
        let sp = spaces(q);
        r.append(sp.as_str());
        let t = self.dec_type.to_xml();
        r.append(t.as_str());
        r.append(sp.as_str());
        let ty = self.var_type.to_xml();
        r.append(ty.as_str());
        r.append(sp.as_str());
        let id = XML::identifier(self.var_name.0.as_str());
        r.append(id.as_str());
        let ex = xml_extra_names(&self.extra_var_names, q);
        r.append(ex.as_str());
        r.append(sp.as_str());
        let sc = XML::symbol(';');
        r.append(sc.as_str());
        let sp0 = spaces(padding);
        r.append(sp0.as_str());
        r.append("</classVarDec>\n");
        r
    }
}

pub open spec fn spec_xml_var_dec(d: VarDec, p: int) -> Seq<char> {
    spec_spaces(p) + "<varDec>\n"@ + spec_spaces(spec_pad_inc(p)) + spec_xml_keyword("var"@)
        + spec_spaces(spec_pad_inc(p)) + spec_xml_type(d.var_type) + spec_spaces(spec_pad_inc(p))
        + spec_xml_identifier(d.var_name.0@) + spec_xml_extra_names(
        d.extra_var_names@,
        spec_pad_inc(p),
    ) + spec_spaces(spec_pad_inc(p)) + spec_xml_symbol(';') + spec_spaces(p) + "</varDec>\n"@
}

impl VarDec {
    #[verifier::rlimit(100)]
    #[verifier::spinoff_prover]
    pub fn to_xml(&self, padding: usize) -> (r: String)
        ensures
            r@ == spec_xml_var_dec(*self, padding as int),
    {
        let q = pad_inc(padding);
        let mut r = spaces(padding);
        r.append("<varDec>\n");
        let sp = spaces(q);
        r.append(sp.as_str());
        let kw = XML::keyword("var");
        r.append(kw.as_str());
        r.append(sp.as_str());
        let ty = self.var_type.to_xml();
        r.append(ty.as_str());
        r.append(sp.as_str());
        let id = XML::identifier(self.var_name.0.as_str());
        r.append(id.as_str());
        let ex = xml_extra_names(&self.extra_var_names, q);
        r.append(ex.as_str());
        r.append(sp.as_str());
        let sc = XML::symbol(';');
        r.append(sc.as_str());
        let sp0 = spaces(padding);
        r.append(sp0.as_str());
        r.append("</varDec>\n");
        r
    }
}

pub open spec fn spec_xml_parameter(pm: Parameter, p: int) -> Seq<char> {
    spec_spaces(p) + spec_xml_type(pm.0) + spec_spaces(p) + spec_xml_identifier(pm.1.0@)
}

impl Parameter {
    pub fn to_xml(&self, padding: usize) -> (r: String)
        ensures
            r@ == spec_xml_parameter(*self, padding as int),
    {
        let mut r = spaces(padding);
        let ty = self.0.to_xml();
        r.append(ty.as_str());
        let sp = spaces(padding);
        r.append(sp.as_str());
        let id = XML::identifier(self.1.0.as_str());
        r.append(id.as_str());
        r
    }
}

/// The parameters, the first bare and the rest behind comma lines.
pub open spec fn spec_xml_parameters(s: Seq<Parameter>, p: int) -> Seq<char>
    decreases s,
{
    if s.len() == 0 {
        Seq::empty()
    } else if s.len() == 1 {
        spec_xml_parameter(s.last(), p)
    } else {
        spec_xml_parameters(s.drop_last(), p) + spec_spaces(p) + spec_xml_symbol(',')
            + spec_xml_parameter(s.last(), p)
    }
}

fn xml_parameters(params: &Vec<Parameter>, p: usize) -> (r: String)
    ensures
        r@ == spec_xml_parameters(params@, p as int),
{
    let mut r = String::new();
    let n = params.len();
    let mut i: usize = 0;
    proof {
        assert(r@ =~= spec_xml_parameters(params@.subrange(0, 0), p as int));
    }
    while i < n
        invariant
            0 <= i <= n,
            n == params@.len(),
            r@ == spec_xml_parameters(params@.subrange(0, i as int), p as int),
        decreases n - i,
    {
        if i > 0 {
            let sp = spaces(p);
            r.append(sp.as_str());
            let cm = XML::symbol(',');
            r.append(cm.as_str());
        }
        let px = params[i].to_xml(p);
        r.append(px.as_str());
        i = i + 1;
        proof {
            assert(params@.subrange(0, i as int).drop_last() =~= params@.subrange(0, i - 1));
            assert(params@.subrange(0, i as int).last() == params@[i - 1]);
        }
    }
    proof {
        assert(params@.subrange(0, n as int) =~= params@);
    }
    r
}

pub open spec fn spec_xml_expression(e: Expression, p: int) -> Seq<char>
    decreases e,
{
    spec_spaces(p) + "<expression>\n"@ + spec_xml_term(e.term, spec_pad_inc(p))
        + spec_xml_op_terms(e.extra_op_terms@, spec_pad_inc(p)) + spec_spaces(p)
        + "</expression>\n"@
}

pub open spec fn spec_xml_op_terms(s: Seq<OpTerm>, p: int) -> Seq<char>
    decreases s,
{
    if s.len() == 0 {
        Seq::empty()
    } else {
        spec_xml_op_terms(s.drop_last(), p) + spec_spaces(p) + spec_xml_op(s.last().0)
            + spec_xml_term(s.last().1, p)
    }
}

pub open spec fn spec_xml_term(t: Term, p: int) -> Seq<char>
    decreases t,
{
    spec_spaces(p) + "<term>\n"@ + (match t {
        Term::IntegerConstant(v) => spec_spaces(spec_pad_inc(p)) + "<integerConstant> "@
            + text::spec_dec_int(v as int) + " </integerConstant>\n"@,
        Term::StringConstant(s) => spec_spaces(spec_pad_inc(p)) + "<stringConstant> "@ + s@
            + " </stringConstant>\n"@,
        Term::KeywordConstant(k) => spec_spaces(spec_pad_inc(p)) + spec_xml_kwconst(k),
        Term::VarName(v) => spec_spaces(spec_pad_inc(p)) + spec_xml_identifier(v@),
        Term::IndexVar(v, e) => spec_spaces(spec_pad_inc(p)) + spec_xml_identifier(v@)
            + spec_spaces(spec_pad_inc(p)) + spec_xml_symbol('[') + spec_xml_expression(
            *e,
            spec_pad_inc(p),
        ) + spec_spaces(spec_pad_inc(p)) + spec_xml_symbol(']'),
        Term::Call(sc) => spec_xml_call(sc, spec_pad_inc(p)),
        Term::Expression(e) => spec_spaces(spec_pad_inc(p)) + spec_xml_symbol('(')
            + spec_xml_expression(*e, spec_pad_inc(p)) + spec_spaces(spec_pad_inc(p))
            + spec_xml_symbol(')'),
        Term::WithUnary(op, inner) => spec_spaces(spec_pad_inc(p)) + spec_xml_unary(op)
            + spec_xml_term(*inner, spec_pad_inc(p)),
    }) + spec_spaces(p) + "</term>\n"@
}

pub open spec fn spec_xml_expressions(s: Seq<Expression>, p: int) -> Seq<char>
    decreases s,
{
    if s.len() == 0 {
        Seq::empty()
    } else if s.len() == 1 {
        spec_xml_expression(s.last(), p)
    } else {
        spec_xml_expressions(s.drop_last(), p) + spec_spaces(p) + spec_xml_symbol(',')
            + spec_xml_expression(s.last(), p)
    }
}

pub open spec fn spec_xml_call(sc: SubroutineCall, p: int) -> Seq<char>
    decreases sc,
{
    (match sc.caller {
        Some(c) => spec_spaces(p) + spec_xml_identifier(c@) + spec_spaces(p) + spec_xml_symbol(
            '.',
        ),
        None => Seq::empty(),
    }) + spec_spaces(p) + spec_xml_identifier(sc.subroutine_name.0@) + spec_spaces(p)
        + spec_xml_symbol('(') + spec_spaces(p) + "<expressionList>\n"@ + spec_xml_expressions(
        sc.expression_list@,
        spec_pad_inc(p),
    ) + spec_spaces(p) + "</expressionList>\n"@ + spec_spaces(p) + spec_xml_symbol(')')
}

impl Expression {
    #[verifier::rlimit(100)]
    #[verifier::spinoff_prover]
    pub fn to_xml(&self, padding: usize) -> (r: String)
        ensures
            r@ == spec_xml_expression(*self, padding as int),
        decreases *self, 1int,
    {
        let q = pad_inc(padding);
        let mut r = spaces(padding);
        r.append("<expression>\n");
        let t = self.term.to_xml(q);
        r.append(t.as_str());
        let n = self.extra_op_terms.len();
        let mut i: usize = 0;
        let ghost base = r@;
        proof {
            assert(base + spec_xml_op_terms(self.extra_op_terms@.subrange(0, 0), q as int)
                =~= base);
        }
        while i < n
            invariant
                0 <= i <= n,
                n == self.extra_op_terms@.len(),
                q as int == spec_pad_inc(padding as int),
                r@ == base + spec_xml_op_terms(self.extra_op_terms@.subrange(0, i as int),
                    q as int),
            decreases n - i,
        {
            let sp = spaces(q);
            r.append(sp.as_str());
            let ox = self.extra_op_terms[i].0.to_xml();
            r.append(ox.as_str());
            let tx = self.extra_op_terms[i].1.to_xml(q);
            r.append(tx.as_str());
            i = i + 1;
            proof {
                let pre = self.extra_op_terms@.subrange(0, i as int);
                assert(pre.drop_last() =~= self.extra_op_terms@.subrange(0, i - 1));
                assert(pre.last() == self.extra_op_terms@[i - 1]);
                assert(r@ =~= base + spec_xml_op_terms(pre, q as int));
            }
        }
        proof {
            assert(self.extra_op_terms@.subrange(0, n as int) =~= self.extra_op_terms@);
        }
        let sp = spaces(padding);
        r.append(sp.as_str());
        r.append("</expression>\n");
        proof {
            assert(r@ =~= spec_xml_expression(*self, padding as int));
        }
        r
    }
}

impl Term {
    #[verifier::rlimit(100)]
    #[verifier::spinoff_prover]
    pub fn to_xml(&self, padding: usize) -> (r: String)
        ensures
            r@ == spec_xml_term(*self, padding as int),
        decreases *self, 0int,
    {
        let q = pad_inc(padding);
        let mut r = spaces(padding);
        r.append("<term>\n");
        match self {
            Term::IntegerConstant(v) => {
                let sp = spaces(q);
                r.append(sp.as_str());
                r.append("<integerConstant> ");
                text::push_dec_i16(*v, &mut r);
                r.append(" </integerConstant>\n");
            },
            Term::StringConstant(s) => {
                let sp = spaces(q);
                r.append(sp.as_str());
                r.append("<stringConstant> ");
                r.append(s.as_str());
                r.append(" </stringConstant>\n");
            },
            Term::KeywordConstant(k) => {
                let sp = spaces(q);
                r.append(sp.as_str());
                let kx = k.to_xml();
                r.append(kx.as_str());
            },
            Term::VarName(v) => {
                let sp = spaces(q);
                r.append(sp.as_str());
                let id = XML::identifier(v.as_str());
                r.append(id.as_str());
            },
            Term::IndexVar(v, e) => {
                let sp = spaces(q);
                r.append(sp.as_str());
                let id = XML::identifier(v.as_str());
                r.append(id.as_str());
                r.append(sp.as_str());
                let ob = XML::symbol('[');
                r.append(ob.as_str());
                let ex = e.to_xml(q);
                r.append(ex.as_str());
                r.append(sp.as_str());
                let cb = XML::symbol(']');
                r.append(cb.as_str());
            },
            Term::Call(sc) => {
                let cx = sc.to_xml(q);
                r.append(cx.as_str());
            },
            Term::Expression(e) => {
                let sp = spaces(q);
                r.append(sp.as_str());
                let op = XML::symbol('(');
                r.append(op.as_str());
                let ex = e.to_xml(q);
                r.append(ex.as_str());
                r.append(sp.as_str());
                let cp = XML::symbol(')');
                r.append(cp.as_str());
            },
            Term::WithUnary(op, inner) => {
                let sp = spaces(q);
                r.append(sp.as_str());
                let ox = op.to_xml();
                r.append(ox.as_str());
                let tx = inner.to_xml(q);
                r.append(tx.as_str());
            },
        }
        let sp0 = spaces(padding);
        r.append(sp0.as_str());
        r.append("</term>\n");
        proof {
            assert(r@ =~= spec_xml_term(*self, padding as int));
        }
        r
    }
}

impl SubroutineCall {
    #[verifier::rlimit(100)]
    #[verifier::spinoff_prover]
    pub fn to_xml(&self, padding: usize) -> (r: String)
        ensures
            r@ == spec_xml_call(*self, padding as int),
        decreases *self, 2int,
    {
        let q = pad_inc(padding);
        let mut r = String::new();
        match &self.caller {
            Some(c) => {
                let sp = spaces(padding);
                r.append(sp.as_str());
                let id = XML::identifier(c.as_str());
                r.append(id.as_str());
                r.append(sp.as_str());
                let dot = XML::symbol('.');
                r.append(dot.as_str());
            },
            None => {
                proof {
                    assert(r@ =~= Seq::<char>::empty());
                }
            },
        }
        let sp = spaces(padding);
        r.append(sp.as_str());
        let id = XML::identifier(self.subroutine_name.0.as_str());
        r.append(id.as_str());
        r.append(sp.as_str());
        let op = XML::symbol('(');
        r.append(op.as_str());
        r.append(sp.as_str());
        r.append("<expressionList>\n");
        let ghost base = r@;
        let n = self.expression_list.len();
        let mut i: usize = 0;
        proof {
            assert(base + spec_xml_expressions(self.expression_list@.subrange(0, 0), q as int)
                =~= base);
        }
        while i < n
            invariant
                0 <= i <= n,
                n == self.expression_list@.len(),
                q as int == spec_pad_inc(padding as int),
                r@ == base + spec_xml_expressions(self.expression_list@.subrange(0, i as int),
                    q as int),
            decreases n - i,
        {
            if i > 0 {
                let spq = spaces(q);
                r.append(spq.as_str());
                let cm = XML::symbol(',');
                r.append(cm.as_str());
            }
            let ex = self.expression_list[i].to_xml(q);
            r.append(ex.as_str());
            i = i + 1;
            proof {
                let pre = self.expression_list@.subrange(0, i as int);
                assert(pre.drop_last() =~= self.expression_list@.subrange(0, i - 1));
                assert(pre.last() == self.expression_list@[i - 1]);
                assert(r@ =~= base + spec_xml_expressions(pre, q as int));
            }
        }
        proof {
            assert(self.expression_list@.subrange(0, n as int) =~= self.expression_list@);
        }
        let sp2 = spaces(padding);
        r.append(sp2.as_str());
        r.append("</expressionList>\n");
        r.append(sp2.as_str());
        let cp = XML::symbol(')');
        r.append(cp.as_str());
        proof {
            assert(r@ =~= spec_xml_call(*self, padding as int));
        }
        r
    }
}

pub open spec fn spec_xml_let(l: LetStatement, p: int) -> Seq<char>
    decreases l, 2int,
{
    spec_spaces(p) + "<letStatement>\n"@ + spec_spaces(spec_pad_inc(p)) + spec_xml_keyword(
        "let"@,
    ) + spec_spaces(spec_pad_inc(p)) + spec_xml_identifier(l.var_name.0@) + (match
        l.index_expression {
        Some(ie) => spec_spaces(spec_pad_inc(p)) + spec_xml_symbol('[') + spec_xml_expression(
            ie,
            spec_pad_inc(p),
        ) + spec_spaces(spec_pad_inc(p)) + spec_xml_symbol(']'),
        None => Seq::empty(),
    }) + spec_spaces(spec_pad_inc(p)) + spec_xml_symbol('=') + spec_xml_expression(
        l.expression,
        spec_pad_inc(p),
    ) + spec_spaces(spec_pad_inc(p)) + spec_xml_symbol(';') + spec_spaces(p)
        + "</letStatement>\n"@
}

pub open spec fn spec_xml_if(f: IfStatement, p: int) -> Seq<char>
    decreases f, 2int,
{
    spec_spaces(p) + "<ifStatement>\n"@ + spec_spaces(spec_pad_inc(p)) + spec_xml_keyword("if"@)
        + spec_spaces(spec_pad_inc(p)) + spec_xml_symbol('(') + spec_xml_expression(
        f.expression,
        spec_pad_inc(p),
    ) + spec_spaces(spec_pad_inc(p)) + spec_xml_symbol(')') + spec_spaces(spec_pad_inc(p))
        + spec_xml_symbol('{') + spec_xml_statements_block(f.if_statements.0@, spec_pad_inc(p))
        + spec_spaces(spec_pad_inc(p)) + spec_xml_symbol('}') + (match f.else_statements {
        Some(es) => spec_spaces(spec_pad_inc(p)) + spec_xml_keyword("else"@) + spec_spaces(
            spec_pad_inc(p),
        ) + spec_xml_symbol('{') + spec_xml_statements_block(es.0@, spec_pad_inc(p))
            + spec_spaces(spec_pad_inc(p)) + spec_xml_symbol('}'),
        None => Seq::empty(),
    }) + spec_spaces(p) + "</ifStatement>\n"@
}

pub open spec fn spec_xml_while(w: WhileStatement, p: int) -> Seq<char>
    decreases w, 2int,
{
    spec_spaces(p) + "<whileStatement>\n"@ + spec_spaces(spec_pad_inc(p)) + spec_xml_keyword(
        "while"@,
    ) + spec_spaces(spec_pad_inc(p)) + spec_xml_symbol('(') + spec_xml_expression(
        w.expression,
        spec_pad_inc(p),
    ) + spec_spaces(spec_pad_inc(p)) + spec_xml_symbol(')') + spec_spaces(spec_pad_inc(p))
        + spec_xml_symbol('{') + spec_xml_statements_block(w.statements.0@, spec_pad_inc(p))
        + spec_spaces(spec_pad_inc(p)) + spec_xml_symbol('}') + spec_spaces(p)
        + "</whileStatement>\n"@
}

pub open spec fn spec_xml_statement(st: Statement, p: int) -> Seq<char>
    decreases st, 3int,
{
    match st {
        Statement::Let(l) => spec_xml_let(l, p),
        Statement::If(f) => spec_xml_if(*f, p),
        Statement::While(w) => spec_xml_while(*w, p),
        Statement::Do(sc) => spec_spaces(p) + "<doStatement>\n"@ + spec_spaces(spec_pad_inc(p))
            + spec_xml_keyword("do"@) + spec_xml_call(sc, spec_pad_inc(p)) + spec_spaces(
            spec_pad_inc(p),
        ) + spec_xml_symbol(';') + spec_spaces(p) + "</doStatement>\n"@,
        Statement::Return(e) => spec_spaces(p) + "<returnStatement>\n"@ + spec_spaces(
            spec_pad_inc(p),
        ) + spec_xml_keyword("return"@) + (match e {
            Some(e) => spec_xml_expression(e, spec_pad_inc(p)),
            None => Seq::empty(),
        }) + spec_spaces(spec_pad_inc(p)) + spec_xml_symbol(';') + spec_spaces(p)
            + "</returnStatement>\n"@,
    }
}

pub open spec fn spec_xml_statement_list(s: Seq<Statement>, p: int) -> Seq<char>
    decreases s, 0int,
{
    if s.len() == 0 {
        Seq::empty()
    } else {
        spec_xml_statement_list(s.drop_last(), p) + spec_xml_statement(s.last(), p)
    }
}

/// The statements block; an empty list prints nothing at all.
pub open spec fn spec_xml_statements_block(s: Seq<Statement>, p: int) -> Seq<char>
    decreases s, 1int,
{
    if s.len() == 0 {
        Seq::empty()
    } else {
        spec_spaces(p) + "<statements>\n"@ + spec_xml_statement_list(s, spec_pad_inc(p))
            + spec_spaces(p) + "</statements>\n"@
    }
}

impl LetStatement {
    #[verifier::rlimit(100)]
    #[verifier::spinoff_prover]
    pub fn to_xml(&self, padding: usize) -> (r: String)
        ensures
            r@ == spec_xml_let(*self, padding as int),
    {
        let q = pad_inc(padding);
        let mut r = spaces(padding);
        r.append("<letStatement>\n");
        let sp = spaces(q);
        r.append(sp.as_str());
        let kw = XML::keyword("let");
        r.append(kw.as_str());
        r.append(sp.as_str());
        let id = XML::identifier(self.var_name.0.as_str());
        r.append(id.as_str());
        match &self.index_expression {
            Some(ie) => {
                r.append(sp.as_str());
                let ob = XML::symbol('[');
                r.append(ob.as_str());
                let ex = ie.to_xml(q);
                r.append(ex.as_str());
                r.append(sp.as_str());
                let cb = XML::symbol(']');
                r.append(cb.as_str());
            },
            None => {},
        }
        r.append(sp.as_str());
        let eq = XML::symbol('=');
        r.append(eq.as_str());
        let ex = self.expression.to_xml(q);
        r.append(ex.as_str());
        r.append(sp.as_str());
        let sc = XML::symbol(';');
        r.append(sc.as_str());
        let sp0 = spaces(padding);
        r.append(sp0.as_str());
        r.append("</letStatement>\n");
        proof {
            assert(r@ =~= spec_xml_let(*self, padding as int));
        }
        r
    }
}

impl IfStatement {
    #[verifier::rlimit(100)]
    #[verifier::spinoff_prover]
    pub fn to_xml(&self, padding: usize) -> (r: String)
        ensures
            r@ == spec_xml_if(*self, padding as int),
        decreases *self, 3int,
    {
        let q = pad_inc(padding);
        let mut r = spaces(padding);
        r.append("<ifStatement>\n");
        let sp = spaces(q);
        r.append(sp.as_str());
        let kw = XML::keyword("if");
        r.append(kw.as_str());
        r.append(sp.as_str());
        let op = XML::symbol('(');
        r.append(op.as_str());
        let ex = self.expression.to_xml(q);
        r.append(ex.as_str());
        r.append(sp.as_str());
        let cp = XML::symbol(')');
        r.append(cp.as_str());
        r.append(sp.as_str());
        let ob = XML::symbol('{');
        r.append(ob.as_str());
        let ts = self.if_statements.to_xml(q);
        r.append(ts.as_str());
        r.append(sp.as_str());
        let cb = XML::symbol('}');
        r.append(cb.as_str());
        match &self.else_statements {
            Some(es) => {
                r.append(sp.as_str());
                let kw2 = XML::keyword("else");
                r.append(kw2.as_str());
                r.append(sp.as_str());
                let ob2 = XML::symbol('{');
                r.append(ob2.as_str());
                let esx = es.to_xml(q);
                r.append(esx.as_str());
                r.append(sp.as_str());
                let cb2 = XML::symbol('}');
                r.append(cb2.as_str());
            },
            None => {},
        }
        let sp0 = spaces(padding);
        r.append(sp0.as_str());
        r.append("</ifStatement>\n");
        proof {
            assert(r@ =~= spec_xml_if(*self, padding as int));
        }
        r
    }
}

impl WhileStatement {
    #[verifier::rlimit(100)]
    #[verifier::spinoff_prover]
    pub fn to_xml(&self, padding: usize) -> (r: String)
        ensures
            r@ == spec_xml_while(*self, padding as int),
        decreases *self, 3int,
    {
        let q = pad_inc(padding);
        let mut r = spaces(padding);
        r.append("<whileStatement>\n");
        let sp = spaces(q);
        r.append(sp.as_str());
        let kw = XML::keyword("while");
        r.append(kw.as_str());
        r.append(sp.as_str());
        let op = XML::symbol('(');
        r.append(op.as_str());
        let ex = self.expression.to_xml(q);
        r.append(ex.as_str());
        r.append(sp.as_str());
        let cp = XML::symbol(')');
        r.append(cp.as_str());
        r.append(sp.as_str());
        let ob = XML::symbol('{');
        r.append(ob.as_str());
        let ts = self.statements.to_xml(q);
        r.append(ts.as_str());
        r.append(sp.as_str());
        let cb = XML::symbol('}');
        r.append(cb.as_str());
        let sp0 = spaces(padding);
        r.append(sp0.as_str());
        r.append("</whileStatement>\n");
        proof {
            assert(r@ =~= spec_xml_while(*self, padding as int));
        }
        r
    }
}

impl Statement {
    #[verifier::rlimit(100)]
    #[verifier::spinoff_prover]
    pub fn to_xml(&self, padding: usize) -> (r: String)
        ensures
            r@ == spec_xml_statement(*self, padding as int),
        decreases *self, 4int,
    {
        let q = pad_inc(padding);
        match self {
            Statement::Let(l) => l.to_xml(padding),
            Statement::If(f) => f.to_xml(padding),
            Statement::While(w) => w.to_xml(padding),
            Statement::Do(sc) => {
                let mut r = spaces(padding);
                r.append("<doStatement>\n");
                let sp = spaces(q);
                r.append(sp.as_str());
                let kw = XML::keyword("do");
                r.append(kw.as_str());
                let cx = sc.to_xml(q);
                r.append(cx.as_str());
                r.append(sp.as_str());
                let semi = XML::symbol(';');
                r.append(semi.as_str());
                let sp0 = spaces(padding);
                r.append(sp0.as_str());
                r.append("</doStatement>\n");
                proof {
                    assert(r@ =~= spec_xml_statement(*self, padding as int));
                }
                r
            },
            Statement::Return(e) => {
                let mut r = spaces(padding);
                r.append("<returnStatement>\n");
                let sp = spaces(q);
                r.append(sp.as_str());
                let kw = XML::keyword("return");
                r.append(kw.as_str());
                match e {
                    Some(e) => {
                        let ex = e.to_xml(q);
                        r.append(ex.as_str());
                    },
                    None => {},
                }
                r.append(sp.as_str());
                let semi = XML::symbol(';');
                r.append(semi.as_str());
                let sp0 = spaces(padding);
                r.append(sp0.as_str());
                r.append("</returnStatement>\n");
                proof {
                    assert(r@ =~= spec_xml_statement(*self, padding as int));
                }
                r
            },
        }
    }
}

impl Statements {
    #[verifier::rlimit(100)]
    #[verifier::spinoff_prover]
    pub fn to_xml(&self, padding: usize) -> (r: String)
        ensures
            r@ == spec_xml_statements_block(self.0@, padding as int),
        decreases *self, 5int,
    {
        let n = self.0.len();
        if n == 0 {
            return String::new();
        }
        let q = pad_inc(padding);
        let mut r = spaces(padding);
        r.append("<statements>\n");
        let ghost base = r@;
        let mut i: usize = 0;
        proof {
            assert(base + spec_xml_statement_list(self.0@.subrange(0, 0), q as int) =~= base);
        }
        while i < n
            invariant
                0 <= i <= n,
                n == self.0@.len(),
                q as int == spec_pad_inc(padding as int),
                r@ == base + spec_xml_statement_list(self.0@.subrange(0, i as int), q as int),
            decreases n - i,
        {
            let sx = self.0[i].to_xml(q);
            r.append(sx.as_str());
            i = i + 1;
            proof {
                let pre = self.0@.subrange(0, i as int);
                assert(pre.drop_last() =~= self.0@.subrange(0, i - 1));
                assert(pre.last() == self.0@[i - 1]);
                assert(r@ =~= base + spec_xml_statement_list(pre, q as int));
            }
        }
        proof {
            assert(self.0@.subrange(0, n as int) =~= self.0@);
        }
        let sp0 = spaces(padding);
        r.append(sp0.as_str());
        r.append("</statements>\n");
        proof {
            assert(r@ =~= spec_xml_statements_block(self.0@, padding as int));
        }
        r
    }
}

pub open spec fn spec_xml_var_decs(s: Seq<VarDec>, p: int) -> Seq<char>
    decreases s,
{
    if s.len() == 0 {
        Seq::empty()
    } else {
        spec_xml_var_decs(s.drop_last(), p) + spec_xml_var_dec(s.last(), p)
    }
}

pub open spec fn spec_xml_body(b: SubroutineBody, p: int) -> Seq<char> {
    spec_spaces(p) + "<subroutineBody>\n"@ + spec_spaces(spec_pad_inc(p)) + spec_xml_symbol('{')
        + spec_xml_var_decs(b.var_decs@, spec_pad_inc(p)) + spec_xml_statements_block(
        b.statements.0@,
        spec_pad_inc(p),
    ) + spec_spaces(spec_pad_inc(p)) + spec_xml_symbol('}') + spec_spaces(p)
        + "</subroutineBody>\n"@
}

impl SubroutineBody {
    #[verifier::rlimit(100)]
    #[verifier::spinoff_prover]
    pub fn to_xml(&self, padding: usize) -> (r: String)
        ensures
            r@ == spec_xml_body(*self, padding as int),
    {
        let q = pad_inc(padding);
        let mut r = spaces(padding);
        r.append("<subroutineBody>\n");
        let sp = spaces(q);
        r.append(sp.as_str());
        let ob = XML::symbol('{');
        r.append(ob.as_str());
        let ghost base = r@;
        let n = self.var_decs.len();
        let mut i: usize = 0;
        proof {
            assert(base + spec_xml_var_decs(self.var_decs@.subrange(0, 0), q as int) =~= base);
        }
        while i < n
            invariant
                0 <= i <= n,
                n == self.var_decs@.len(),
                q as int == spec_pad_inc(padding as int),
                r@ == base + spec_xml_var_decs(self.var_decs@.subrange(0, i as int), q as int),
            decreases n - i,
        {
            let vx = self.var_decs[i].to_xml(q);
            r.append(vx.as_str());
            i = i + 1;
            proof {
                let pre = self.var_decs@.subrange(0, i as int);
                assert(pre.drop_last() =~= self.var_decs@.subrange(0, i - 1));
                assert(pre.last() == self.var_decs@[i - 1]);
                assert(r@ =~= base + spec_xml_var_decs(pre, q as int));
            }
        }
        proof {
            assert(self.var_decs@.subrange(0, n as int) =~= self.var_decs@);
        }
        let st = self.statements.to_xml(q);
        r.append(st.as_str());
        r.append(sp.as_str());
        let cb = XML::symbol('}');
        r.append(cb.as_str());
        let sp0 = spaces(padding);
        r.append(sp0.as_str());
        r.append("</subroutineBody>\n");
        proof {
            assert(r@ =~= spec_xml_body(*self, padding as int));
        }
        r
    }
}

pub open spec fn spec_xml_subroutine(d: SubroutineDec, p: int) -> Seq<char> {
    spec_spaces(p) + "<subroutineDec>\n"@ + spec_spaces(spec_pad_inc(p))
        + spec_xml_subroutine_type(d.subroutine_type) + spec_spaces(spec_pad_inc(p))
        + spec_xml_return_type(d.return_type) + spec_spaces(spec_pad_inc(p))
        + spec_xml_identifier(d.name.0@) + spec_spaces(spec_pad_inc(p)) + spec_xml_symbol('(')
        + spec_spaces(spec_pad_inc(p)) + "<parameterList>\n"@ + spec_xml_parameters(
        d.parameters@,
        spec_pad_inc(spec_pad_inc(p)),
    ) + spec_spaces(spec_pad_inc(p)) + "</parameterList>\n"@ + spec_spaces(spec_pad_inc(p))
        + spec_xml_symbol(')') + spec_xml_body(d.body, spec_pad_inc(p)) + spec_spaces(p)
        + "</subroutineDec>\n"@
}

impl SubroutineDec {
    #[verifier::rlimit(100)]
    #[verifier::spinoff_prover]
    pub fn to_xml(&self, padding: usize) -> (r: String)
        ensures
            r@ == spec_xml_subroutine(*self, padding as int),
    {
        let q = pad_inc(padding);
        let q2 = pad_inc(q);
        let mut r = spaces(padding);
        r.append("<subroutineDec>\n");
        let sp = spaces(q);
        r.append(sp.as_str());
        let tx = self.subroutine_type.to_xml();
        r.append(tx.as_str());
        r.append(sp.as_str());
        let rx = self.return_type.to_xml();
        r.append(rx.as_str());
        r.append(sp.as_str());
        let id = XML::identifier(self.name.0.as_str());
        r.append(id.as_str());
        r.append(sp.as_str());
        let op = XML::symbol('(');
        r.append(op.as_str());
        r.append(sp.as_str());
        r.append("<parameterList>\n");
        let px = xml_parameters(&self.parameters, q2);
        r.append(px.as_str());
        r.append(sp.as_str());
        r.append("</parameterList>\n");
        r.append(sp.as_str());
        let cp = XML::symbol(')');
        r.append(cp.as_str());
        let bx = self.body.to_xml(q);
        r.append(bx.as_str());
        let sp0 = spaces(padding);
        r.append(sp0.as_str());
        r.append("</subroutineDec>\n");
        proof {
            assert(r@ =~= spec_xml_subroutine(*self, padding as int));
        }
        r
    }
}

pub open spec fn spec_xml_class_var_decs(s: Seq<ClassVarDec>, p: int) -> Seq<char>
    decreases s,
{
    if s.len() == 0 {
        Seq::empty()
    } else {
        spec_xml_class_var_decs(s.drop_last(), p) + spec_xml_class_var_dec(s.last(), p)
    }
}

pub open spec fn spec_xml_subroutines(s: Seq<SubroutineDec>, p: int) -> Seq<char>
    decreases s,
{
    if s.len() == 0 {
        Seq::empty()
    } else {
        spec_xml_subroutines(s.drop_last(), p) + spec_xml_subroutine(s.last(), p)
    }
}

pub open spec fn spec_xml_class(c: Class, p: int) -> Seq<char> {
    spec_spaces(p) + "<class>\n"@ + spec_spaces(spec_pad_inc(p)) + spec_xml_keyword("class"@)
        + spec_spaces(spec_pad_inc(p)) + spec_xml_identifier(c.name.0@) + spec_spaces(
        spec_pad_inc(p),
    ) + spec_xml_symbol('{') + spec_xml_class_var_decs(c.class_var_decs@, spec_pad_inc(p))
        + spec_xml_subroutines(c.subroutine_decs@, spec_pad_inc(p)) + spec_spaces(spec_pad_inc(p))
        + spec_xml_symbol('}') + spec_spaces(p) + "</class>\n"@
}

impl Class {
    /// The class and everything under it, as indented XML.
    #[verifier::rlimit(100)]
    pub fn to_xml(&self, padding: usize) -> (r: String)
        ensures
            r@ == spec_xml_class(*self, padding as int),
    {
        let q = pad_inc(padding);
        let mut r = spaces(padding);
        r.append("<class>\n");
        let sp = spaces(q);
        r.append(sp.as_str());
        let kw = XML::keyword("class");
        r.append(kw.as_str());
        r.append(sp.as_str());
        let id = XML::identifier(self.name.0.as_str());
        r.append(id.as_str());
        r.append(sp.as_str());
        let ob = XML::symbol('{');
        r.append(ob.as_str());
        let ghost base = r@;
        let n = self.class_var_decs.len();
        let mut i: usize = 0;
        proof {
            assert(base + spec_xml_class_var_decs(self.class_var_decs@.subrange(0, 0), q as int)
                =~= base);
        }
        while i < n
            invariant
                0 <= i <= n,
                n == self.class_var_decs@.len(),
                q as int == spec_pad_inc(padding as int),
                r@ == base + spec_xml_class_var_decs(self.class_var_decs@.subrange(0, i as int),
                    q as int),
            decreases n - i,
        {
            let vx = self.class_var_decs[i].to_xml(q);
            r.append(vx.as_str());
            i = i + 1;
            proof {
                let pre = self.class_var_decs@.subrange(0, i as int);
                assert(pre.drop_last() =~= self.class_var_decs@.subrange(0, i - 1));
                assert(pre.last() == self.class_var_decs@[i - 1]);
                assert(r@ =~= base + spec_xml_class_var_decs(pre, q as int));
            }
        }
        proof {
            assert(self.class_var_decs@.subrange(0, n as int) =~= self.class_var_decs@);
        }
        let ghost base2 = r@;
        let m = self.subroutine_decs.len();
        let mut k: usize = 0;
        proof {
            assert(base2 + spec_xml_subroutines(self.subroutine_decs@.subrange(0, 0), q as int)
                =~= base2);
        }
        while k < m
            invariant
                0 <= k <= m,
                m == self.subroutine_decs@.len(),
                q as int == spec_pad_inc(padding as int),
                r@ == base2 + spec_xml_subroutines(self.subroutine_decs@.subrange(0, k as int),
                    q as int),
            decreases m - k,
        {
            let sx = self.subroutine_decs[k].to_xml(q);
            r.append(sx.as_str());
            k = k + 1;
            proof {
                let pre = self.subroutine_decs@.subrange(0, k as int);
                assert(pre.drop_last() =~= self.subroutine_decs@.subrange(0, k - 1));
                assert(pre.last() == self.subroutine_decs@[k - 1]);
                assert(r@ =~= base2 + spec_xml_subroutines(pre, q as int));
            }
        }
        proof {
            assert(self.subroutine_decs@.subrange(0, m as int) =~= self.subroutine_decs@);
        }
        r.append(sp.as_str());
        let cb = XML::symbol('}');
        r.append(cb.as_str());
        let sp0 = spaces(padding);
        r.append(sp0.as_str());
        r.append("</class>\n");
        proof {
            assert(r@ =~= spec_xml_class(*self, padding as int));
        }
        r
    }
}

} // verus!
