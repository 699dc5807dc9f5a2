//! The compiler's bookkeeping: XML indentation, the two-scope symbol
//! table with per-kind ordinals, the string-literal character codes,
//! and the per-class label generator.

use vstd::prelude::*;
use vstd::string::StrSliceExecFns;
use vstd::string::StringExecFns;
use crate::ast::Type;
use crate::text;

verus! {

broadcast use vstd::string::group_string_axioms;

/// The current XML indentation, in spaces.
pub struct Padding(usize);

impl View for Padding {
    type V = int;

    closed spec fn view(&self) -> int {
        self.0 as int
    }
}

impl Padding {
    pub fn new() -> (r: Padding)
        ensures
            r@ == 0,
    {
        Padding(0)
    }

    /// The indentation as spaces.
    pub fn to_spaces(&self) -> (r: String)
        ensures
            r@ == Seq::new(self@ as nat, |i: int| ' '),
    {
        let mut r = String::new();
        let mut i: usize = 0;
        while i < self.0
            invariant
                0 <= i <= self.0,
                r@ == Seq::new(i as nat, |k: int| ' '),
            decreases self.0 - i,
        {
            r.push(' ');
            i = i + 1;
            proof {
                assert(r@ =~= Seq::new(i as nat, |k: int| ' '));
            }
        }
        r
    }

    /// One level deeper.
    pub fn increment(&mut self)
        requires
            old(self)@ + 2 <= usize::MAX,
        ensures
            final(self)@ == old(self)@ + 2,
    {
        self.0 = self.0 + 2;
    }

    /// One level back out.
    pub fn decrement(&mut self)
        requires
            old(self)@ >= 2,
        ensures
            final(self)@ == old(self)@ - 2,
    {
        self.0 = self.0 - 2;
    }
}

/// Where a symbol lives: a class field, a per-file static, a local
/// variable, or an argument.
#[derive(Clone, Copy, PartialEq, Eq, Structural)]
pub enum SymbolKind {
    Field,
    Static,
    Local,
    Argument,
}

/// One resolved identifier: its name, type, storage kind and ordinal
/// within that kind.
pub struct Symbol {
    pub var_name: String,
    pub var_type: Type,
    pub kind: SymbolKind,
    pub index: i16,
}

/// The VM segment a symbol of this kind is addressed through.
pub open spec fn spec_kind_segment(k: SymbolKind) -> Seq<char> {
    match k {
        SymbolKind::Field => "this"@,
        SymbolKind::Argument => "argument"@,
        SymbolKind::Local => "local"@,
        SymbolKind::Static => "static"@,
    }
}

impl Symbol {
    /// The VM segment this symbol is addressed through.
    pub fn vm_memory_segment(&self) -> (r: String)
        ensures
            r@ == spec_kind_segment(self.kind),
    {
        match self.kind {
            SymbolKind::Field => "this".to_owned(),
            SymbolKind::Argument => "argument".to_owned(),
            SymbolKind::Local => "local".to_owned(),
            SymbolKind::Static => "static".to_owned(),
        }
    }

    /// The symbol's ordinal within its kind.
    pub fn index(&self) -> (r: i16)
        ensures
            r == self.index,
    {
        self.index
    }

    /// The class a reference-typed symbol points at.
    pub fn class_name(&self) -> (r: String)
        requires
            self.var_type is ClassName,
        ensures
            self.var_type matches Type::ClassName(n) && r@ == n@,
    {
        match &self.var_type {
            Type::ClassName(v) => v.clone(),
            _ => "".to_owned(),
        }
    }
}

/// How many symbols of kind `k` the sequence holds.
pub open spec fn spec_count_kind(s: Seq<Symbol>, k: SymbolKind) -> int
    decreases s.len(),
{
    if s.len() == 0 {
        0
    } else {
        spec_count_kind(s.drop_last(), k) + if s.last().kind == k {
            1int
        } else {
            0int
        }
    }
}

/// The first symbol named `name`, searching front to back.
pub open spec fn spec_find_symbol(s: Seq<Symbol>, name: Seq<char>, i: int) -> Option<Symbol>
    decreases s.len() - i,
{
    if i < 0 || i >= s.len() {
        None
    } else if s[i].var_name@ == name {
        Some(s[i])
    } else {
        spec_find_symbol(s, name, i + 1)
    }
}

struct Counter {
    field_index: i16,
    static_index: i16,
    local_index: i16,
    argument_index: i16,
}

impl Counter {
    spec fn spec_of_kind(&self, k: SymbolKind) -> int {
        match k {
            SymbolKind::Argument => self.argument_index as int,
            SymbolKind::Local => self.local_index as int,
            SymbolKind::Static => self.static_index as int,
            SymbolKind::Field => self.field_index as int,
        }
    }

    fn new() -> (r: Counter)
        ensures
            forall|k: SymbolKind| r.spec_of_kind(k) == 0,
    {
        Counter { field_index: 0, static_index: 0, local_index: 0, argument_index: 0 }
    }

    fn index_by_kind(&self, kind: &SymbolKind) -> (r: i16)
        ensures
            r == self.spec_of_kind(*kind),
    {
        match kind {
            SymbolKind::Argument => self.argument_index,
            SymbolKind::Local => self.local_index,
            SymbolKind::Static => self.static_index,
            SymbolKind::Field => self.field_index,
        }
    }

    fn increment_by_kind(&mut self, kind: &SymbolKind)
        requires
            old(self).spec_of_kind(*kind) < 32767,
        ensures
            final(self).spec_of_kind(*kind) == old(self).spec_of_kind(*kind) + 1,
            forall|k: SymbolKind| k != *kind ==> final(self).spec_of_kind(k)
                == old(self).spec_of_kind(k),
    {
        match kind {
            SymbolKind::Argument => self.argument_index = self.argument_index + 1,
            SymbolKind::Local => self.local_index = self.local_index + 1,
            SymbolKind::Static => self.static_index = self.static_index + 1,
            SymbolKind::Field => self.field_index = self.field_index + 1,
        }
    }
}

/// One scope of symbols; indices per kind are assigned at declaration
/// time, start at 0 and never decrease or repeat.
pub struct SymbolTable {
    counter: Counter,
    symbols: Vec<Symbol>,
}

impl View for SymbolTable {
    type V = Seq<Symbol>;

    closed spec fn view(&self) -> Seq<Symbol> {
        self.symbols@
    }
}

impl SymbolTable {
    /// The counters agree with the recorded symbols, and every symbol
    /// carries the ordinal of its kind at the time it was declared.
    pub closed spec fn wf(&self) -> bool {
        &&& forall|k: SymbolKind| #[trigger] self.counter.spec_of_kind(k) == spec_count_kind(
            self.symbols@,
            k,
        )
        &&& forall|k: SymbolKind| #[trigger] spec_count_kind(self.symbols@, k) <= 32767
        &&& forall|i: int| 0 <= i < self.symbols@.len()
            ==> (#[trigger] self.symbols@[i]).index == spec_count_kind(
            self.symbols@.subrange(0, i),
            self.symbols@[i].kind,
        )
    }

    /// An empty scope.
    pub fn new() -> (r: SymbolTable)
        ensures
            r.wf(),
            r@ == Seq::<Symbol>::empty(),
    {
        let t = SymbolTable { counter: Counter::new(), symbols: Vec::new() };
        proof {
            assert forall|k: SymbolKind| #[trigger] t.counter.spec_of_kind(k)
                == spec_count_kind(t.symbols@, k) by {
                assert(spec_count_kind(t.symbols@, k) == 0);
            }
        }
        t
    }

    /// The first symbol declared under `name`, if any.
    pub fn find_by(&self, name: &str) -> (r: Option<&Symbol>)
        ensures
            match r {
                Some(s) => spec_find_symbol(self@, name@, 0) == Some(*s),
                None => spec_find_symbol(self@, name@, 0) is None,
            },
    {
        let ghost sv = self.symbols@;
        let count = self.symbols.len();
        let mut i: usize = 0;
        while i < count
            invariant
                0 <= i <= count,
                count == self.symbols@.len(),
                sv == self.symbols@,
                spec_find_symbol(sv, name@, 0) == spec_find_symbol(sv, name@, i as int),
            decreases count - i,
        {
            if text::str_eq(self.symbols[i].var_name.as_str(), name) {
                return Some(&self.symbols[i]);
            }
            i = i + 1;
        }
        None
    }

    /// How many symbols of the given kind the scope declares.
    pub fn kind_count(&self, kind: SymbolKind) -> (r: i16)
        requires
            self.wf(),
        ensures
            r == spec_count_kind(self@, kind),
    {
        self.counter.index_by_kind(&kind)
    }

    /// How many fields the scope declares (what a constructor must
    /// allocate).
    pub fn field_vars_count(&self) -> (r: i16)
        requires
            self.wf(),
        ensures
            r == spec_count_kind(self@, SymbolKind::Field),
    {
        self.counter.index_by_kind(&SymbolKind::Field)
    }

    /// Declares one symbol, giving it the next ordinal of its kind.
    pub fn push(&mut self, var_name: &str, var_type: Type, kind: SymbolKind)
        requires
            old(self).wf(),
            spec_count_kind(old(self)@, kind) < 32767,
        ensures
            final(self).wf(),
            final(self)@.len() == old(self)@.len() + 1,
            final(self)@.drop_last() == old(self)@,
            final(self)@.last().var_name@ == var_name@,
            final(self)@.last().var_type == var_type,
            final(self)@.last().kind == kind,
            final(self)@.last().index == spec_count_kind(old(self)@, kind),
    {
        let index = self.counter.index_by_kind(&kind);
        self.counter.increment_by_kind(&kind);
        let symbol = Symbol { var_name: var_name.to_owned(), var_type, kind, index };
        let ghost old_syms = self.symbols@;
        self.symbols.push(symbol);
        proof {
            assert(self.symbols@.drop_last() =~= old_syms);
            assert forall|k: SymbolKind| #[trigger] spec_count_kind(self.symbols@, k)
                == spec_count_kind(old_syms, k) + (if k == kind {
                1int
            } else {
                0int
            }) by {}
            assert forall|i: int| 0 <= i < self.symbols@.len() implies (
            #[trigger] self.symbols@[i]).index == spec_count_kind(
                self.symbols@.subrange(0, i),
                self.symbols@[i].kind,
            ) by {
                if i < old_syms.len() {
                    assert(self.symbols@.subrange(0, i) =~= old_syms.subrange(0, i));
                    assert(old_syms[i].index == spec_count_kind(
                        old_syms.subrange(0, i),
                        old_syms[i].kind,
                    ));
                } else {
                    assert(self.symbols@.subrange(0, i) =~= old_syms);
                }
            }
        }
    }
}

/// The code a string-literal character materializes as: printable
/// ASCII maps to itself, and a few control characters have their own
/// slots past 127.
pub open spec fn spec_char_code(c: char) -> Option<int> {
    if ' ' <= c && c <= '~' {
        Some(c as u32 as int)
    } else if c == '\u{7f}' {
        Some(127)
    } else if c == '\n' {
        Some(128)
    } else if c == '\u{8}' {
        Some(129)
    } else if c == '\u{2190}' {
        Some(130)
    } else if c == '\u{2191}' {
        Some(131)
    } else if c == '\u{2192}' {
        Some(132)
    } else if c == '\u{2193}' {
        Some(133)
    } else {
        None
    }
}

/// The read-only character table used when materializing string
/// literals.
pub struct CharSet {}

impl CharSet {
    pub fn new() -> (r: CharSet) {
        CharSet {}
    }

    /// The code of one character, if the table has it.
    pub fn code(&self, c: char) -> (r: Option<i16>)
        ensures
            match r {
                Some(v) => spec_char_code(c) == Some(v as int),
                None => spec_char_code(c) is None,
            },
    {
        let n = c as u32;
        if 32 <= n && n <= 126 {
            Some(n as i16)
        } else if c == '\u{7f}' {
            Some(127)
        } else if c == '\n' {
            Some(128)
        } else if c == '\u{8}' {
            Some(129)
        } else if c == '\u{2190}' {
            Some(130)
        } else if c == '\u{2191}' {
            Some(131)
        } else if c == '\u{2192}' {
            Some(132)
        } else if c == '\u{2193}' {
            Some(133)
        } else {
            None
        }
    }

    /// The code of one character; only characters in the table may be
    /// asked for.
    pub fn decode(&self, c: char) -> (r: i16)
        requires
            spec_char_code(c) is Some,
        ensures
            spec_char_code(c) == Some(r as int),
    {
        let n = c as u32;
        if 32 <= n && n <= 126 {
            n as i16
        } else if c == '\u{7f}' {
            127
        } else if c == '\n' {
            128
        } else if c == '\u{8}' {
            129
        } else if c == '\u{2190}' {
            130
        } else if c == '\u{2191}' {
            131
        } else if c == '\u{2192}' {
            132
        } else {
            133
        }
    }
}

/// The label a class-scoped generator mints for counter value `k`.
pub open spec fn spec_generated_label(class_name: Seq<char>, k: int) -> Seq<char> {
    text::spec_to_upper(class_name) + "_"@ + text::spec_dec_int(k)
}

/// Mints fresh labels `CLASSNAME_k`, one per call, with a counter that
/// only grows.
pub struct LabelGenerator {
    class_name: String,
    counter: i16,
}

pub struct LabelGeneratorView {
    pub class_name: Seq<char>,
    pub counter: int,
}

impl View for LabelGenerator {
    type V = LabelGeneratorView;

    closed spec fn view(&self) -> LabelGeneratorView {
        LabelGeneratorView { class_name: self.class_name@, counter: self.counter as int }
    }
}

impl LabelGenerator {
    pub fn new(class_name: &str) -> (r: LabelGenerator)
        ensures
            r@.class_name == class_name@,
            r@.counter == 0,
    {
        LabelGenerator { class_name: class_name.to_owned(), counter: 0 }
    }

    /// The counter's current value.
    pub fn counter(&self) -> (r: i16)
        ensures
            r as int == self@.counter,
    {
        self.counter
    }

    /// The next fresh label.
    pub fn generate(&mut self) -> (r: String)
        requires
            0 <= old(self)@.counter < 32767,
        ensures
            final(self)@.class_name == old(self)@.class_name,
            final(self)@.counter == old(self)@.counter + 1,
            r@ == spec_generated_label(old(self)@.class_name, old(self)@.counter),
    {
        let mut label = text::to_upper(self.class_name.as_str());
        label.append("_");
        text::push_dec_i16(self.counter, &mut label);
        self.counter = self.counter + 1;
        label
    }
}

/// Labels minted for different counter values differ, so the labels
/// within one class are unique, and the class-name prefix keeps them
/// apart across classes.
pub proof fn lemma_generated_labels_distinct(class_name: Seq<char>, k1: int, k2: int)
    requires
        0 <= k1,
        0 <= k2,
        k1 != k2,
    ensures
        spec_generated_label(class_name, k1) != spec_generated_label(class_name, k2),
{
    if spec_generated_label(class_name, k1) == spec_generated_label(class_name, k2) {
        text::lemma_append_cancel_left(
            text::spec_to_upper(class_name) + "_"@,
            text::spec_dec_int(k1),
            text::spec_dec_int(k2),
        );
        text::lemma_dec_nat_injective(k1 as nat, k2 as nat);
    }
}

} // verus!
