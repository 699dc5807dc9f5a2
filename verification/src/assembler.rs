//! The Hack assembler: parses symbolic assembly lines into instructions,
//! resolves symbols in two passes, and encodes each instruction as a
//! 16-bit word.

use vstd::prelude::*;
use vstd::string::StrSliceExecFns;
use vstd::string::StringExecFns;
use crate::text;

verus! {

broadcast use vstd::string::group_string_axioms;

/// One assembly line: an address load `@x`, a label definition `(x)`,
/// or a compute instruction `dest=comp;jump`.
pub enum Instruction {
    A(String),
    L(String),
    C { dest: Option<String>, comp: String, jump: Option<String> },
}

/// The mathematical shape of an instruction: its fields as character
/// sequences.
pub enum InstructionView {
    A(Seq<char>),
    L(Seq<char>),
    C { dest: Option<Seq<char>>, comp: Seq<char>, jump: Option<Seq<char>> },
}

impl View for Instruction {
    type V = InstructionView;

    open spec fn view(&self) -> InstructionView {
        match self {
            Instruction::A(s) => InstructionView::A(s@),
            Instruction::L(s) => InstructionView::L(s@),
            Instruction::C { dest, comp, jump } => InstructionView::C {
                dest: match dest {
                    Some(d) => Some(d@),
                    None => None,
                },
                comp: comp@,
                jump: match jump {
                    Some(j) => Some(j@),
                    None => None,
                },
            },
        }
    }
}

/// The seven-bit code of a `comp` mnemonic, `a c1..c6` as one number.
pub open spec fn spec_comp_bits(c: Seq<char>) -> Option<int> {
    if c == "0"@ { Some(0b0101010) }
    else if c == "1"@ { Some(0b0111111) }
    else if c == "-1"@ { Some(0b0111010) }
    else if c == "D"@ { Some(0b0001100) }
    else if c == "A"@ { Some(0b0110000) }
    else if c == "M"@ { Some(0b1110000) }
    else if c == "!D"@ { Some(0b0001101) }
    else if c == "!A"@ { Some(0b0110001) }
    else if c == "!M"@ { Some(0b1110001) }
    else if c == "-D"@ { Some(0b0001111) }
    else if c == "-A"@ { Some(0b0110011) }
    else if c == "-M"@ { Some(0b1110011) }
    else if c == "D+1"@ || c == "1+D"@ { Some(0b0011111) }
    else if c == "A+1"@ || c == "1+A"@ { Some(0b0110111) }
    else if c == "M+1"@ || c == "1+M"@ { Some(0b1110111) }
    else if c == "D-1"@ { Some(0b0001110) }
    else if c == "A-1"@ { Some(0b0110010) }
    else if c == "M-1"@ { Some(0b1110010) }
    else if c == "D+A"@ || c == "A+D"@ { Some(0b0000010) }
    else if c == "D+M"@ || c == "M+D"@ { Some(0b1000010) }
    else if c == "D-A"@ { Some(0b0010011) }
    else if c == "D-M"@ { Some(0b1010011) }
    else if c == "A-D"@ { Some(0b0000111) }
    else if c == "M-D"@ { Some(0b1000111) }
    else if c == "D&A"@ || c == "A&D"@ { Some(0b0000000) }
    else if c == "D&M"@ || c == "M&D"@ { Some(0b1000000) }
    else if c == "D|A"@ || c == "A|D"@ { Some(0b0010101) }
    else if c == "D|M"@ || c == "M|D"@ { Some(0b1010101) }
    else { None }
}

/// The three-bit code of a `dest` mnemonic; a missing field is 0.
pub open spec fn spec_dest_bits(d: Option<Seq<char>>) -> Option<int> {
    match d {
        None => Some(0b000),
        Some(v) => {
            if v == "M"@ { Some(0b001) }
            else if v == "D"@ { Some(0b010) }
            else if v == "DM"@ || v == "MD"@ { Some(0b011) }
            else if v == "A"@ { Some(0b100) }
            else if v == "AM"@ || v == "MA"@ { Some(0b101) }
            else if v == "AD"@ || v == "DA"@ { Some(0b110) }
            else if v == "ADM"@ || v == "AMD"@ || v == "DAM"@ || v == "DMA"@
                || v == "MAD"@ || v == "MDA"@ { Some(0b111) }
            else { None }
        },
    }
}

/// The three-bit code of a `jump` mnemonic; a missing field is 0.
pub open spec fn spec_jump_bits(j: Option<Seq<char>>) -> Option<int> {
    match j {
        None => Some(0b000),
        Some(v) => {
            if v == "JGT"@ { Some(0b001) }
            else if v == "JEQ"@ { Some(0b010) }
            else if v == "JGE"@ { Some(0b011) }
            else if v == "JLT"@ { Some(0b100) }
            else if v == "JNE"@ { Some(0b101) }
            else if v == "JLE"@ { Some(0b110) }
            else if v == "JMP"@ { Some(0b111) }
            else { None }
        },
    }
}

/// The unsigned 16-bit pattern of a C-instruction:
/// `111 a c1..c6 d1 d2 d3 j1 j2 j3`.
pub open spec fn spec_c_word(cb: int, db: int, jb: int) -> int {
    0b1110000000000000 + cb * 64 + db * 8 + jb
}

fn comp_code(c: &str) -> (r: Option<u16>)
    ensures
        match r {
            Some(b) => spec_comp_bits(c@) == Some(b as int),
            None => spec_comp_bits(c@) is None,
        },
{
    if text::str_eq(c, "0") { Some(0b0101010) }
    else if text::str_eq(c, "1") { Some(0b0111111) }
    else if text::str_eq(c, "-1") { Some(0b0111010) }
    else if text::str_eq(c, "D") { Some(0b0001100) }
    else if text::str_eq(c, "A") { Some(0b0110000) }
    else if text::str_eq(c, "M") { Some(0b1110000) }
    else if text::str_eq(c, "!D") { Some(0b0001101) }
    else if text::str_eq(c, "!A") { Some(0b0110001) }
    else if text::str_eq(c, "!M") { Some(0b1110001) }
    else if text::str_eq(c, "-D") { Some(0b0001111) }
    else if text::str_eq(c, "-A") { Some(0b0110011) }
    else if text::str_eq(c, "-M") { Some(0b1110011) }
    else if text::str_eq(c, "D+1") || text::str_eq(c, "1+D") { Some(0b0011111) }
    else if text::str_eq(c, "A+1") || text::str_eq(c, "1+A") { Some(0b0110111) }
    else if text::str_eq(c, "M+1") || text::str_eq(c, "1+M") { Some(0b1110111) }
    else if text::str_eq(c, "D-1") { Some(0b0001110) }
    else if text::str_eq(c, "A-1") { Some(0b0110010) }
    else if text::str_eq(c, "M-1") { Some(0b1110010) }
    else if text::str_eq(c, "D+A") || text::str_eq(c, "A+D") { Some(0b0000010) }
    else if text::str_eq(c, "D+M") || text::str_eq(c, "M+D") { Some(0b1000010) }
    else if text::str_eq(c, "D-A") { Some(0b0010011) }
    else if text::str_eq(c, "D-M") { Some(0b1010011) }
    else if text::str_eq(c, "A-D") { Some(0b0000111) }
    else if text::str_eq(c, "M-D") { Some(0b1000111) }
    else if text::str_eq(c, "D&A") || text::str_eq(c, "A&D") { Some(0b0000000) }
    else if text::str_eq(c, "D&M") || text::str_eq(c, "M&D") { Some(0b1000000) }
    else if text::str_eq(c, "D|A") || text::str_eq(c, "A|D") { Some(0b0010101) }
    else if text::str_eq(c, "D|M") || text::str_eq(c, "M|D") { Some(0b1010101) }
    else { None }
}

fn dest_code(d: &Option<String>) -> (r: Option<u16>)
    ensures
        match r {
            Some(b) => spec_dest_bits(view_opt_string(d)) == Some(b as int),
            None => spec_dest_bits(view_opt_string(d)) is None,
        },
{
    match d {
        None => Some(0b000),
        Some(v) => {
            let v = v.as_str();
            if text::str_eq(v, "M") { Some(0b001) }
            else if text::str_eq(v, "D") { Some(0b010) }
            else if text::str_eq(v, "DM") || text::str_eq(v, "MD") { Some(0b011) }
            else if text::str_eq(v, "A") { Some(0b100) }
            else if text::str_eq(v, "AM") || text::str_eq(v, "MA") { Some(0b101) }
            else if text::str_eq(v, "AD") || text::str_eq(v, "DA") { Some(0b110) }
            else if text::str_eq(v, "ADM") || text::str_eq(v, "AMD") || text::str_eq(v, "DAM")
                || text::str_eq(v, "DMA") || text::str_eq(v, "MAD") || text::str_eq(v, "MDA") {
                Some(0b111)
            }
            else { None }
        },
    }
}

fn jump_code(j: &Option<String>) -> (r: Option<u16>)
    ensures
        match r {
            Some(b) => spec_jump_bits(view_opt_string(j)) == Some(b as int),
            None => spec_jump_bits(view_opt_string(j)) is None,
        },
{
    match j {
        None => Some(0b000),
        Some(v) => {
            let v = v.as_str();
            if text::str_eq(v, "JGT") { Some(0b001) }
            else if text::str_eq(v, "JEQ") { Some(0b010) }
            else if text::str_eq(v, "JGE") { Some(0b011) }
            else if text::str_eq(v, "JLT") { Some(0b100) }
            else if text::str_eq(v, "JNE") { Some(0b101) }
            else if text::str_eq(v, "JLE") { Some(0b110) }
            else if text::str_eq(v, "JMP") { Some(0b111) }
            else { None }
        },
    }
}

pub open spec fn view_opt_string(o: &Option<String>) -> Option<Seq<char>> {
    match o {
        Some(s) => Some(s@),
        None => None,
    }
}

/// A symbol dictionary: a list of (name, address) pairs with distinct
/// names, standing in for a hash map keyed by symbol names.
pub struct SymbolMap {
    entries: Vec<(String, i16)>,
}

pub open spec fn wf_entries(s: Seq<(String, i16)>) -> bool {
    forall|i: int, j: int| 0 <= i < j < s.len() ==> (#[trigger] s[i]).0@ != (#[trigger] s[j]).0@
}

pub open spec fn entries_map(s: Seq<(String, i16)>) -> Map<Seq<char>, i16>
    decreases s.len(),
{
    if s.len() == 0 {
        Map::empty()
    } else {
        entries_map(s.drop_last()).insert(s.last().0@, s.last().1)
    }
}

proof fn lemma_entries_map_index(s: Seq<(String, i16)>, i: int)
    requires
        wf_entries(s),
        0 <= i < s.len(),
    ensures
        entries_map(s).contains_key(s[i].0@),
        entries_map(s)[s[i].0@] == s[i].1,
    decreases s.len(),
{
    if i < s.len() - 1 {
        assert(wf_entries(s.drop_last()));
        lemma_entries_map_index(s.drop_last(), i);
        assert(s[i].0@ != s.last().0@);
    }
}

proof fn lemma_entries_map_absent(s: Seq<(String, i16)>, k: Seq<char>)
    requires
        forall|i: int| 0 <= i < s.len() ==> (#[trigger] s[i]).0@ != k,
    ensures
        !entries_map(s).contains_key(k),
    decreases s.len(),
{
    if s.len() > 0 {
        lemma_entries_map_absent(s.drop_last(), k);
    }
}

impl View for SymbolMap {
    type V = Map<Seq<char>, i16>;

    closed spec fn view(&self) -> Map<Seq<char>, i16> {
        entries_map(self.entries@)
    }
}

impl SymbolMap {
    /// The names in the dictionary are distinct.
    pub closed spec fn wf(&self) -> bool {
        wf_entries(self.entries@)
    }

    /// An empty dictionary.
    pub fn new() -> (r: SymbolMap)
        ensures
            r.wf(),
            r@ == Map::<Seq<char>, i16>::empty(),
    {
        SymbolMap { entries: Vec::new() }
    }

    /// The address bound to `name`, if any.
    pub fn get(&self, name: &str) -> (r: Option<i16>)
        requires
            self.wf(),
        ensures
            match r {
                Some(v) => self@.contains_key(name@) && self@[name@] == v,
                None => !self@.contains_key(name@),
            },
    {
        let n = self.entries.len();
        let mut i: usize = 0;
        while i < n
            invariant
                0 <= i <= n,
                n == self.entries.len(),
                self.wf(),
                forall|k: int| 0 <= k < i ==> (#[trigger] self.entries@[k]).0@ != name@,
            decreases n - i,
        {
            if text::str_eq(self.entries[i].0.as_str(), name) {
                proof {
                    lemma_entries_map_index(self.entries@, i as int);
                }
                return Some(self.entries[i].1);
            }
            i = i + 1;
        }
        proof {
            lemma_entries_map_absent(self.entries@, name@);
        }
        None
    }

    /// Binds `name` to `value` unless `name` is already bound; the
    /// first binding of a name wins.
    pub fn insert_if_absent(&mut self, name: &str, value: i16)
        requires
            old(self).wf(),
        ensures
            final(self).wf(),
            final(self)@ == if old(self)@.contains_key(name@) {
                old(self)@
            } else {
                old(self)@.insert(name@, value)
            },
    {
        match self.get(name) {
            Some(_) => {},
            None => {
                proof {
                    if exists|i: int|
                        0 <= i < self.entries@.len() && (#[trigger] self.entries@[i]).0@
                            == name@ {
                        let i = choose|i: int|
                            0 <= i < self.entries@.len() && (#[trigger] self.entries@[i]).0@
                                == name@;
                        lemma_entries_map_index(self.entries@, i);
                    }
                }
                let pair = (name.to_owned(), value);
                let ghost old_entries = self.entries@;
                self.entries.push(pair);
                proof {
                    assert(self.entries@.drop_last() =~= old_entries);
                }
            },
        }
    }
}

/// A line with any `//` comment removed, then trimmed.
pub open spec fn spec_clean_line(line: Seq<char>) -> Seq<char> {
    let stripped = match text::spec_find(line, "//"@) {
        Some(p) => line.subrange(0, p),
        None => line,
    };
    text::spec_trim(stripped)
}

/// What one assembly line parses to: nothing for a blank or comment
/// line, else an A-, L- or C-instruction split at the first `=` and
/// the first `;`.
pub open spec fn spec_instr(line: Seq<char>) -> Option<InstructionView> {
    let t = spec_clean_line(line);
    if t.len() == 0 {
        None
    } else if t[0] == '@' {
        Some(InstructionView::A(t.drop_first()))
    } else if t[0] == '(' && t.last() == ')' {
        Some(InstructionView::L(t.subrange(1, t.len() - 1)))
    } else {
        match text::spec_find(t, "="@) {
            Some(p) => {
                let dest = t.subrange(0, p);
                let rest = t.subrange(p + 1, t.len() as int);
                match text::spec_find(rest, ";"@) {
                    Some(q) => Some(InstructionView::C {
                        dest: Some(dest),
                        comp: rest.subrange(0, q),
                        jump: Some(rest.subrange(q + 1, rest.len() as int)),
                    }),
                    None => Some(InstructionView::C { dest: Some(dest), comp: rest, jump: None }),
                }
            },
            None => {
                match text::spec_find(t, ";"@) {
                    Some(q) => Some(InstructionView::C {
                        dest: None,
                        comp: t.subrange(0, q),
                        jump: Some(t.subrange(q + 1, t.len() as int)),
                    }),
                    None => Some(InstructionView::C { dest: None, comp: t, jump: None }),
                }
            },
        }
    }
}

/// Parses one assembly line; comment-only and blank lines give nothing.
pub fn line_to_instruction(line: &str) -> (r: Option<Instruction>)
    ensures
        match r {
            Some(ins) => spec_instr(line@) == Some(ins@),
            None => spec_instr(line@) is None,
        },
{
    proof {
        reveal_strlit("//");
        reveal_strlit("=");
        reveal_strlit(";");
    }
    let stripped = match text::find(line, "//") {
        Some(p) => line.substring_char(0, p),
        None => line,
    };
    let t = text::trim(stripped);
    let len = t.unicode_len();
    if len == 0 {
        return None;
    }
    let first = t.get_char(0);
    if first == '@' {
        let symbol = t.substring_char(1, len).to_owned();
        return Some(Instruction::A(symbol));
    }
    if first == '(' && t.get_char(len - 1) == ')' {
        let symbol = t.substring_char(1, len - 1).to_owned();
        return Some(Instruction::L(symbol));
    }
    match text::find(t, "=") {
        Some(p) => {
            let dest = t.substring_char(0, p).to_owned();
            let rest = t.substring_char(p + 1, len);
            let rest_len: usize = len - (p + 1);
            match text::find(rest, ";") {
                Some(q) => {
                    let comp = rest.substring_char(0, q).to_owned();
                    let jump = rest.substring_char(q + 1, rest_len).to_owned();
                    Some(Instruction::C { dest: Some(dest), comp, jump: Some(jump) })
                },
                None => {
                    let comp = rest.to_owned();
                    Some(Instruction::C { dest: Some(dest), comp, jump: None })
                },
            }
        },
        None => {
            match text::find(t, ";") {
                Some(q) => {
                    let comp = t.substring_char(0, q).to_owned();
                    let jump = t.substring_char(q + 1, len).to_owned();
                    Some(Instruction::C { dest: None, comp, jump: Some(jump) })
                },
                None => {
                    let comp = t.to_owned();
                    Some(Instruction::C { dest: None, comp, jump: None })
                },
            }
        },
    }
}

/// Whether the instruction can be encoded against the dictionary: an
/// address that is numeric or bound, or a compute instruction whose
/// three fields are all in the encoding tables.
pub open spec fn spec_instruction_ok(iv: InstructionView, m: Map<Seq<char>, i16>) -> bool {
    match iv {
        InstructionView::A(sym) => text::spec_parse_i16(sym) is Some || m.contains_key(sym),
        InstructionView::L(_) => true,
        InstructionView::C { dest, comp, jump } => spec_comp_bits(comp) is Some
            && spec_dest_bits(dest) is Some && spec_jump_bits(jump) is Some,
    }
}

/// The word an instruction encodes to: the address value for `@x`,
/// nothing for a label, and the C-instruction bit pattern (as the
/// signed reading of its 16 bits) otherwise.
pub open spec fn spec_to_decimal(iv: InstructionView, m: Map<Seq<char>, i16>) -> Option<int> {
    match iv {
        InstructionView::A(sym) => match text::spec_parse_i16(sym) {
            Some(v) => Some(v),
            None => if m.contains_key(sym) {
                Some(m[sym] as int)
            } else {
                None
            },
        },
        InstructionView::L(_) => None,
        InstructionView::C { dest, comp, jump } => {
            if spec_instruction_ok(iv, m) {
                let w = spec_c_word(
                    spec_comp_bits(comp).unwrap(),
                    spec_dest_bits(dest).unwrap(),
                    spec_jump_bits(jump).unwrap(),
                );
                Some(w - 0x10000)
            } else {
                None
            }
        },
    }
}

impl Instruction {
    /// Whether `to_decimal` has everything it needs.
    pub fn encodable(&self, dictionary: &SymbolMap) -> (r: bool)
        requires
            dictionary.wf(),
        ensures
            r == spec_instruction_ok(self@, dictionary@),
    {
        match self {
            Instruction::A(symbol) => {
                if text::parse_i16(symbol.as_str()).is_some() {
                    true
                } else {
                    dictionary.get(symbol.as_str()).is_some()
                }
            },
            Instruction::L(_) => true,
            Instruction::C { dest, comp, jump } => {
                comp_code(comp.as_str()).is_some() && dest_code(dest).is_some()
                    && jump_code(jump).is_some()
            },
        }
    }

    /// The 16-bit word this instruction encodes to, with symbolic
    /// addresses resolved against the dictionary; a label line
    /// occupies no word and gives nothing.
    pub fn to_decimal(&self, dictionary: &SymbolMap) -> (r: Option<i16>)
        requires
            dictionary.wf(),
            spec_instruction_ok(self@, dictionary@),
        ensures
            match r {
                Some(w) => spec_to_decimal(self@, dictionary@) == Some(w as int),
                None => spec_to_decimal(self@, dictionary@) is None,
            },
    {
        match self {
            Instruction::A(symbol) => {
                match text::parse_i16(symbol.as_str()) {
                    Some(address) => Some(address),
                    None => dictionary.get(symbol.as_str()),
                }
            },
            Instruction::L(_) => None,
            Instruction::C { dest, comp, jump } => {
                let cb = comp_code(comp.as_str()).unwrap();
                let db = dest_code(dest).unwrap();
                let jb = jump_code(jump).unwrap();
                let word: u16 = 0b1110000000000000 + cb * 64 + db * 8 + jb;
                // the top three bits are set, so the signed reading is negative
                let signed: i32 = word as i32 - 0x10000;
                Some(signed as i16)
            },
        }
    }
}

/// The symbols every program starts with: R0..R15, the device
/// addresses, and the pointer registers.
pub open spec fn spec_predefined() -> Map<Seq<char>, i16> {
    Map::empty()
        .insert("R0"@, 0).insert("R1"@, 1).insert("R2"@, 2).insert("R3"@, 3)
        .insert("R4"@, 4).insert("R5"@, 5).insert("R6"@, 6).insert("R7"@, 7)
        .insert("R8"@, 8).insert("R9"@, 9).insert("R10"@, 10).insert("R11"@, 11)
        .insert("R12"@, 12).insert("R13"@, 13).insert("R14"@, 14).insert("R15"@, 15)
        .insert("SCREEN"@, 16384).insert("KBD"@, 24576)
        .insert("SP"@, 0).insert("LCL"@, 1).insert("ARG"@, 2).insert("THIS"@, 3)
        .insert("THAT"@, 4)
}

/// Builds the predefined symbol dictionary.
pub fn predefined_symbols() -> (r: SymbolMap)
    ensures
        r.wf(),
        r@ == spec_predefined(),
{
    proof {
        predefined_literal_facts();
    }
    let mut m = SymbolMap::new();
    m.insert_if_absent("R0", 0);
    m.insert_if_absent("R1", 1);
    m.insert_if_absent("R2", 2);
    m.insert_if_absent("R3", 3);
    m.insert_if_absent("R4", 4);
    m.insert_if_absent("R5", 5);
    m.insert_if_absent("R6", 6);
    m.insert_if_absent("R7", 7);
    m.insert_if_absent("R8", 8);
    m.insert_if_absent("R9", 9);
    m.insert_if_absent("R10", 10);
    m.insert_if_absent("R11", 11);
    m.insert_if_absent("R12", 12);
    m.insert_if_absent("R13", 13);
    m.insert_if_absent("R14", 14);
    m.insert_if_absent("R15", 15);
    m.insert_if_absent("SCREEN", 16384);
    m.insert_if_absent("KBD", 24576);
    m.insert_if_absent("SP", 0);
    m.insert_if_absent("LCL", 1);
    m.insert_if_absent("ARG", 2);
    m.insert_if_absent("THIS", 3);
    m.insert_if_absent("THAT", 4);
    proof {
        assert(m@ =~= spec_predefined());
    }
    m
}

/// First pass: binds each label `(x)` to the address of the next
/// instruction, counting every non-label line; fails when the address
/// counter would leave the 15-bit instruction space.
pub open spec fn spec_pass1(
    lines: Seq<Seq<char>>,
    i: int,
    counter: int,
    m: Map<Seq<char>, i16>,
) -> Option<Map<Seq<char>, i16>>
    decreases lines.len() - i,
{
    if i < 0 || i >= lines.len() {
        Some(m)
    } else {
        match spec_instr(lines[i]) {
            None => spec_pass1(lines, i + 1, counter, m),
            Some(InstructionView::L(sym)) => spec_pass1(
                lines,
                i + 1,
                counter,
                if m.contains_key(sym) {
                    m
                } else {
                    m.insert(sym, counter as i16)
                },
            ),
            Some(_) => if counter >= 32767 {
                None
            } else {
                spec_pass1(lines, i + 1, counter + 1, m)
            },
        }
    }
}

/// Second pass: binds each symbolic `@x` not yet bound to the next
/// free variable address, starting at 16; fails when the variable
/// space is exhausted.
pub open spec fn spec_pass2(
    lines: Seq<Seq<char>>,
    i: int,
    addr: int,
    m: Map<Seq<char>, i16>,
) -> Option<Map<Seq<char>, i16>>
    decreases lines.len() - i,
{
    if i < 0 || i >= lines.len() {
        Some(m)
    } else {
        match spec_instr(lines[i]) {
            Some(InstructionView::A(sym)) => {
                if text::spec_parse_i16(sym) is Some || m.contains_key(sym) {
                    spec_pass2(lines, i + 1, addr, m)
                } else if addr >= 32767 {
                    None
                } else {
                    spec_pass2(lines, i + 1, addr + 1, m.insert(sym, (addr + 1) as i16))
                }
            },
            _ => spec_pass2(lines, i + 1, addr, m),
        }
    }
}

/// Third pass: the encoded words of all lines in order, labels
/// occupying no word; fails on a compute instruction outside the
/// encoding tables.
pub open spec fn spec_emit(
    lines: Seq<Seq<char>>,
    i: int,
    m: Map<Seq<char>, i16>,
) -> Option<Seq<int>>
    decreases lines.len() - i,
{
    if i < 0 || i >= lines.len() {
        Some(seq![])
    } else {
        match spec_instr(lines[i]) {
            None => spec_emit(lines, i + 1, m),
            Some(iv) => {
                if !spec_instruction_ok(iv, m) {
                    None
                } else {
                    match spec_to_decimal(iv, m) {
                        None => spec_emit(lines, i + 1, m),
                        Some(w) => match spec_emit(lines, i + 1, m) {
                            None => None,
                            Some(rest) => Some(seq![w] + rest),
                        },
                    }
                }
            },
        }
    }
}

/// What assembling a program yields: labels resolved, variables
/// allocated from 16 up, and one 16-bit word per instruction line.
pub open spec fn spec_assemble(lines: Seq<Seq<char>>) -> Option<Seq<int>> {
    match spec_pass1(lines, 0, 0, spec_predefined()) {
        None => None,
        Some(m1) => match spec_pass2(lines, 0, 15, m1) {
            None => None,
            Some(m2) => spec_emit(lines, 0, m2),
        },
    }
}

/// Assembles a whole program given as source lines. Returns the words
/// in order, or nothing when a mnemonic is invalid or the instruction
/// or variable space is exhausted.
pub fn assemble(lines: &Vec<String>) -> (r: Option<Vec<i16>>)
    ensures
        match r {
            Some(words) => spec_assemble(lines.deep_view())
                == Some(words@.map_values(|w: i16| w as int)),
            None => spec_assemble(lines.deep_view()) is None,
        },
{
    let ghost ls = lines.deep_view();
    let n = lines.len();
    let mut dictionary = predefined_symbols();
    let mut counter: i16 = 0;
    let mut i: usize = 0;
    while i < n
        invariant
            0 <= i <= n,
            n == lines.len(),
            ls == lines.deep_view(),
            dictionary.wf(),
            0 <= counter <= 32767,
            spec_pass1(ls, 0, 0, spec_predefined())
                == spec_pass1(ls, i as int, counter as int, dictionary@),
        decreases n - i,
    {
        proof {
            assert(ls[i as int] == lines@[i as int]@);
        }
        match line_to_instruction(lines[i].as_str()) {
            None => {},
            Some(Instruction::L(symbol)) => {
                dictionary.insert_if_absent(symbol.as_str(), counter);
            },
            Some(_) => {
                if counter >= 32767 {
                    return None;
                }
                counter = counter + 1;
            },
        }
        i = i + 1;
    }
    let mut m_address: i16 = 15;
    let mut i: usize = 0;
    while i < n
        invariant
            0 <= i <= n,
            n == lines.len(),
            ls == lines.deep_view(),
            dictionary.wf(),
            15 <= m_address <= 32767,
            spec_pass1(ls, 0, 0, spec_predefined()) is Some,
            spec_pass2(ls, 0, 15, spec_pass1(ls, 0, 0, spec_predefined()).unwrap())
                == spec_pass2(ls, i as int, m_address as int, dictionary@),
        decreases n - i,
    {
        proof {
            assert(ls[i as int] == lines@[i as int]@);
        }
        match line_to_instruction(lines[i].as_str()) {
            Some(Instruction::A(symbol)) => {
                if text::parse_i16(symbol.as_str()).is_none() {
                    match dictionary.get(symbol.as_str()) {
                        Some(_) => {},
                        None => {
                            if m_address >= 32767 {
                                return None;
                            }
                            m_address = m_address + 1;
                            dictionary.insert_if_absent(symbol.as_str(), m_address);
                        },
                    }
                }
            },
            _ => {},
        }
        i = i + 1;
    }
    let ghost m = dictionary@;
    let mut words: Vec<i16> = Vec::new();
    let mut i: usize = 0;
    while i < n
        invariant
            0 <= i <= n,
            n == lines.len(),
            ls == lines.deep_view(),
            dictionary.wf(),
            dictionary@ == m,
            spec_pass1(ls, 0, 0, spec_predefined()) is Some,
            spec_pass2(ls, 0, 15, spec_pass1(ls, 0, 0, spec_predefined()).unwrap())
                == Some(m),
            match spec_emit(ls, i as int, m) {
                None => spec_emit(ls, 0, m) is None,
                Some(rest) => spec_emit(ls, 0, m)
                    == Some(words@.map_values(|w: i16| w as int) + rest),
            },
        decreases n - i,
    {
        proof {
            assert(ls[i as int] == lines@[i as int]@);
        }
        match line_to_instruction(lines[i].as_str()) {
            None => {},
            Some(ins) => {
                if !ins.encodable(&dictionary) {
                    return None;
                }
                match ins.to_decimal(&dictionary) {
                    None => {},
                    Some(w) => {
                        let ghost old_words = words@.map_values(|x: i16| x as int);
                        words.push(w);
                        proof {
                            assert(words@.map_values(|x: i16| x as int)
                                =~= old_words.push(w as int));
                            if let Some(rest) = spec_emit(ls, i + 1, m) {
                                assert(old_words + (seq![w as int] + rest)
                                    =~= old_words.push(w as int) + rest);
                            }
                        }
                    },
                }
            },
        }
        i = i + 1;
    }
    proof {
        assert(spec_emit(ls, n as int, m) == Some(Seq::<int>::empty()));
        if let Some(rest) = spec_emit(ls, n as int, m) {
            assert(words@.map_values(|w: i16| w as int) + rest
                =~= words@.map_values(|w: i16| w as int));
        }
    }
    Some(words)
}

/// The input and output paths of one assembler run.
pub struct Config {
    pub filename: String,
    pub destination: String,
}

impl Config {
    /// Derives the paths from the source argument: the source name
    /// gains ".asm" unless it already ends with it, and the output
    /// swaps every ".asm" for ".hack".
    pub fn from_source(value: String) -> (r: Config)
        ensures
            r.filename@ == if value@.len() >= ".asm"@.len()
                && value@.subrange(value@.len() - ".asm"@.len(), value@.len() as int)
                    == ".asm"@ {
                value@
            } else {
                value@ + ".asm"@
            },
            r.destination@ == text::spec_replace_all(r.filename@, ".asm"@, ".hack"@),
    {
        proof {
            reveal_strlit(".asm");
        }
        let filename = if text::ends_with(value.as_str(), ".asm") {
            value
        } else {
            value.concat(".asm")
        };
        let destination = text::replace_all(filename.as_str(), ".asm", ".hack");
        Config { filename, destination }
    }
}

/// The canonical spelling of a comp code, the inverse of the encoding
/// table.
pub open spec fn spec_canon_comp(b: int) -> Option<Seq<char>> {
    if b == 0b0101010 { Some("0"@) }
    else if b == 0b0111111 { Some("1"@) }
    else if b == 0b0111010 { Some("-1"@) }
    else if b == 0b0001100 { Some("D"@) }
    else if b == 0b0110000 { Some("A"@) }
    else if b == 0b1110000 { Some("M"@) }
    else if b == 0b0001101 { Some("!D"@) }
    else if b == 0b0110001 { Some("!A"@) }
    else if b == 0b1110001 { Some("!M"@) }
    else if b == 0b0001111 { Some("-D"@) }
    else if b == 0b0110011 { Some("-A"@) }
    else if b == 0b1110011 { Some("-M"@) }
    else if b == 0b0011111 { Some("D+1"@) }
    else if b == 0b0110111 { Some("A+1"@) }
    else if b == 0b1110111 { Some("M+1"@) }
    else if b == 0b0001110 { Some("D-1"@) }
    else if b == 0b0110010 { Some("A-1"@) }
    else if b == 0b1110010 { Some("M-1"@) }
    else if b == 0b0000010 { Some("D+A"@) }
    else if b == 0b1000010 { Some("D+M"@) }
    else if b == 0b0010011 { Some("D-A"@) }
    else if b == 0b1010011 { Some("D-M"@) }
    else if b == 0b0000111 { Some("A-D"@) }
    else if b == 0b1000111 { Some("M-D"@) }
    else if b == 0b0000000 { Some("D&A"@) }
    else if b == 0b1000000 { Some("D&M"@) }
    else if b == 0b0010101 { Some("D|A"@) }
    else if b == 0b1010101 { Some("D|M"@) }
    else { None }
}

/// The canonical spelling of a dest code; code 0 is the absent field.
pub open spec fn spec_canon_dest(b: int) -> Option<Option<Seq<char>>> {
    if b == 0b000 { Some(None) }
    else if b == 0b001 { Some(Some("M"@)) }
    else if b == 0b010 { Some(Some("D"@)) }
    else if b == 0b011 { Some(Some("DM"@)) }
    else if b == 0b100 { Some(Some("A"@)) }
    else if b == 0b101 { Some(Some("AM"@)) }
    else if b == 0b110 { Some(Some("AD"@)) }
    else if b == 0b111 { Some(Some("ADM"@)) }
    else { None }
}

/// The canonical spelling of a jump code; code 0 is the absent field.
pub open spec fn spec_canon_jump(b: int) -> Option<Option<Seq<char>>> {
    if b == 0b000 { Some(None) }
    else if b == 0b001 { Some(Some("JGT"@)) }
    else if b == 0b010 { Some(Some("JEQ"@)) }
    else if b == 0b011 { Some(Some("JGE"@)) }
    else if b == 0b100 { Some(Some("JLT"@)) }
    else if b == 0b101 { Some(Some("JNE"@)) }
    else if b == 0b110 { Some(Some("JLE"@)) }
    else if b == 0b111 { Some(Some("JMP"@)) }
    else { None }
}


proof fn comp_literal_facts()
    ensures
        "0"@.len() == 1 && "0"@[0] == '0',
        "1"@.len() == 1 && "1"@[0] == '1',
        "-1"@.len() == 2 && "-1"@[0] == '-' && "-1"@[1] == '1',
        "D"@.len() == 1 && "D"@[0] == 'D',
        "A"@.len() == 1 && "A"@[0] == 'A',
        "M"@.len() == 1 && "M"@[0] == 'M',
        "!D"@.len() == 2 && "!D"@[0] == '!' && "!D"@[1] == 'D',
        "!A"@.len() == 2 && "!A"@[0] == '!' && "!A"@[1] == 'A',
        "!M"@.len() == 2 && "!M"@[0] == '!' && "!M"@[1] == 'M',
        "-D"@.len() == 2 && "-D"@[0] == '-' && "-D"@[1] == 'D',
        "-A"@.len() == 2 && "-A"@[0] == '-' && "-A"@[1] == 'A',
        "-M"@.len() == 2 && "-M"@[0] == '-' && "-M"@[1] == 'M',
        "D+1"@.len() == 3 && "D+1"@[0] == 'D' && "D+1"@[1] == '+' && "D+1"@[2] == '1',
        "1+D"@.len() == 3 && "1+D"@[0] == '1' && "1+D"@[1] == '+' && "1+D"@[2] == 'D',
        "A+1"@.len() == 3 && "A+1"@[0] == 'A' && "A+1"@[1] == '+' && "A+1"@[2] == '1',
        "1+A"@.len() == 3 && "1+A"@[0] == '1' && "1+A"@[1] == '+' && "1+A"@[2] == 'A',
        "M+1"@.len() == 3 && "M+1"@[0] == 'M' && "M+1"@[1] == '+' && "M+1"@[2] == '1',
        "1+M"@.len() == 3 && "1+M"@[0] == '1' && "1+M"@[1] == '+' && "1+M"@[2] == 'M',
        "D-1"@.len() == 3 && "D-1"@[0] == 'D' && "D-1"@[1] == '-' && "D-1"@[2] == '1',
        "A-1"@.len() == 3 && "A-1"@[0] == 'A' && "A-1"@[1] == '-' && "A-1"@[2] == '1',
        "M-1"@.len() == 3 && "M-1"@[0] == 'M' && "M-1"@[1] == '-' && "M-1"@[2] == '1',
        "D+A"@.len() == 3 && "D+A"@[0] == 'D' && "D+A"@[1] == '+' && "D+A"@[2] == 'A',
        "A+D"@.len() == 3 && "A+D"@[0] == 'A' && "A+D"@[1] == '+' && "A+D"@[2] == 'D',
        "D+M"@.len() == 3 && "D+M"@[0] == 'D' && "D+M"@[1] == '+' && "D+M"@[2] == 'M',
        "M+D"@.len() == 3 && "M+D"@[0] == 'M' && "M+D"@[1] == '+' && "M+D"@[2] == 'D',
        "D-A"@.len() == 3 && "D-A"@[0] == 'D' && "D-A"@[1] == '-' && "D-A"@[2] == 'A',
        "D-M"@.len() == 3 && "D-M"@[0] == 'D' && "D-M"@[1] == '-' && "D-M"@[2] == 'M',
        "A-D"@.len() == 3 && "A-D"@[0] == 'A' && "A-D"@[1] == '-' && "A-D"@[2] == 'D',
        "M-D"@.len() == 3 && "M-D"@[0] == 'M' && "M-D"@[1] == '-' && "M-D"@[2] == 'D',
        "D&A"@.len() == 3 && "D&A"@[0] == 'D' && "D&A"@[1] == '&' && "D&A"@[2] == 'A',
        "A&D"@.len() == 3 && "A&D"@[0] == 'A' && "A&D"@[1] == '&' && "A&D"@[2] == 'D',
        "D&M"@.len() == 3 && "D&M"@[0] == 'D' && "D&M"@[1] == '&' && "D&M"@[2] == 'M',
        "M&D"@.len() == 3 && "M&D"@[0] == 'M' && "M&D"@[1] == '&' && "M&D"@[2] == 'D',
        "D|A"@.len() == 3 && "D|A"@[0] == 'D' && "D|A"@[1] == '|' && "D|A"@[2] == 'A',
        "A|D"@.len() == 3 && "A|D"@[0] == 'A' && "A|D"@[1] == '|' && "A|D"@[2] == 'D',
        "D|M"@.len() == 3 && "D|M"@[0] == 'D' && "D|M"@[1] == '|' && "D|M"@[2] == 'M',
        "M|D"@.len() == 3 && "M|D"@[0] == 'M' && "M|D"@[1] == '|' && "M|D"@[2] == 'D',
{
    reveal_strlit("0"); reveal_strlit("1"); reveal_strlit("-1");
    reveal_strlit("D"); reveal_strlit("A"); reveal_strlit("M");
    reveal_strlit("!D"); reveal_strlit("!A"); reveal_strlit("!M");
    reveal_strlit("-D"); reveal_strlit("-A"); reveal_strlit("-M");
    reveal_strlit("D+1"); reveal_strlit("1+D"); reveal_strlit("A+1");
    reveal_strlit("1+A"); reveal_strlit("M+1"); reveal_strlit("1+M");
    reveal_strlit("D-1"); reveal_strlit("A-1"); reveal_strlit("M-1");
    reveal_strlit("D+A"); reveal_strlit("A+D"); reveal_strlit("D+M");
    reveal_strlit("M+D"); reveal_strlit("D-A"); reveal_strlit("D-M");
    reveal_strlit("A-D"); reveal_strlit("M-D"); reveal_strlit("D&A");
    reveal_strlit("A&D"); reveal_strlit("D&M"); reveal_strlit("M&D");
    reveal_strlit("D|A"); reveal_strlit("A|D"); reveal_strlit("D|M");
    reveal_strlit("M|D");
}

proof fn dest_literal_facts()
    ensures
        "M"@.len() == 1 && "M"@[0] == 'M',
        "D"@.len() == 1 && "D"@[0] == 'D',
        "DM"@.len() == 2 && "DM"@[0] == 'D' && "DM"@[1] == 'M',
        "MD"@.len() == 2 && "MD"@[0] == 'M' && "MD"@[1] == 'D',
        "A"@.len() == 1 && "A"@[0] == 'A',
        "AM"@.len() == 2 && "AM"@[0] == 'A' && "AM"@[1] == 'M',
        "MA"@.len() == 2 && "MA"@[0] == 'M' && "MA"@[1] == 'A',
        "AD"@.len() == 2 && "AD"@[0] == 'A' && "AD"@[1] == 'D',
        "DA"@.len() == 2 && "DA"@[0] == 'D' && "DA"@[1] == 'A',
        "ADM"@.len() == 3 && "ADM"@[0] == 'A' && "ADM"@[1] == 'D' && "ADM"@[2] == 'M',
        "AMD"@.len() == 3 && "AMD"@[0] == 'A' && "AMD"@[1] == 'M' && "AMD"@[2] == 'D',
        "DAM"@.len() == 3 && "DAM"@[0] == 'D' && "DAM"@[1] == 'A' && "DAM"@[2] == 'M',
        "DMA"@.len() == 3 && "DMA"@[0] == 'D' && "DMA"@[1] == 'M' && "DMA"@[2] == 'A',
        "MAD"@.len() == 3 && "MAD"@[0] == 'M' && "MAD"@[1] == 'A' && "MAD"@[2] == 'D',
        "MDA"@.len() == 3 && "MDA"@[0] == 'M' && "MDA"@[1] == 'D' && "MDA"@[2] == 'A',
{
    reveal_strlit("M"); reveal_strlit("D"); reveal_strlit("DM");
    reveal_strlit("MD"); reveal_strlit("A"); reveal_strlit("AM");
    reveal_strlit("MA"); reveal_strlit("AD"); reveal_strlit("DA");
    reveal_strlit("ADM"); reveal_strlit("AMD"); reveal_strlit("DAM");
    reveal_strlit("DMA"); reveal_strlit("MAD"); reveal_strlit("MDA");
}

proof fn jump_literal_facts()
    ensures
        "JGT"@.len() == 3 && "JGT"@[0] == 'J' && "JGT"@[1] == 'G' && "JGT"@[2] == 'T',
        "JEQ"@.len() == 3 && "JEQ"@[0] == 'J' && "JEQ"@[1] == 'E' && "JEQ"@[2] == 'Q',
        "JGE"@.len() == 3 && "JGE"@[0] == 'J' && "JGE"@[1] == 'G' && "JGE"@[2] == 'E',
        "JLT"@.len() == 3 && "JLT"@[0] == 'J' && "JLT"@[1] == 'L' && "JLT"@[2] == 'T',
        "JNE"@.len() == 3 && "JNE"@[0] == 'J' && "JNE"@[1] == 'N' && "JNE"@[2] == 'E',
        "JLE"@.len() == 3 && "JLE"@[0] == 'J' && "JLE"@[1] == 'L' && "JLE"@[2] == 'E',
        "JMP"@.len() == 3 && "JMP"@[0] == 'J' && "JMP"@[1] == 'M' && "JMP"@[2] == 'P',
{
    reveal_strlit("JGT"); reveal_strlit("JEQ"); reveal_strlit("JGE");
    reveal_strlit("JLT"); reveal_strlit("JNE"); reveal_strlit("JLE");
    reveal_strlit("JMP");
}

proof fn predefined_literal_facts()
    ensures
        "R0"@.len() == 2 && "R0"@[0] == 'R' && "R0"@[1] == '0',
        "R1"@.len() == 2 && "R1"@[0] == 'R' && "R1"@[1] == '1',
        "R2"@.len() == 2 && "R2"@[0] == 'R' && "R2"@[1] == '2',
        "R3"@.len() == 2 && "R3"@[0] == 'R' && "R3"@[1] == '3',
        "R4"@.len() == 2 && "R4"@[0] == 'R' && "R4"@[1] == '4',
        "R5"@.len() == 2 && "R5"@[0] == 'R' && "R5"@[1] == '5',
        "R6"@.len() == 2 && "R6"@[0] == 'R' && "R6"@[1] == '6',
        "R7"@.len() == 2 && "R7"@[0] == 'R' && "R7"@[1] == '7',
        "R8"@.len() == 2 && "R8"@[0] == 'R' && "R8"@[1] == '8',
        "R9"@.len() == 2 && "R9"@[0] == 'R' && "R9"@[1] == '9',
        "R10"@.len() == 3 && "R10"@[0] == 'R' && "R10"@[1] == '1' && "R10"@[2] == '0',
        "R11"@.len() == 3 && "R11"@[0] == 'R' && "R11"@[1] == '1' && "R11"@[2] == '1',
        "R12"@.len() == 3 && "R12"@[0] == 'R' && "R12"@[1] == '1' && "R12"@[2] == '2',
        "R13"@.len() == 3 && "R13"@[0] == 'R' && "R13"@[1] == '1' && "R13"@[2] == '3',
        "R14"@.len() == 3 && "R14"@[0] == 'R' && "R14"@[1] == '1' && "R14"@[2] == '4',
        "R15"@.len() == 3 && "R15"@[0] == 'R' && "R15"@[1] == '1' && "R15"@[2] == '5',
        "SCREEN"@.len() == 6 && "SCREEN"@[0] == 'S' && "SCREEN"@[1] == 'C' && "SCREEN"@[2] == 'R' && "SCREEN"@[3] == 'E' && "SCREEN"@[4] == 'E' && "SCREEN"@[5] == 'N',
        "KBD"@.len() == 3 && "KBD"@[0] == 'K' && "KBD"@[1] == 'B' && "KBD"@[2] == 'D',
        "SP"@.len() == 2 && "SP"@[0] == 'S' && "SP"@[1] == 'P',
        "LCL"@.len() == 3 && "LCL"@[0] == 'L' && "LCL"@[1] == 'C' && "LCL"@[2] == 'L',
        "ARG"@.len() == 3 && "ARG"@[0] == 'A' && "ARG"@[1] == 'R' && "ARG"@[2] == 'G',
        "THIS"@.len() == 4 && "THIS"@[0] == 'T' && "THIS"@[1] == 'H' && "THIS"@[2] == 'I' && "THIS"@[3] == 'S',
        "THAT"@.len() == 4 && "THAT"@[0] == 'T' && "THAT"@[1] == 'H' && "THAT"@[2] == 'A' && "THAT"@[3] == 'T',
{
    reveal_strlit("R0"); reveal_strlit("R1"); reveal_strlit("R2");
    reveal_strlit("R3"); reveal_strlit("R4"); reveal_strlit("R5");
    reveal_strlit("R6"); reveal_strlit("R7"); reveal_strlit("R8");
    reveal_strlit("R9"); reveal_strlit("R10"); reveal_strlit("R11");
    reveal_strlit("R12"); reveal_strlit("R13"); reveal_strlit("R14");
    reveal_strlit("R15"); reveal_strlit("SCREEN"); reveal_strlit("KBD");
    reveal_strlit("SP"); reveal_strlit("LCL"); reveal_strlit("ARG");
    reveal_strlit("THIS"); reveal_strlit("THAT");
}

/// A comp mnemonic's code decodes to a canonical mnemonic with the
/// same code; spellings that differ only in operand order collapse to
/// the same canonical form.
#[verifier::rlimit(100)]
pub proof fn lemma_comp_round_trip(c: Seq<char>)
    requires
        spec_comp_bits(c) is Some,
    ensures
        spec_canon_comp(spec_comp_bits(c).unwrap()) is Some,
        spec_comp_bits(spec_canon_comp(spec_comp_bits(c).unwrap()).unwrap())
            == spec_comp_bits(c),
{
    comp_literal_facts();
}

/// A dest mnemonic's code decodes to a canonical mnemonic with the
/// same code.
#[verifier::rlimit(60)]
pub proof fn lemma_dest_round_trip(d: Option<Seq<char>>)
    requires
        spec_dest_bits(d) is Some,
    ensures
        spec_canon_dest(spec_dest_bits(d).unwrap()) is Some,
        spec_dest_bits(spec_canon_dest(spec_dest_bits(d).unwrap()).unwrap())
            == spec_dest_bits(d),
{
    dest_literal_facts();
}

/// A jump mnemonic's code decodes to the same mnemonic.
#[verifier::rlimit(60)]
pub proof fn lemma_jump_round_trip(j: Option<Seq<char>>)
    requires
        spec_jump_bits(j) is Some,
    ensures
        spec_canon_jump(spec_jump_bits(j).unwrap()) is Some,
        spec_canon_jump(spec_jump_bits(j).unwrap()).unwrap() == j,
{
    jump_literal_facts();
}

/// Round trip for a whole C-instruction: a valid dest/comp/jump triple
/// encodes to exactly one 16-bit word; the word's fields, read back out
/// of the bit pattern, decode to canonical mnemonics that encode to the
/// very same word.
pub proof fn lemma_c_round_trip(dest: Option<Seq<char>>, comp: Seq<char>, jump: Option<Seq<char>>)
    requires
        spec_dest_bits(dest) is Some,
        spec_comp_bits(comp) is Some,
        spec_jump_bits(jump) is Some,
    ensures
        ({
            let cb = spec_comp_bits(comp).unwrap();
            let db = spec_dest_bits(dest).unwrap();
            let jb = spec_jump_bits(jump).unwrap();
            let w = spec_c_word(cb, db, jb);
            &&& 0b1110000000000000 <= w < 0x10000
            &&& w / 0b10000000000000 == 0b111
            &&& (w / 64) % 128 == cb
            &&& (w / 8) % 8 == db
            &&& w % 8 == jb
            &&& spec_canon_comp(cb) matches Some(cc)
                && spec_c_word(spec_comp_bits(cc).unwrap(), db, jb) == w
            &&& spec_canon_dest(db) matches Some(dc)
                && spec_c_word(cb, spec_dest_bits(dc).unwrap(), jb) == w
            &&& spec_canon_jump(jb) matches Some(jc)
                && spec_c_word(cb, db, spec_jump_bits(jc).unwrap()) == w
        }),
{
    let cb = spec_comp_bits(comp).unwrap();
    let db = spec_dest_bits(dest).unwrap();
    let jb = spec_jump_bits(jump).unwrap();
    let w = spec_c_word(cb, db, jb);
    assert(0 <= cb < 128 && 0 <= db < 8 && 0 <= jb < 8);
    assert((57344 + cb * 64 + db * 8 + jb) % 8 == jb) by (nonlinear_arith)
        requires 0 <= cb < 128 && 0 <= db < 8 && 0 <= jb < 8;
    assert((57344 + cb * 64 + db * 8 + jb) / 8 == 7168 + cb * 8 + db) by (nonlinear_arith)
        requires 0 <= cb < 128 && 0 <= db < 8 && 0 <= jb < 8;
    assert((7168 + cb * 8 + db) % 8 == db) by (nonlinear_arith)
        requires 0 <= cb < 128 && 0 <= db < 8;
    assert((57344 + cb * 64 + db * 8 + jb) / 64 == 896 + cb) by (nonlinear_arith)
        requires 0 <= cb < 128 && 0 <= db < 8 && 0 <= jb < 8;
    assert((896 + cb) % 128 == cb) by (nonlinear_arith)
        requires 0 <= cb < 128;
    assert((57344 + cb * 64 + db * 8 + jb) / 8192 == 7) by (nonlinear_arith)
        requires 0 <= cb < 128 && 0 <= db < 8 && 0 <= jb < 8;
    lemma_comp_round_trip(comp);
    lemma_dest_round_trip(dest);
    lemma_jump_round_trip(jump);
}

/// Round trip for an address instruction: a 15-bit address rendered in
/// decimal parses back to the same address, so `@n` encodes to exactly
/// the word n.
pub proof fn lemma_a_round_trip(v: int)
    requires
        0 <= v <= 32767,
    ensures
        text::spec_parse_i16(text::spec_dec_int(v)) == Some(v),
{
    text::lemma_dec_nat_digits(v as nat);
    text::lemma_dec_nat_value(v as nat);
    let s = text::spec_dec_int(v);
    assert(s == text::spec_dec_nat(v as nat));
    assert(text::is_digit(s[0]));
    assert(s[0] != '+' && s[0] != '-');
}

} // verus!
