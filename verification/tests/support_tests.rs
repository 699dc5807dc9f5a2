use hack_toolchain::ast::Type;
use hack_toolchain::symbols::{CharSet, LabelGenerator, Padding, SymbolKind, SymbolTable};
use hack_toolchain::text::{dec_i16_string, parse_i16, replace_all, trim, words};
use hack_toolchain::xml::XML;

#[test]
fn decimal_rendering() {
    assert_eq!(dec_i16_string(0), "0");
    assert_eq!(dec_i16_string(7), "7");
    assert_eq!(dec_i16_string(32767), "32767");
    assert_eq!(dec_i16_string(-1), "-1");
    assert_eq!(dec_i16_string(-32768), "-32768");
}

#[test]
fn decimal_parsing() {
    assert_eq!(parse_i16("0"), Some(0));
    assert_eq!(parse_i16("017"), Some(17));
    assert_eq!(parse_i16("+5"), Some(5));
    assert_eq!(parse_i16("-32768"), Some(-32768));
    assert_eq!(parse_i16("32767"), Some(32767));
    assert_eq!(parse_i16("32768"), None);
    assert_eq!(parse_i16("-32769"), None);
    assert_eq!(parse_i16(""), None);
    assert_eq!(parse_i16("+"), None);
    assert_eq!(parse_i16("12a"), None);
}

#[test]
fn text_helpers() {
    assert_eq!(trim("  a b  "), "a b");
    assert_eq!(trim(""), "");
    assert_eq!(replace_all("a.vm.vm", ".vm", ".asm"), "a.asm.asm");
    let ws = words("  push   constant  7 ");
    assert_eq!(ws, vec!["push", "constant", "7"]);
}

#[test]
fn symbol_table_ordinals() {
    let mut table = SymbolTable::new();
    table.push("x", Type::Int, SymbolKind::Field);
    table.push("y", Type::Int, SymbolKind::Field);
    table.push("count", Type::Int, SymbolKind::Static);
    table.push("i", Type::Int, SymbolKind::Local);
    assert_eq!(table.field_vars_count(), 2);
    let x = table.find_by("x").unwrap();
    assert_eq!(x.index(), 0);
    assert_eq!(x.vm_memory_segment(), "this");
    let y = table.find_by("y").unwrap();
    assert_eq!(y.index(), 1);
    let c = table.find_by("count").unwrap();
    assert_eq!(c.index(), 0);
    assert_eq!(c.vm_memory_segment(), "static");
    let i = table.find_by("i").unwrap();
    assert_eq!(i.index(), 0);
    assert_eq!(i.vm_memory_segment(), "local");
    assert!(table.find_by("ghost_name").is_none());
}

#[test]
fn charset_codes() {
    let set = CharSet::new();
    assert_eq!(set.decode(' '), 32);
    assert_eq!(set.decode('A'), 65);
    assert_eq!(set.decode('/'), 47);
    assert_eq!(set.decode('~'), 126);
    assert_eq!(set.decode('\n'), 128);
}

#[test]
fn label_generator_counts_up() {
    let mut generator = LabelGenerator::new("Square");
    assert_eq!(generator.generate(), "SQUARE_0");
    assert_eq!(generator.generate(), "SQUARE_1");
    assert_eq!(generator.generate(), "SQUARE_2");
}

#[test]
fn padding_steps() {
    let mut padding = Padding::new();
    assert_eq!(padding.to_spaces(), "");
    padding.increment();
    padding.increment();
    assert_eq!(padding.to_spaces(), "    ");
    padding.decrement();
    assert_eq!(padding.to_spaces(), "  ");
}

#[test]
fn xml_lines() {
    assert_eq!(XML::symbol('{'), "<symbol> { </symbol>\n");
    assert_eq!(XML::keyword("class"), "<keyword> class </keyword>\n");
    assert_eq!(XML::identifier("Main"), "<identifier> Main </identifier>\n");
}

#[test]
fn xml_of_a_small_class() {
    let lines: Vec<String> = "\
        class Main {
            function void main() {
                return;
            }
        }"
    .lines()
    .map(|s| s.to_string())
    .collect();
    let out = XML::compile(lines).unwrap();
    let expected = "\
<class>
  <keyword> class </keyword>
  <identifier> Main </identifier>
  <symbol> { </symbol>
  <subroutineDec>
    <keyword> function </keyword>
    <keyword> void </keyword>
    <identifier> main </identifier>
    <symbol> ( </symbol>
    <parameterList>
    </parameterList>
    <symbol> ) </symbol>
    <subroutineBody>
      <symbol> { </symbol>
      <statements>
        <returnStatement>
          <keyword> return </keyword>
          <symbol> ; </symbol>
        </returnStatement>
      </statements>
      <symbol> } </symbol>
    </subroutineBody>
  </subroutineDec>
  <symbol> } </symbol>
</class>
";
    assert_eq!(out, expected);
}

#[test]
fn duplicate_names_resolve_to_the_first() {
    let mut table = SymbolTable::new();
    table.push("n", Type::Int, SymbolKind::Field);
    table.push("n", Type::Boolean, SymbolKind::Static);
    let n = table.find_by("n").unwrap();
    assert_eq!(n.index(), 0);
    assert_eq!(n.vm_memory_segment(), "this");
}
