use hack_toolchain::assembler::{assemble, line_to_instruction, Config, Instruction, SymbolMap};

#[test]
fn instruction_a_to_binary() {
    let dictionary = SymbolMap::new();

    let a1 = Instruction::A("17".to_string());
    assert_eq!("0000000000010001", format!("{:016b}", a1.to_decimal(&dictionary).unwrap()));

    let a2 = Instruction::A("1".to_string());
    assert_eq!("0000000000000001", format!("{:016b}", a2.to_decimal(&dictionary).unwrap()))
}

#[test]
fn instruction_c_to_binary() {
    let dictionary = SymbolMap::new();

    let c1 = Instruction::C { dest: None, comp: "0".to_string(), jump: None };
    assert_eq!("1110101010000000", format!("{:016b}", c1.to_decimal(&dictionary).unwrap()));

    let c2 = Instruction::C { dest: None, comp: "M".to_string(), jump: None };
    assert_eq!("1111110000000000", format!("{:016b}", c2.to_decimal(&dictionary).unwrap()));

    let c3 = Instruction::C { dest: Some("D".to_string()), comp: "D+M".to_string(), jump: None };
    assert_eq!("1111000010010000", format!("{:016b}", c3.to_decimal(&dictionary).unwrap()));

    let c4 = Instruction::C { dest: None, comp: "D".to_string(), jump: Some("JGE".to_string()) };
    assert_eq!("1110001100000011", format!("{:016b}", c4.to_decimal(&dictionary).unwrap()));

    let c5 = Instruction::C {
        dest: Some("D".to_string()),
        comp: "D+M".to_string(),
        jump: Some("JGT".to_string()),
    };
    assert_eq!("1111000010010001", format!("{:016b}", c5.to_decimal(&dictionary).unwrap()));
}

#[test]
fn lines_ignored() {
    let comment = "// I am a comment";
    assert!(line_to_instruction(comment).is_none());

    let blank = "       ";
    assert!(line_to_instruction(blank).is_none());
}

#[test]
fn lines_to_a_instruction() {
    let a1 = line_to_instruction("@n").unwrap();
    match a1 {
        Instruction::A(symbol) => assert_eq!(symbol, "n"),
        _ => panic!("instruction parsing error"),
    }

    let a2 = line_to_instruction("@17").unwrap();
    match a2 {
        Instruction::A(symbol) => assert_eq!(symbol, "17"),
        _ => panic!("instruction parsing error"),
    }
}

#[test]
fn lines_to_l_instruction() {
    let l = line_to_instruction("(LOOP)").unwrap();
    match l {
        Instruction::L(symbol) => assert_eq!(symbol, "LOOP"),
        _ => panic!("instruction parsing error"),
    }
}

#[test]
fn lines_to_c_instruction() {
    let dictionary = SymbolMap::new();

    let c1 = line_to_instruction("0").unwrap();
    assert_eq!("1110101010000000", format!("{:016b}", c1.to_decimal(&dictionary).unwrap()));

    let c2 = line_to_instruction("M").unwrap();
    assert_eq!("1111110000000000", format!("{:016b}", c2.to_decimal(&dictionary).unwrap()));

    let c3 = line_to_instruction("D=D+M").unwrap();
    assert_eq!("1111000010010000", format!("{:016b}", c3.to_decimal(&dictionary).unwrap()));

    let c4 = line_to_instruction("D;JGE").unwrap();
    assert_eq!("1110001100000011", format!("{:016b}", c4.to_decimal(&dictionary).unwrap()));

    let c5 = line_to_instruction("D=D+M;JGT").unwrap();
    assert_eq!("1111000010010001", format!("{:016b}", c5.to_decimal(&dictionary).unwrap()));
}

#[test]
fn test_basic_parser() {
    let dictionary = SymbolMap::new();
    let content = "\
// Computes R0 = 2 + 3  (R0 refers to RAM[0])

@2
D=A
@3
D=D+A
@0
M=D";
    let mut parsed = Vec::new();
    for line in content.lines() {
        if let Some(instruction) = line_to_instruction(line) {
            parsed.push(instruction);
        }
    }
    let expected = [
        "0000000000000010",
        "1110110000010000",
        "0000000000000011",
        "1110000010010000",
        "0000000000000000",
        "1110001100001000",
    ];
    assert_eq!(parsed.len(), expected.len());
    for (instruction, want) in parsed.iter().zip(expected.iter()) {
        assert_eq!(*want, format!("{:016b}", instruction.to_decimal(&dictionary).unwrap()));
    }
}

#[test]
fn assemble_two_plus_three() {
    let lines: Vec<String> = ["@2", "D=A", "@3", "D=D+A", "@0", "M=D"]
        .iter()
        .map(|s| s.to_string())
        .collect();
    let words = assemble(&lines).unwrap();
    let rendered: Vec<String> = words.iter().map(|w| format!("{:016b}", w)).collect();
    assert_eq!(
        rendered,
        vec![
            "0000000000000010",
            "1110110000010000",
            "0000000000000011",
            "1110000010010000",
            "0000000000000000",
            "1110001100001000",
        ]
    );
}

#[test]
fn assemble_label_and_variable() {
    // a label binds to the next instruction address; a fresh variable
    // symbol gets the first free address, 16
    let lines: Vec<String> = ["@LOOP", "(LOOP)", "D=A;JMP", "@counter", "M=D"]
        .iter()
        .map(|s| s.to_string())
        .collect();
    let words = assemble(&lines).unwrap();
    assert_eq!(words.len(), 4);
    assert_eq!(words[0], 1);
    assert_eq!(format!("{:016b}", words[1]), "1110110000010111");
    assert_eq!(words[2], 16);
}

#[test]
fn assemble_predefined_symbols() {
    let lines: Vec<String> = ["@SP", "@LCL", "@ARG", "@THIS", "@THAT", "@R13", "@SCREEN", "@KBD"]
        .iter()
        .map(|s| s.to_string())
        .collect();
    let words = assemble(&lines).unwrap();
    assert_eq!(words, vec![0, 1, 2, 3, 4, 13, 16384, 24576]);
}

#[test]
fn assemble_rejects_bad_mnemonic() {
    let lines: Vec<String> = vec!["D=Q".to_string()];
    assert!(assemble(&lines).is_none());
}

#[test]
fn config_paths() {
    let c = Config::from_source("prog".to_string());
    assert_eq!(c.filename, "prog.asm");
    assert_eq!(c.destination, "prog.hack");

    let c2 = Config::from_source("dir/prog.asm".to_string());
    assert_eq!(c2.filename, "dir/prog.asm");
    assert_eq!(c2.destination, "dir/prog.hack");
}
