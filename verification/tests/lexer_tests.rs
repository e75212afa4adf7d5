use m68k_lexer::ast::{ArgSeparated, LexError, Line, Operand, OperandKind, RegisterType, Size};
use m68k_lexer::classify::AsmRegex;
use m68k_lexer::lexer::Lexer;
use m68k_lexer::parse::register_type_of;

#[test]
fn operand_kind_priority_order() {
    let re = AsmRegex::new();
    assert_eq!(re.get_operand_kind(&"d0".to_string()), OperandKind::Register);
    assert_eq!(re.get_operand_kind(&"a7".to_string()), OperandKind::Register);
    assert_eq!(re.get_operand_kind(&"sp".to_string()), OperandKind::Register);
    assert_eq!(re.get_operand_kind(&"(a0)+".to_string()), OperandKind::PostIndirect);
    assert_eq!(re.get_operand_kind(&"-(sp)".to_string()), OperandKind::PreIndirect);
    assert_eq!(re.get_operand_kind(&"#42".to_string()), OperandKind::Immediate);
    assert_eq!(re.get_operand_kind(&"2(a0)".to_string()), OperandKind::Indirect);
    assert_eq!(re.get_operand_kind(&"a,b".to_string()), OperandKind::IndirectDisplacement);
    assert_eq!(re.get_operand_kind(&"$ff00".to_string()), OperandKind::Address);
    assert_eq!(re.get_operand_kind(&"loop".to_string()), OperandKind::Label);
}

#[test]
fn post_increment_beats_indirect() {
    // "(a0)+" also has the shape prefix-then-parenthesised text; priority
    // order must classify it as post-increment, never as indirect.
    let re = AsmRegex::new();
    assert_eq!(re.get_operand_kind(&"(a0)+".to_string()), OperandKind::PostIndirect);
    assert_eq!(re.get_operand_kind(&"-(a1)".to_string()), OperandKind::PreIndirect);
}

#[test]
fn size_suffix_decoding() {
    let re = AsmRegex::new();
    assert_eq!(re.split_instruction_and_size(&"move.b".to_string()), ("move".to_string(), Size::Byte));
    assert_eq!(re.split_instruction_and_size(&"move.w".to_string()), ("move".to_string(), Size::Word));
    assert_eq!(re.split_instruction_and_size(&"move.l".to_string()), ("move".to_string(), Size::Long));
    assert_eq!(re.split_instruction_and_size(&"move.x".to_string()), ("move".to_string(), Size::Unknown));
    assert_eq!(re.split_instruction_and_size(&"move".to_string()), ("move".to_string(), Size::Unspecified));
    assert_eq!(re.split_instruction_and_size(&"a.b.c".to_string()), ("a.b.c".to_string(), Size::Unspecified));
}

#[test]
fn separator_tagging() {
    let re = AsmRegex::new();
    let r = re.split_into_separated_args("d0, (a1)+, #4");
    assert_eq!(
        r,
        vec![
            ArgSeparated::Comma("d0".to_string()),
            ArgSeparated::Comma("(a1)+".to_string()),
            ArgSeparated::Comma("#4".to_string()),
        ]
    );
}

#[test]
fn separated_args_mixed_separators() {
    let re = AsmRegex::new();
    let r = re.split_into_separated_args("move.w d0,(a0)+");
    assert_eq!(
        r,
        vec![
            ArgSeparated::Space("move.w".to_string()),
            ArgSeparated::Comma("d0".to_string()),
            ArgSeparated::Comma("(a0)+".to_string()),
        ]
    );
}

#[test]
fn operand_args_split_respects_parens() {
    let re = AsmRegex::new();
    assert_eq!(
        re.split_into_operand_args("a,(b,c),d"),
        vec!["a".to_string(), "(b,c)".to_string(), "d".to_string()]
    );
    assert_eq!(re.split_into_operand_args(""), vec!["".to_string()]);
    assert_eq!(
        re.split_into_operand_args(" x , y "),
        vec!["x".to_string(), "y".to_string()]
    );
}

#[test]
fn indirect_arity() {
    let lx = Lexer::new();
    let op = lx.parse_operand(&"4(a0,d1.w)".to_string());
    assert_eq!(
        op,
        Operand::IndirectWithDisplacement {
            offset: "4".to_string(),
            operands: vec![
                Operand::Register(RegisterType::Address, "a0".to_string()),
                Operand::Label("d1.w".to_string()),
            ],
        }
    );
    let op2 = lx.parse_operand(&"(a0)".to_string());
    assert_eq!(
        op2,
        Operand::Indirect {
            offset: "".to_string(),
            operand: Box::new(Operand::Register(RegisterType::Address, "a0".to_string())),
        }
    );
}

#[test]
fn post_and_pre_indirect_parse() {
    let lx = Lexer::new();
    assert_eq!(
        lx.parse_operand(&"(a0)+".to_string()),
        Operand::PostIndirect(Box::new(Operand::Register(
            RegisterType::Address,
            "a0".to_string()
        )))
    );
    assert_eq!(
        lx.parse_operand(&"-(sp)".to_string()),
        Operand::PreIndirect(Box::new(Operand::Register(RegisterType::SP, "sp".to_string())))
    );
}

#[test]
fn malformed_indirect_is_other() {
    let lx = Lexer::new();
    // the nested list is emptied by comment truncation, so the token cannot
    // be decomposed
    assert_eq!(lx.parse_operand(&"(a;b,c)".to_string()), Operand::Other("(a;b,c)".to_string()));
    // two opening parentheses cannot be decomposed either
    assert_eq!(lx.parse_operand(&"x(a(b,c)".to_string()), Operand::Other("x(a(b,c)".to_string()));
}

#[test]
fn register_decoding_errors() {
    assert_eq!(register_type_of(&"d0".to_string()), Ok(RegisterType::Data));
    assert_eq!(register_type_of(&"a5".to_string()), Ok(RegisterType::Address));
    assert_eq!(register_type_of(&"sp".to_string()), Ok(RegisterType::SP));
    assert_eq!(
        register_type_of(&"x0".to_string()),
        Err(LexError::UnrecognizedRegister { token: "x0".to_string() })
    );
    assert_eq!(
        register_type_of(&"".to_string()),
        Err(LexError::UnrecognizedRegister { token: "".to_string() })
    );
}

#[test]
fn comment_truncation() {
    let lx = Lexer::new();
    let ops = lx.parse_operands(vec!["d0".to_string(), "#1 ; comment".to_string()]);
    assert_eq!(ops, vec![Operand::Register(RegisterType::Data, "d0".to_string())]);
}

#[test]
fn constant_substitution_scope() {
    let lx = Lexer::new();
    let out = lx.apply_equ(vec![
        "FOO equ 4".to_string(),
        "move.w #FOO,d0 ; FOO here".to_string(),
    ]);
    assert_eq!(
        out,
        vec!["FOO equ 4".to_string(), "move.w #4,d0 ; FOO here".to_string()]
    );
}

#[test]
fn constant_substitution_idempotent_on_example() {
    let lx = Lexer::new();
    let input = vec![
        "FOO equ 4".to_string(),
        "move.w #FOO,d0 ; FOO here".to_string(),
        "add #FOO,d1".to_string(),
    ];
    let once = lx.apply_equ(input);
    let twice = lx.apply_equ(once.clone());
    assert_eq!(twice, once);
}

#[test]
fn comment_free_lines_pass_through() {
    let lx = Lexer::new();
    let out = lx.apply_equ(vec!["FOO equ 4".to_string(), "move.w #FOO,d0".to_string()]);
    assert_eq!(
        out,
        vec!["FOO equ 4".to_string(), "move.w #FOO,d0".to_string()]
    );
}

#[test]
fn line_count_preserved() {
    let mut lx = Lexer::new();
    lx.lex("a b\n\n; only a comment\nmove.w #1,d0".to_string());
    let lines = lx.get_lines();
    assert_eq!(lines.len(), 4);
    assert_eq!(lines[1].parsed, Line::Empty);
    assert_eq!(
        lines[2].parsed,
        Line::Comment { content: "; only a comment".to_string() }
    );
}

#[test]
fn lex_full_program() {
    let mut lx = Lexer::new();
    lx.lex(
        "LEN equ 10\nstart: ; entry\n  move.w #LEN,d0 ; load\n\nloop: move.w d0,(a0)+\n  org $100\nmystery"
            .to_string(),
    );
    let lines = lx.get_lines();
    assert_eq!(lines.len(), 7);
    assert_eq!(
        lines[0].parsed,
        Line::Directive {
            args: vec!["LEN".to_string(), "equ".to_string(), "10".to_string()]
        }
    );
    assert_eq!(
        lines[1].parsed,
        Line::Label {
            name: "start".to_string(),
            args: vec![
                ArgSeparated::Space(";".to_string()),
                ArgSeparated::Space("entry".to_string()),
            ],
        }
    );
    assert_eq!(
        lines[2].parsed,
        Line::Instruction {
            name: "move".to_string(),
            operands: vec![Operand::Immediate("#10".to_string())],
            size: Size::Word,
        }
    );
    assert_eq!(lines[2].line, "move.w #10,d0 ; load".to_string());
    assert_eq!(lines[3].parsed, Line::Empty);
    assert_eq!(
        lines[4].parsed,
        Line::Label {
            name: "loop".to_string(),
            args: vec![
                ArgSeparated::Space("move.w".to_string()),
                ArgSeparated::Comma("d0".to_string()),
                ArgSeparated::Comma("(a0)+".to_string()),
            ],
        }
    );
    assert_eq!(
        lines[5].parsed,
        Line::Directive { args: vec!["org".to_string(), "$100".to_string()] }
    );
    assert_eq!(lines[6].parsed, Line::Unknown);
}

#[test]
fn round_trip_classification_kind() {
    let mut lx = Lexer::new();
    lx.lex("start:\nmove.w #1,d0\n; note\n\norg $0\nmystery".to_string());
    let re = AsmRegex::new();
    for pl in lx.get_lines() {
        let kind = re.get_line_kind(&pl.line.to_lowercase());
        let ok = match (&pl.parsed, &kind) {
            (Line::Label { .. }, m68k_lexer::ast::LineKind::Label) => true,
            (Line::Directive { .. }, m68k_lexer::ast::LineKind::Directive) => true,
            (Line::Instruction { .. }, m68k_lexer::ast::LineKind::Instruction { .. }) => true,
            (Line::Comment { .. }, m68k_lexer::ast::LineKind::Comment) => true,
            (Line::Empty, m68k_lexer::ast::LineKind::Empty) => true,
            (Line::Unknown, m68k_lexer::ast::LineKind::Unknown) => true,
            _ => false,
        };
        assert!(ok, "classification changed for line {:?}", pl.line);
    }
}

#[test]
fn split_at_spaces_keeps_empty_tokens() {
    let re = AsmRegex::new();
    assert_eq!(
        re.split_at_spaces("a  b"),
        vec!["a".to_string(), "".to_string(), "b".to_string()]
    );
}

#[test]
fn space_after_comma_is_suppressed() {
    let re = AsmRegex::new();
    let r = re.split_into_separated_args("a, b");
    assert_eq!(
        r,
        vec![ArgSeparated::Comma("a".to_string()), ArgSeparated::Comma("b".to_string())]
    );
}

#[test]
fn empty_input_gives_no_lines() {
    let mut lx = Lexer::new();
    lx.lex("".to_string());
    assert_eq!(lx.get_lines().len(), 0);
}

#[test]
fn line_endings_crlf_and_trailing_newline() {
    let mut lx = Lexer::new();
    lx.lex("a b\r\nc d\n".to_string());
    let lines = lx.get_lines();
    // a trailing line feed opens no extra line, and the carriage return is
    // stripped from the stored text
    assert_eq!(lines.len(), 2);
    assert_eq!(lines[0].line, "a b".to_string());
    assert_eq!(lines[1].line, "c d".to_string());
}

#[test]
fn operand_case_is_not_folded() {
    // only line classification is lowercased; operand tokens keep their
    // case, so an uppercase register name falls back to a label
    let re = AsmRegex::new();
    assert_eq!(re.get_operand_kind(&"D0".to_string()), OperandKind::Label);
    let lx = Lexer::new();
    assert_eq!(
        lx.parse_operand(&"D0".to_string()),
        Operand::Label("D0".to_string())
    );
}
