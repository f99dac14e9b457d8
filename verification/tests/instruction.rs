use hack_assembler::instruction::{
    classify, comp_of, dest_of, jump_of, symbol_of, InstructionKind,
};

#[test]
fn blank_lines_and_comments_are_skipped() {
    assert_eq!(classify(""), InstructionKind::Skip);
    assert_eq!(classify("//"), InstructionKind::Skip);
    assert_eq!(classify("// Compute R1=1+...+R0"), InstructionKind::Skip);
    assert_eq!(classify("//@5"), InstructionKind::Skip);
}

#[test]
fn a_single_slash_is_no_comment() {
    assert_eq!(classify("/"), InstructionKind::Compute);
    assert_eq!(classify("/ /"), InstructionKind::Compute);
}

#[test]
fn lines_that_begin_with_an_at_sign_are_address_instructions() {
    assert_eq!(classify("@"), InstructionKind::Address);
    assert_eq!(classify("@0"), InstructionKind::Address);
    assert_eq!(classify("@sum"), InstructionKind::Address);
    assert_eq!(classify("@(x)"), InstructionKind::Address);
}

#[test]
fn bracketed_lines_are_labels() {
    assert_eq!(classify("(LOOP)"), InstructionKind::Label);
    assert_eq!(classify("()"), InstructionKind::Label);
    assert_eq!(classify("(a)(b)"), InstructionKind::Label);
}

#[test]
fn half_bracketed_lines_are_compute_instructions() {
    assert_eq!(classify("("), InstructionKind::Compute);
    assert_eq!(classify(")"), InstructionKind::Compute);
    assert_eq!(classify("(LOOP"), InstructionKind::Compute);
    assert_eq!(classify("LOOP)"), InstructionKind::Compute);
}

#[test]
fn any_other_line_is_a_compute_instruction() {
    assert_eq!(classify("D=A"), InstructionKind::Compute);
    assert_eq!(classify("0;JMP"), InstructionKind::Compute);
    assert_eq!(classify("nonsense"), InstructionKind::Compute);
    assert_eq!(classify(" "), InstructionKind::Compute);
}

#[test]
fn kinds_have_their_names() {
    assert_eq!(InstructionKind::Skip.name(), None);
    assert_eq!(InstructionKind::Address.name(), Some("A_INSTRUCTION"));
    assert_eq!(InstructionKind::Label.name(), Some("L_INSTRUCTION"));
    assert_eq!(InstructionKind::Compute.name(), Some("C_INSTRUCTION"));
}

#[test]
fn symbol_of_an_address_instruction_follows_the_at_sign() {
    assert_eq!(symbol_of("@sum"), Some("sum".to_string()));
    assert_eq!(symbol_of("@42"), Some("42".to_string()));
    assert_eq!(symbol_of("@"), Some(String::new()));
    assert_eq!(symbol_of("@ x y"), Some(" x y".to_string()));
    assert_eq!(symbol_of("@größe"), Some("größe".to_string()));
}

#[test]
fn symbol_of_a_label_stands_between_the_brackets() {
    assert_eq!(symbol_of("(LOOP)"), Some("LOOP".to_string()));
    assert_eq!(symbol_of("()"), Some(String::new()));
    assert_eq!(symbol_of("((x))"), Some("(x)".to_string()));
    assert_eq!(symbol_of("(schleife_für)"), Some("schleife_für".to_string()));
}

#[test]
fn other_lines_carry_no_symbol() {
    assert_eq!(symbol_of(""), None);
    assert_eq!(symbol_of("// @x"), None);
    assert_eq!(symbol_of("D=A"), None);
    assert_eq!(symbol_of("(LOOP"), None);
}

#[test]
fn fields_of_a_full_compute_instruction() {
    assert_eq!(dest_of("AM=D|M;JNE"), "AM");
    assert_eq!(comp_of("AM=D|M;JNE"), "D|M");
    assert_eq!(jump_of("AM=D|M;JNE"), "JNE");
}

#[test]
fn absent_fields_are_empty() {
    assert_eq!(dest_of("0;JMP"), "");
    assert_eq!(comp_of("0;JMP"), "0");
    assert_eq!(jump_of("0;JMP"), "JMP");
    assert_eq!(dest_of("M=D"), "M");
    assert_eq!(comp_of("M=D"), "D");
    assert_eq!(jump_of("M=D"), "");
    assert_eq!(dest_of("D+1"), "");
    assert_eq!(comp_of("D+1"), "D+1");
    assert_eq!(jump_of("D+1"), "");
}

#[test]
fn fields_split_at_the_first_delimiters() {
    assert_eq!(dest_of("A=B=C;X;Y"), "A");
    assert_eq!(comp_of("A=B=C;X;Y"), "B=C");
    assert_eq!(jump_of("A=B=C;X;Y"), "X;Y");
    // an `=` behind the `;` still ends the destination
    assert_eq!(dest_of("D;JGT=1"), "D;JGT");
    assert_eq!(comp_of("D;JGT=1"), "1");
    assert_eq!(jump_of("D;JGT=1"), "");
}

#[test]
fn fields_around_bare_delimiters_are_empty() {
    assert_eq!(dest_of("="), "");
    assert_eq!(comp_of("="), "");
    assert_eq!(jump_of("="), "");
    assert_eq!(dest_of(";"), "");
    assert_eq!(comp_of(";"), "");
    assert_eq!(jump_of(";"), "");
    assert_eq!(dest_of("=;"), "");
    assert_eq!(comp_of("=;"), "");
    assert_eq!(jump_of("=;"), "");
    assert_eq!(dest_of(""), "");
    assert_eq!(comp_of(""), "");
    assert_eq!(jump_of(""), "");
}

#[test]
fn fields_keep_the_white_space_inside_a_line() {
    assert_eq!(dest_of("D = A ; JMP"), "D ");
    assert_eq!(comp_of("D = A ; JMP"), " A ");
    assert_eq!(jump_of("D = A ; JMP"), " JMP");
}
