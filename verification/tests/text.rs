use hack_assembler::text::{
    find_char, last_char, same_text, split_at_first, trim, trimmed_lines, white_space,
};

#[test]
fn same_text_compares_character_by_character() {
    assert!(same_text("", ""));
    assert!(same_text("JMP", "JMP"));
    assert!(!same_text("JMP", "JMQ"));
    assert!(!same_text("JMP", "JM"));
    assert!(!same_text("JM", "JMP"));
    assert!(!same_text("", "J"));
    assert!(same_text("größe", "größe"));
    assert!(!same_text("große", "größe"));
}

#[test]
fn last_character() {
    assert_eq!(last_char(""), None);
    assert_eq!(last_char("x"), Some('x'));
    assert_eq!(last_char("(LOOP)"), Some(')'));
    assert_eq!(last_char("café"), Some('é'));
}

#[test]
fn find_char_counts_characters_not_bytes() {
    assert_eq!(find_char("", '='), None);
    assert_eq!(find_char("D+1", '='), None);
    assert_eq!(find_char("=", '='), Some(0));
    assert_eq!(find_char("MD=M+1", '='), Some(2));
    assert_eq!(find_char("a=b=c", '='), Some(1));
    assert_eq!(find_char("äö=ü", '='), Some(2));
}

#[test]
fn split_at_first_leaves_the_delimiter_out() {
    assert_eq!(split_at_first("D+1", '='), None);
    assert_eq!(split_at_first("", '='), None);
    assert_eq!(split_at_first("MD=M+1", '='), Some(("MD", "M+1")));
    assert_eq!(split_at_first("=", '='), Some(("", "")));
    assert_eq!(split_at_first("a=b=c", '='), Some(("a", "b=c")));
    assert_eq!(split_at_first("0;JMP", ';'), Some(("0", "JMP")));
    assert_eq!(split_at_first("äö=üß", '='), Some(("äö", "üß")));
}

#[test]
fn white_space_is_what_the_standard_library_takes_for_it() {
    for code in 0u32..=0x10FFFF {
        if let Some(c) = char::from_u32(code) {
            assert_eq!(white_space(c), c.is_whitespace(), "U+{:04X}", code);
        }
    }
}

#[test]
fn white_space_of_common_characters() {
    for c in [' ', '\t', '\n', '\r', '\u{A0}', '\u{3000}', '\u{2028}'] {
        assert!(white_space(c));
    }
    for c in ['a', '0', '/', '@', '(', '_', '\u{0}', '\u{200B}', '\u{FEFF}'] {
        assert!(!white_space(c));
    }
}

#[test]
fn trim_takes_the_white_space_around_a_text() {
    assert_eq!(trim("  D=A  "), "D=A");
    assert_eq!(trim("\t@i\r"), "@i");
    assert_eq!(trim("(LOOP)\n"), "(LOOP)");
    assert_eq!(trim("\u{3000}0;JMP\u{A0}"), "0;JMP");
    assert_eq!(trim("x "), "x");
    assert_eq!(trim(" x"), "x");
}

#[test]
fn trim_keeps_the_white_space_inside_a_text() {
    assert_eq!(trim("  // a  comment\t"), "// a  comment");
    assert_eq!(trim(" D = A "), "D = A");
    assert_eq!(trim(" é è "), "é è");
}

#[test]
fn trim_of_a_text_without_white_space_around_it() {
    assert_eq!(trim("D=A"), "D=A");
    assert_eq!(trim("x"), "x");
    assert_eq!(trim("a b"), "a b");
}

#[test]
fn trim_of_blank_texts_is_empty() {
    assert_eq!(trim(""), "");
    assert_eq!(trim(" "), "");
    assert_eq!(trim(" \t\r\n "), "");
}

#[test]
fn trim_is_what_the_standard_library_does() {
    for text in [
        "", " ", "a", " a", "a ", " a ", "  a  b  ", "\t\ta=b;c\r\n", "\u{2003}x\u{2003}",
        "\u{200B} x \u{200B}", "  \u{1680}",
    ] {
        assert_eq!(trim(text), text.trim());
    }
}

#[test]
fn trimmed_lines_of_a_program() {
    let text = "// Adds 2 and 3\n\n  @2\n\tD=A   \n@3\nD=D+A\n(END)\n   @END\n0;JMP\n";
    assert_eq!(
        trimmed_lines(text),
        vec!["// Adds 2 and 3", "", "@2", "D=A", "@3", "D=D+A", "(END)", "@END", "0;JMP"]
    );
}

#[test]
fn trimmed_lines_of_the_empty_text_are_none() {
    assert_eq!(trimmed_lines(""), Vec::<String>::new());
}

#[test]
fn trimmed_lines_have_no_empty_line_behind_the_last_line_feed() {
    assert_eq!(trimmed_lines("@1\n"), vec!["@1"]);
    assert_eq!(trimmed_lines("@1"), vec!["@1"]);
    assert_eq!(trimmed_lines("@1\n\n"), vec!["@1", ""]);
    assert_eq!(trimmed_lines("\n"), vec![""]);
    assert_eq!(trimmed_lines("\n\n"), vec!["", ""]);
    assert_eq!(trimmed_lines("\n@1"), vec!["", "@1"]);
}

#[test]
fn trimmed_lines_end_at_a_carriage_return_and_line_feed() {
    assert_eq!(trimmed_lines("@1\r\nD=A\r\n"), vec!["@1", "D=A"]);
    assert_eq!(trimmed_lines("@1\r\n\r\nD=A"), vec!["@1", "", "D=A"]);
    assert_eq!(trimmed_lines("\r\n"), vec![""]);
    assert_eq!(trimmed_lines("@1\r"), vec!["@1"]);
    assert_eq!(trimmed_lines("\r"), vec![""]);
    assert_eq!(trimmed_lines("a\rb\n"), vec!["a\rb"]);
}

#[test]
fn trimmed_lines_of_a_text_that_is_not_ascii() {
    assert_eq!(
        trimmed_lines("// größer als null\n\u{3000}@zähler \r\nD=M\n"),
        vec!["// größer als null", "@zähler", "D=M"]
    );
    assert_eq!(trimmed_lines("é"), vec!["é"]);
    assert_eq!(trimmed_lines("é\n\u{2028}\nè"), vec!["é", "", "è"]);
}

#[test]
fn trimmed_lines_are_what_the_standard_library_gives() {
    for text in [
        "", "\n", "\r", "\r\n", "a", "a\n", "a\r\n", "a\r", "a\n\r", "a\n\nb", " a \n b ",
        "a\r\r\n", "\n\n\n", "  \n  ", "x\ty\n\tz", "ä\nö\r\nü", "\u{A0}a\u{A0}\n",
        "a\u{85}\nb", "(L)\n@L\n0;JMP",
    ] {
        let expected: Vec<String> = text.lines().map(|line| line.trim().to_string()).collect();
        assert_eq!(trimmed_lines(text), expected, "{:?}", text);
    }
}

#[test]
fn trimmed_lines_of_a_long_text() {
    let mut text = String::new();
    for n in 0..50000 {
        text.push_str(&format!("  @{}  \r\n", n % 1000));
    }
    let lines = trimmed_lines(&text);
    assert_eq!(lines.len(), 50000);
    assert_eq!(lines[0], "@0");
    assert_eq!(lines[49999], "@999");
}

#[test]
fn test_read_lines() {
    let text = [
        "// Compute R1=1+...+R0",
        "  @i",
        "  M=1",
        "  @R1",
        "  M=0",
        "(LOOP)",
        "  @i",
        "  D=M",
        "",
        "  AM=D|M",
        "",
    ]
    .join("\n");
    let code_lines = trimmed_lines(&text);
    assert!(code_lines.len() == 10);
    // check first code line
    assert!(code_lines[0] == "// Compute R1=1+...+R0");
    // check last code line
    assert!(code_lines[code_lines.len() - 1] == "AM=D|M");
}
