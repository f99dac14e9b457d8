//! The tables that give each mnemonic of a compute instruction its binary code, and their
//! inverses.

use crate::error::AssembleError;
use crate::numeral::{
    binary_text, bits_text, bits_value, is_bits, lemma_bits_round_trip, lemma_bits_value_bound,
    parse_bits,
};
use crate::text::same_text;
use vstd::arithmetic::power2::*;
use vstd::prelude::*;
use vstd::string::*;

verus! {

/// Whether `c` names one of the registers that can receive a result.
pub open spec fn is_register(c: char) -> bool {
    c == 'A' || c == 'D' || c == 'M'
}

/// Whether `mnemonic` names a destination: one or more of the registers A, D and M, each of
/// them once, in any order.
pub open spec fn names_destination(mnemonic: Seq<char>) -> bool {
    &&& mnemonic.len() > 0
    &&& forall|i: int| 0 <= i < mnemonic.len() ==> is_register(#[trigger] mnemonic[i])
    &&& mnemonic.no_duplicates()
}

/// `weight` where `mnemonic` names `register`, and nothing where it does not.
pub open spec fn flag(mnemonic: Seq<char>, register: char, weight: nat) -> nat {
    if mnemonic.contains(register) {
        weight
    } else {
        0
    }
}

/// The 3-bit code of a destination mnemonic: one bit each for the registers A, D and M, set
/// where the mnemonic names the register, in whatever order it names them. A text that names
/// no destination has the code 0.
pub open spec fn dest_code(mnemonic: Seq<char>) -> nat {
    if names_destination(mnemonic) {
        flag(mnemonic, 'A', 0b100) + flag(mnemonic, 'D', 0b010) + flag(mnemonic, 'M', 0b001)
    } else {
        0b000
    }
}

/// The 3-bit code of a jump mnemonic. A text that names no jump condition has the code 0.
pub open spec fn jump_code(mnemonic: Seq<char>) -> nat {
    if mnemonic == "JGT"@ {
        0b001
    } else if mnemonic == "JEQ"@ {
        0b010
    } else if mnemonic == "JGE"@ {
        0b011
    } else if mnemonic == "JLT"@ {
        0b100
    } else if mnemonic == "JNE"@ {
        0b101
    } else if mnemonic == "JLE"@ {
        0b110
    } else if mnemonic == "JMP"@ {
        0b111
    } else {
        0b000
    }
}

/// The 7-bit code of an operation mnemonic, where it has one. The leading bit tells whether
/// the operation reads M in the place of A.
pub open spec fn comp_code(mnemonic: Seq<char>) -> Option<nat> {
    if mnemonic == "0"@ {
        Some(0b0101010)
    } else if mnemonic == "1"@ {
        Some(0b0111111)
    } else if mnemonic == "-1"@ {
        Some(0b0111010)
    } else if mnemonic == "D"@ {
        Some(0b0001100)
    } else if mnemonic == "A"@ {
        Some(0b0110000)
    } else if mnemonic == "!D"@ {
        Some(0b0001101)
    } else if mnemonic == "!A"@ {
        Some(0b0110001)
    } else if mnemonic == "-D"@ {
        Some(0b0001111)
    } else if mnemonic == "-A"@ {
        Some(0b0110011)
    } else if mnemonic == "D+1"@ {
        Some(0b0011111)
    } else if mnemonic == "A+1"@ {
        Some(0b0110111)
    } else if mnemonic == "D-1"@ {
        Some(0b0001110)
    } else if mnemonic == "A-1"@ {
        Some(0b0110010)
    } else if mnemonic == "D+A"@ {
        Some(0b0000010)
    } else if mnemonic == "D-A"@ {
        Some(0b0010011)
    } else if mnemonic == "A-D"@ {
        Some(0b0000111)
    } else if mnemonic == "D&A"@ {
        Some(0b0000000)
    } else if mnemonic == "D|A"@ {
        Some(0b0010101)
    } else if mnemonic == "M"@ {
        Some(0b1110000)
    } else if mnemonic == "!M"@ {
        Some(0b1110001)
    } else if mnemonic == "-M"@ {
        Some(0b1110011)
    } else if mnemonic == "M+1"@ {
        Some(0b1110111)
    } else if mnemonic == "M-1"@ {
        Some(0b1110010)
    } else if mnemonic == "D+M"@ {
        Some(0b1000010)
    } else if mnemonic == "D-M"@ {
        Some(0b1010011)
    } else if mnemonic == "M-D"@ {
        Some(0b1000111)
    } else if mnemonic == "D&M"@ {
        Some(0b1000000)
    } else if mnemonic == "D|M"@ {
        Some(0b1010101)
    } else {
        None
    }
}

/// The text of a compute instruction's word: the marker `111`, then the codes of the operation,
/// of the destination and of the jump. There is none where the operation has no code.
pub open spec fn compute_word(dest: Seq<char>, comp: Seq<char>, jump: Seq<char>) -> Option<
    Seq<char>,
> {
    match comp_code(comp) {
        Some(code) => Some(
            "111"@ + bits_text(code, 7) + bits_text(dest_code(dest), 3) + bits_text(
                jump_code(jump),
                3,
            ),
        ),
        None => None,
    }
}

/// The mnemonic by which a destination code is read back. Of the mnemonics with one code it
/// is `MD`, `AM`, `AD` or `ADM`.
pub open spec fn dest_mnemonic(code: nat) -> Seq<char> {
    if code == 0b001 {
        "M"@
    } else if code == 0b010 {
        "D"@
    } else if code == 0b011 {
        "MD"@
    } else if code == 0b100 {
        "A"@
    } else if code == 0b101 {
        "AM"@
    } else if code == 0b110 {
        "AD"@
    } else if code == 0b111 {
        "ADM"@
    } else {
        Seq::empty()
    }
}

/// The mnemonic by which a jump code is read back; the code 0 is read back as no jump.
pub open spec fn jump_mnemonic(code: nat) -> Seq<char> {
    if code == 0b001 {
        "JGT"@
    } else if code == 0b010 {
        "JEQ"@
    } else if code == 0b011 {
        "JGE"@
    } else if code == 0b100 {
        "JLT"@
    } else if code == 0b101 {
        "JNE"@
    } else if code == 0b110 {
        "JLE"@
    } else if code == 0b111 {
        "JMP"@
    } else {
        Seq::empty()
    }
}

/// The mnemonic of the operation with the given code, where the code is that of an operation.
pub open spec fn comp_mnemonic(code: nat) -> Option<Seq<char>> {
    if code == 0b0101010 {
        Some("0"@)
    } else if code == 0b0111111 {
        Some("1"@)
    } else if code == 0b0111010 {
        Some("-1"@)
    } else if code == 0b0001100 {
        Some("D"@)
    } else if code == 0b0110000 {
        Some("A"@)
    } else if code == 0b0001101 {
        Some("!D"@)
    } else if code == 0b0110001 {
        Some("!A"@)
    } else if code == 0b0001111 {
        Some("-D"@)
    } else if code == 0b0110011 {
        Some("-A"@)
    } else if code == 0b0011111 {
        Some("D+1"@)
    } else if code == 0b0110111 {
        Some("A+1"@)
    } else if code == 0b0001110 {
        Some("D-1"@)
    } else if code == 0b0110010 {
        Some("A-1"@)
    } else if code == 0b0000010 {
        Some("D+A"@)
    } else if code == 0b0010011 {
        Some("D-A"@)
    } else if code == 0b0000111 {
        Some("A-D"@)
    } else if code == 0b0000000 {
        Some("D&A"@)
    } else if code == 0b0010101 {
        Some("D|A"@)
    } else if code == 0b1110000 {
        Some("M"@)
    } else if code == 0b1110001 {
        Some("!M"@)
    } else if code == 0b1110011 {
        Some("-M"@)
    } else if code == 0b1110111 {
        Some("M+1"@)
    } else if code == 0b1110010 {
        Some("M-1"@)
    } else if code == 0b1000010 {
        Some("D+M"@)
    } else if code == 0b1010011 {
        Some("D-M"@)
    } else if code == 0b1000111 {
        Some("M-D"@)
    } else if code == 0b1000000 {
        Some("D&M"@)
    } else if code == 0b1010101 {
        Some("D|M"@)
    } else {
        None
    }
}

/// The fields of a compute instruction, as texts.
pub struct Fields {
    pub dest: Seq<char>,
    pub comp: Seq<char>,
    pub jump: Seq<char>,
}

/// The fields that the word of a compute instruction was made from: the word is sixteen binary
/// digits, begins with the marker `111`, and its next seven digits are the code of an
/// operation. Any other text is the word of no compute instruction.
pub open spec fn decode_word(word: Seq<char>) -> Option<Fields> {
    if word.len() == 16 && is_bits(word) && word.subrange(0, 3) == "111"@ {
        match comp_mnemonic(bits_value(word.subrange(3, 10))) {
            Some(comp) => Some(
                Fields {
                    dest: dest_mnemonic(bits_value(word.subrange(10, 13))),
                    comp,
                    jump: jump_mnemonic(bits_value(word.subrange(13, 16))),
                },
            ),
            None => None,
        }
    } else {
        None
    }
}

/// The texts of three strings, taken as the fields of a compute instruction.
pub open spec fn fields_of(strings: (String, String, String)) -> Fields {
    Fields { dest: strings.0@, comp: strings.1@, jump: strings.2@ }
}

/// The encoder of compute instructions.
pub struct Code {}

impl Code {
    pub fn new() -> (code: Self) {
        Code {  }
    }

    /// The number that `dest_code` gives to `mnemonic`.
    fn dest_number(&self, mnemonic: &str) -> (code: u16)
        ensures
            code == dest_code(mnemonic@),
    {
        let mut a = false;
        let mut d = false;
        let mut m = false;
        for c in it: mnemonic.chars()
            invariant
                it.seq() == mnemonic@,
                forall|i: int| 0 <= i < it.index() ==> is_register(#[trigger] mnemonic@[i]),
                forall|i: int, j: int|
                    0 <= i < j < it.index() ==> mnemonic@[i] != mnemonic@[j],
                a <==> exists|i: int| 0 <= i < it.index() && mnemonic@[i] == 'A',
                d <==> exists|i: int| 0 <= i < it.index() && mnemonic@[i] == 'D',
                m <==> exists|i: int| 0 <= i < it.index() && mnemonic@[i] == 'M',
        {
            let ghost at = it.index();
            let seen = if c == 'A' {
                a
            } else if c == 'D' {
                d
            } else if c == 'M' {
                m
            } else {
                assert(!is_register(mnemonic@[at]));
                return 0b000;
            };
            if seen {
                proof {
                    let before = choose|i: int| 0 <= i < at && mnemonic@[i] == c;
                    assert(mnemonic@[before] == mnemonic@[at]);
                }
                return 0b000;
            }
            if c == 'A' {
                a = true;
            } else if c == 'D' {
                d = true;
            } else {
                m = true;
            }
            assert(mnemonic@[at] == c);
        }
        let mut code: u16 = 0b000;
        if a {
            code = code + 0b100;
        }
        if d {
            code = code + 0b010;
        }
        if m {
            code = code + 0b001;
        }
        code
    }

    /// The number that `jump_code` gives to `mnemonic`.
    fn jump_number(&self, mnemonic: &str) -> (code: u16)
        ensures
            code == jump_code(mnemonic@),
    {
        if same_text(mnemonic, "JGT") {
            0b001
        } else if same_text(mnemonic, "JEQ") {
            0b010
        } else if same_text(mnemonic, "JGE") {
            0b011
        } else if same_text(mnemonic, "JLT") {
            0b100
        } else if same_text(mnemonic, "JNE") {
            0b101
        } else if same_text(mnemonic, "JLE") {
            0b110
        } else if same_text(mnemonic, "JMP") {
            0b111
        } else {
            0b000
        }
    }

    /// The number that `comp_code` gives to `mnemonic`, where it gives one.
    fn comp_number(&self, mnemonic: &str) -> (code: Option<u16>)
        ensures
            match code {
                Some(c) => comp_code(mnemonic@) == Some(c as nat),
                None => comp_code(mnemonic@) is None,
            },
    {
        if same_text(mnemonic, "0") {
            Some(0b0101010)
        } else if same_text(mnemonic, "1") {
            Some(0b0111111)
        } else if same_text(mnemonic, "-1") {
            Some(0b0111010)
        } else if same_text(mnemonic, "D") {
            Some(0b0001100)
        } else if same_text(mnemonic, "A") {
            Some(0b0110000)
        } else if same_text(mnemonic, "!D") {
            Some(0b0001101)
        } else if same_text(mnemonic, "!A") {
            Some(0b0110001)
        } else if same_text(mnemonic, "-D") {
            Some(0b0001111)
        } else if same_text(mnemonic, "-A") {
            Some(0b0110011)
        } else if same_text(mnemonic, "D+1") {
            Some(0b0011111)
        } else if same_text(mnemonic, "A+1") {
            Some(0b0110111)
        } else if same_text(mnemonic, "D-1") {
            Some(0b0001110)
        } else if same_text(mnemonic, "A-1") {
            Some(0b0110010)
        } else if same_text(mnemonic, "D+A") {
            Some(0b0000010)
        } else if same_text(mnemonic, "D-A") {
            Some(0b0010011)
        } else if same_text(mnemonic, "A-D") {
            Some(0b0000111)
        } else if same_text(mnemonic, "D&A") {
            Some(0b0000000)
        } else if same_text(mnemonic, "D|A") {
            Some(0b0010101)
        } else if same_text(mnemonic, "M") {
            Some(0b1110000)
        } else if same_text(mnemonic, "!M") {
            Some(0b1110001)
        } else if same_text(mnemonic, "-M") {
            Some(0b1110011)
        } else if same_text(mnemonic, "M+1") {
            Some(0b1110111)
        } else if same_text(mnemonic, "M-1") {
            Some(0b1110010)
        } else if same_text(mnemonic, "D+M") {
            Some(0b1000010)
        } else if same_text(mnemonic, "D-M") {
            Some(0b1010011)
        } else if same_text(mnemonic, "M-D") {
            Some(0b1000111)
        } else if same_text(mnemonic, "D&M") {
            Some(0b1000000)
        } else if same_text(mnemonic, "D|M") {
            Some(0b1010101)
        } else {
            None
        }
    }

    /// The three binary digits that encode a destination; `000` for a text that names none.
    pub fn dest(&self, mnemonic: &str) -> (bits: String)
        ensures
            bits@ == bits_text(dest_code(mnemonic@), 3),
    {
        binary_text(self.dest_number(mnemonic), 3)
    }

    /// The three binary digits that encode a jump condition; `000` for a text that names none.
    pub fn jump(&self, mnemonic: &str) -> (bits: String)
        ensures
            bits@ == bits_text(jump_code(mnemonic@), 3),
    {
        binary_text(self.jump_number(mnemonic), 3)
    }

    /// The seven binary digits that encode an operation. A text that names no operation is
    /// refused.
    pub fn comp(&self, mnemonic: &str) -> (bits: Result<String, AssembleError>)
        ensures
            match bits {
                Ok(text) => comp_code(mnemonic@) is Some && text@ == bits_text(
                    comp_code(mnemonic@).unwrap(),
                    7,
                ),
                Err(error) => comp_code(mnemonic@) is None && error
                    == AssembleError::UnresolvedComp,
            },
    {
        match self.comp_number(mnemonic) {
            Some(code) => Ok(binary_text(code, 7)),
            None => Err(AssembleError::UnresolvedComp),
        }
    }

    /// The word of the compute instruction with the given fields, as sixteen binary digits.
    pub fn instruction(&self, dest: &str, comp: &str, jump: &str) -> (word: Result<
        String,
        AssembleError,
    >)
        ensures
            match word {
                Ok(text) => compute_word(dest@, comp@, jump@) == Some(text@),
                Err(error) => compute_word(dest@, comp@, jump@) is None && error
                    == AssembleError::UnresolvedComp,
            },
    {
        let comp_bits = self.comp(comp)?;
        let dest_bits = self.dest(dest);
        let jump_bits = self.jump(jump);
        let mut word = "111".to_owned();
        word.append(comp_bits.as_str());
        word.append(dest_bits.as_str());
        word.append(jump_bits.as_str());
        Ok(word)
    }

    /// The mnemonic that `dest_mnemonic` gives to `code`.
    fn dest_name(&self, code: u16) -> (mnemonic: &'static str)
        ensures
            mnemonic@ == dest_mnemonic(code as nat),
    {
        if code == 0b001 {
            "M"
        } else if code == 0b010 {
            "D"
        } else if code == 0b011 {
            "MD"
        } else if code == 0b100 {
            "A"
        } else if code == 0b101 {
            "AM"
        } else if code == 0b110 {
            "AD"
        } else if code == 0b111 {
            "ADM"
        } else {
            proof {
                reveal_strlit("");
            }
            ""
        }
    }

    /// The mnemonic that `jump_mnemonic` gives to `code`.
    fn jump_name(&self, code: u16) -> (mnemonic: &'static str)
        ensures
            mnemonic@ == jump_mnemonic(code as nat),
    {
        if code == 0b001 {
            "JGT"
        } else if code == 0b010 {
            "JEQ"
        } else if code == 0b011 {
            "JGE"
        } else if code == 0b100 {
            "JLT"
        } else if code == 0b101 {
            "JNE"
        } else if code == 0b110 {
            "JLE"
        } else if code == 0b111 {
            "JMP"
        } else {
            proof {
                reveal_strlit("");
            }
            ""
        }
    }

    /// The mnemonic that `comp_mnemonic` gives to `code`, where it gives one.
    fn comp_name(&self, code: u16) -> (mnemonic: Option<&'static str>)
        ensures
            match mnemonic {
                Some(text) => comp_mnemonic(code as nat) == Some(text@),
                None => comp_mnemonic(code as nat) is None,
            },
    {
        if code == 0b0101010 {
            Some("0")
        } else if code == 0b0111111 {
            Some("1")
        } else if code == 0b0111010 {
            Some("-1")
        } else if code == 0b0001100 {
            Some("D")
        } else if code == 0b0110000 {
            Some("A")
        } else if code == 0b0001101 {
            Some("!D")
        } else if code == 0b0110001 {
            Some("!A")
        } else if code == 0b0001111 {
            Some("-D")
        } else if code == 0b0110011 {
            Some("-A")
        } else if code == 0b0011111 {
            Some("D+1")
        } else if code == 0b0110111 {
            Some("A+1")
        } else if code == 0b0001110 {
            Some("D-1")
        } else if code == 0b0110010 {
            Some("A-1")
        } else if code == 0b0000010 {
            Some("D+A")
        } else if code == 0b0010011 {
            Some("D-A")
        } else if code == 0b0000111 {
            Some("A-D")
        } else if code == 0b0000000 {
            Some("D&A")
        } else if code == 0b0010101 {
            Some("D|A")
        } else if code == 0b1110000 {
            Some("M")
        } else if code == 0b1110001 {
            Some("!M")
        } else if code == 0b1110011 {
            Some("-M")
        } else if code == 0b1110111 {
            Some("M+1")
        } else if code == 0b1110010 {
            Some("M-1")
        } else if code == 0b1000010 {
            Some("D+M")
        } else if code == 0b1010011 {
            Some("D-M")
        } else if code == 0b1000111 {
            Some("M-D")
        } else if code == 0b1000000 {
            Some("D&M")
        } else if code == 0b1010101 {
            Some("D|M")
        } else {
            None
        }
    }

    /// Reads the fields of a compute instruction back from its word: the destination, the
    /// operation and the jump, in this order. A text that is the word of no compute instruction
    /// is refused.
    pub fn decode(&self, word: &str) -> (fields: Option<(String, String, String)>)
        ensures
            match fields {
                Some(strings) => decode_word(word@) == Some(fields_of(strings)),
                None => decode_word(word@) is None,
            },
    {
        if word.unicode_len() != 16 {
            return None;
        }
        let marker = word.substring_char(0, 3);
        let comp_bits = parse_bits(word.substring_char(3, 10));
        let dest_bits = parse_bits(word.substring_char(10, 13));
        let jump_bits = parse_bits(word.substring_char(13, 16));
        proof {
            lemma_bits_of_parts(word@);
            lemma_bits_value_bound(word@.subrange(3, 10));
            lemma_bits_value_bound(word@.subrange(10, 13));
            lemma_bits_value_bound(word@.subrange(13, 16));
            lemma2_to64();
        }
        if !same_text(marker, "111") {
            return None;
        }
        match (comp_bits, dest_bits, jump_bits) {
            (Some(operation), Some(destination), Some(condition)) => {
                match self.comp_name(operation) {
                    Some(comp) => Some(
                        (
                            self.dest_name(destination).to_owned(),
                            comp.to_owned(),
                            self.jump_name(condition).to_owned(),
                        ),
                    ),
                    None => None,
                }
            },
            _ => None,
        }
    }
}

/// A word of sixteen characters is made of binary digits if and only if its marker, its
/// operation code, its destination code and its jump code are.
proof fn lemma_bits_of_parts(word: Seq<char>)
    requires
        word.len() == 16,
    ensures
        is_bits(word) <==> is_bits(word.subrange(0, 3)) && is_bits(word.subrange(3, 10))
            && is_bits(word.subrange(10, 13)) && is_bits(word.subrange(13, 16)),
        word.subrange(0, 3) == "111"@ ==> is_bits(word.subrange(0, 3)),
{
    reveal_strlit("111");
    let marker = word.subrange(0, 3);
    let comp = word.subrange(3, 10);
    let dest = word.subrange(10, 13);
    let jump = word.subrange(13, 16);
    if is_bits(marker) && is_bits(comp) && is_bits(dest) && is_bits(jump) {
        assert forall|i: int| 0 <= i < word.len() implies word[i] == '0' || word[i] == '1' by {
            if i < 3 {
                assert(word[i] == marker[i]);
            } else if i < 10 {
                assert(word[i] == comp[i - 3]);
            } else if i < 13 {
                assert(word[i] == dest[i - 10]);
            } else {
                assert(word[i] == jump[i - 13]);
            }
        }
    }
    if is_bits(word) {
        assert forall|i: int| 0 <= i < marker.len() implies marker[i] == '0' || marker[i]
            == '1' by {
            assert(marker[i] == word[i]);
        }
        assert forall|i: int| 0 <= i < comp.len() implies comp[i] == '0' || comp[i] == '1' by {
            assert(comp[i] == word[i + 3]);
        }
        assert forall|i: int| 0 <= i < dest.len() implies dest[i] == '0' || dest[i] == '1' by {
            assert(dest[i] == word[i + 10]);
        }
        assert forall|i: int| 0 <= i < jump.len() implies jump[i] == '0' || jump[i] == '1' by {
            assert(jump[i] == word[i + 13]);
        }
    }
    if marker == "111"@ {
        assert forall|i: int| 0 <= i < marker.len() implies marker[i] == '0' || marker[i]
            == '1' by {
            assert(marker[i] == "111"@[i]);
        }
    }
}

/// Every operation is read back from its code.
pub proof fn lemma_comp_round_trip(mnemonic: Seq<char>)
    requires
        comp_code(mnemonic) is Some,
    ensures
        comp_code(mnemonic).unwrap() < 128,
        comp_mnemonic(comp_code(mnemonic).unwrap()) == Some(mnemonic),
{
}

/// The mnemonic by which a destination code is read back has that code.
pub proof fn lemma_dest_round_trip(code: nat)
    requires
        code < 8,
    ensures
        dest_code(dest_mnemonic(code)) == code,
{
    reveal_strlit("M");
    reveal_strlit("D");
    reveal_strlit("MD");
    reveal_strlit("A");
    reveal_strlit("AM");
    reveal_strlit("AD");
    reveal_strlit("ADM");
    let mnemonic = dest_mnemonic(code);
    if code == 0 {
        assert(mnemonic.len() == 0);
    } else {
        assert(mnemonic.len() <= 3);
        assert(names_destination(mnemonic));
        if code >= 4 {
            assert(mnemonic[0] == 'A');
        }
        if code == 2 {
            assert(mnemonic[0] == 'D');
        }
        if code == 3 || code == 6 || code == 7 {
            assert(mnemonic[1] == 'D');
        }
        if code == 1 {
            assert(mnemonic[0] == 'M');
        }
        if code == 3 {
            assert(mnemonic[0] == 'M');
        }
        if code == 5 {
            assert(mnemonic[1] == 'M');
        }
        if code == 7 {
            assert(mnemonic[2] == 'M');
        }
    }
}

/// Each of the three digits of a destination is set exactly where the mnemonic names the
/// digit's register: the first for A, the second for D, the third for M.
pub proof fn lemma_dest_digits(mnemonic: Seq<char>)
    requires
        names_destination(mnemonic),
    ensures
        bits_text(dest_code(mnemonic), 3).len() == 3,
        bits_text(dest_code(mnemonic), 3)[0] == '1' <==> mnemonic.contains('A'),
        bits_text(dest_code(mnemonic), 3)[1] == '1' <==> mnemonic.contains('D'),
        bits_text(dest_code(mnemonic), 3)[2] == '1' <==> mnemonic.contains('M'),
        is_bits(bits_text(dest_code(mnemonic), 3)),
{
    lemma2_to64();
    lemma_bits_round_trip(dest_code(mnemonic), 3);
    reveal_with_fuel(bits_text, 4);
}

/// Whether two mnemonics name the same registers.
pub open spec fn same_registers(first: Seq<char>, second: Seq<char>) -> bool {
    forall|c: char| first.contains(c) <==> second.contains(c)
}

/// A destination is a set of registers: two mnemonics that name destinations have the same
/// code exactly where they name the same registers, in whatever order.
pub proof fn theorem_dest_is_a_set(first: Seq<char>, second: Seq<char>)
    requires
        names_destination(first),
        names_destination(second),
    ensures
        dest_code(first) == dest_code(second) <==> same_registers(first, second),
        dest_code(first) != 0,
{
    assert(is_register(first[0]) && first.contains(first[0]));
    if dest_code(first) == dest_code(second) {
        assert forall|c: char| first.contains(c) <==> second.contains(c) by {
            if first.contains(c) {
                let i = choose|i: int| 0 <= i < first.len() && first[i] == c;
                assert(is_register(first[i]));
            }
            if second.contains(c) {
                let i = choose|i: int| 0 <= i < second.len() && second[i] == c;
                assert(is_register(second[i]));
            }
        }
    }
    if same_registers(first, second) {
        assert(first.contains('A') <==> second.contains('A'));
        assert(first.contains('D') <==> second.contains('D'));
        assert(first.contains('M') <==> second.contains('M'));
    }
}

/// The mnemonic by which a jump code is read back has that code, and a jump condition is read
/// back from its code.
pub proof fn lemma_jump_round_trip(code: nat, mnemonic: Seq<char>)
    requires
        code < 8,
    ensures
        jump_code(jump_mnemonic(code)) == code,
        jump_code(mnemonic) != 0 ==> jump_mnemonic(jump_code(mnemonic)) == mnemonic,
{
    reveal_strlit("JGT");
    reveal_strlit("JEQ");
    reveal_strlit("JGE");
    reveal_strlit("JLT");
    reveal_strlit("JNE");
    reveal_strlit("JLE");
    reveal_strlit("JMP");
    assert("JGT"@.len() == 3 && "JGT"@[1] == 'G' && "JGT"@[2] == 'T');
    assert("JEQ"@.len() == 3 && "JEQ"@[1] == 'E' && "JEQ"@[2] == 'Q');
    assert("JGE"@.len() == 3 && "JGE"@[1] == 'G' && "JGE"@[2] == 'E');
    assert("JLT"@.len() == 3 && "JLT"@[1] == 'L' && "JLT"@[2] == 'T');
    assert("JNE"@.len() == 3 && "JNE"@[1] == 'N' && "JNE"@[2] == 'E');
    assert("JLE"@.len() == 3 && "JLE"@[1] == 'L' && "JLE"@[2] == 'E');
    assert("JMP"@.len() == 3 && "JMP"@[1] == 'M' && "JMP"@[2] == 'P');
}

/// Reading back the word of a compute instruction gives the fields it was made from, up to the
/// spelling of the destination and of an absent jump: the operation is the same text; the
/// destination that is read back has the code of the one that went in, and so has the jump;
/// and a jump condition is read back as the same text.
pub proof fn theorem_decode_inverts_encode(dest: Seq<char>, comp: Seq<char>, jump: Seq<char>)
    requires
        comp_code(comp) is Some,
    ensures
        decode_word(compute_word(dest, comp, jump).unwrap()) == Some(
            Fields {
                dest: dest_mnemonic(dest_code(dest)),
                comp,
                jump: jump_mnemonic(jump_code(jump)),
            },
        ),
        dest_code(dest_mnemonic(dest_code(dest))) == dest_code(dest),
        jump_code(jump_mnemonic(jump_code(jump))) == jump_code(jump),
        jump_code(jump) != 0 ==> jump_mnemonic(jump_code(jump)) == jump,
{
    let operation = comp_code(comp).unwrap();
    let comp_bits = bits_text(operation, 7);
    let dest_bits = bits_text(dest_code(dest), 3);
    let jump_bits = bits_text(jump_code(jump), 3);
    let word = compute_word(dest, comp, jump).unwrap();
    reveal_strlit("111");
    lemma2_to64();
    lemma_comp_round_trip(comp);
    lemma_dest_round_trip(dest_code(dest));
    lemma_jump_round_trip(jump_code(jump), jump);
    lemma_bits_round_trip(operation, 7);
    lemma_bits_round_trip(dest_code(dest), 3);
    lemma_bits_round_trip(jump_code(jump), 3);
    assert(word.subrange(0, 3) =~= "111"@);
    assert(word.subrange(3, 10) =~= comp_bits);
    assert(word.subrange(10, 13) =~= dest_bits);
    assert(word.subrange(13, 16) =~= jump_bits);
    lemma_bits_of_parts(word);
}

} // verus!
