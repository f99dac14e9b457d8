//! Fixed-width binary numerals and decimal literals, as text.

use vstd::prelude::*;
use vstd::arithmetic::power2::*;
use vstd::string::*;

verus! {

/// The character that stands for one binary digit.
pub open spec fn bit_char(bit: bool) -> char {
    if bit {
        '1'
    } else {
        '0'
    }
}

/// The `width` low-order binary digits of `value`, most significant first.
pub open spec fn bits_text(value: nat, width: nat) -> Seq<char>
    decreases width,
{
    if width == 0 {
        Seq::empty()
    } else {
        bits_text(value / 2, (width - 1) as nat).push(bit_char(value % 2 == 1))
    }
}

/// The number that a string of binary digits denotes; any character other than `'1'` counts as
/// a zero digit.
pub open spec fn bits_value(text: Seq<char>) -> nat
    decreases text.len(),
{
    if text.len() == 0 {
        0
    } else {
        2 * bits_value(text.drop_last()) + if text.last() == '1' {
            1nat
        } else {
            0nat
        }
    }
}

/// Appends the `width` low-order binary digits of `value` to `out`.
pub fn push_bits(out: &mut String, value: u16, width: u8)
    ensures
        final(out)@ == old(out)@ + bits_text(value as nat, width as nat),
    decreases width,
{
    if width > 0 {
        push_bits(out, value / 2, width - 1);
        if value % 2 == 1 {
            out.append("1");
        } else {
            out.append("0");
        }
        proof {
            reveal_strlit("1");
            reveal_strlit("0");
        }
    }
}

/// The `width` low-order binary digits of `value`, most significant first.
pub fn binary_text(value: u16, width: u8) -> (text: String)
    ensures
        text@ == bits_text(value as nat, width as nat),
{
    let mut text = String::new();
    push_bits(&mut text, value, width);
    text
}

/// Whether every character of `text` is a binary digit.
pub open spec fn is_bits(text: Seq<char>) -> bool {
    forall|i: int| 0 <= i < text.len() ==> text[i] == '0' || text[i] == '1'
}

/// The number written in `text` where `text` is made of at most sixteen binary digits.
pub open spec fn bits_number(text: Seq<char>) -> Option<u16> {
    if is_bits(text) && text.len() <= 16 {
        Some(bits_value(text) as u16)
    } else {
        None
    }
}

/// A string of binary digits denotes a number below two to the power of its length.
pub proof fn lemma_bits_value_bound(text: Seq<char>)
    ensures
        bits_value(text) < pow2(text.len()),
    decreases text.len(),
{
    if text.len() == 0 {
        lemma2_to64();
    } else {
        lemma_bits_value_bound(text.drop_last());
        lemma_pow2_unfold(text.len());
    }
}

/// Writing a number with enough binary digits and reading the digits back gives the number.
pub proof fn lemma_bits_round_trip(value: nat, width: nat)
    requires
        value < pow2(width),
    ensures
        is_bits(bits_text(value, width)),
        bits_text(value, width).len() == width,
        bits_value(bits_text(value, width)) == value,
    decreases width,
{
    if width == 0 {
        lemma2_to64();
    } else {
        lemma_pow2_unfold(width);
        lemma_bits_round_trip(value / 2, (width - 1) as nat);
        let shorter = bits_text(value / 2, (width - 1) as nat);
        let text = bits_text(value, width);
        assert(text.drop_last() =~= shorter);
        assert forall|i: int| 0 <= i < text.len() implies text[i] == '0' || text[i] == '1' by {
            if i < shorter.len() {
                assert(text[i] == shorter[i]);
            }
        }
    }
}

/// Reads a number written with at most sixteen binary digits.
pub fn parse_bits(text: &str) -> (number: Option<u16>)
    ensures
        number == bits_number(text@),
{
    let len = text.unicode_len();
    if len > 16 {
        return None;
    }
    let mut value: u16 = 0;
    for c in it: text.chars()
        invariant
            it.seq() == text@,
            len == text@.len(),
            len <= 16,
            is_bits(text@.take(it.index())),
            value == bits_value(text@.take(it.index())),
    {
        let ghost i = it.index();
        let ghost longer = text@.take(i + 1);
        proof {
            assert(longer.drop_last() =~= text@.take(i));
            lemma_bits_value_bound(longer);
            lemma2_to64();
        }
        if c == '1' {
            value = 2 * value + 1;
        } else if c == '0' {
            value = 2 * value;
        } else {
            return None;
        }
        assert forall|j: int| 0 <= j < longer.len() implies longer[j] == '0' || longer[j]
            == '1' by {
            if j < i {
                assert(longer[j] == text@.take(i)[j]);
            }
        }
    }
    assert(text@.take(len as int) =~= text@);
    Some(value)
}

/// Whether `c` is one of the ten decimal digits.
pub open spec fn is_digit(c: char) -> bool {
    '0' <= c && c <= '9'
}

/// The number that a decimal digit stands for.
pub open spec fn digit_value(c: char) -> nat {
    (c as u32 - '0' as u32) as nat
}

/// Whether `text` is a decimal literal: one or more decimal digits and nothing else.
pub open spec fn is_decimal(text: Seq<char>) -> bool {
    text.len() > 0 && forall|i: int| 0 <= i < text.len() ==> is_digit(#[trigger] text[i])
}

/// The number that a string of decimal digits denotes.
pub open spec fn decimal_value(text: Seq<char>) -> nat
    decreases text.len(),
{
    if text.len() == 0 {
        0
    } else {
        10 * decimal_value(text.drop_last()) + digit_value(text.last())
    }
}

/// What a text is when read as a decimal literal of a 16-bit word.
#[derive(Clone, Copy, Debug, PartialEq, Eq, Structural)]
pub enum Literal {
    /// The text is not a decimal literal.
    Absent,
    /// The text is a decimal literal and this is its value.
    Word(u16),
    /// The text is a decimal literal whose value does not fit in sixteen bits.
    TooWide,
}

/// Reads `text` as a decimal literal of a 16-bit word.
pub open spec fn decimal_literal(text: Seq<char>) -> Literal {
    if !is_decimal(text) {
        Literal::Absent
    } else if decimal_value(text) <= 0xFFFF {
        Literal::Word(decimal_value(text) as u16)
    } else {
        Literal::TooWide
    }
}

/// Reads `text` as a decimal literal of a 16-bit word.
pub fn parse_decimal(text: &str) -> (literal: Literal)
    ensures
        literal == decimal_literal(text@),
{
    if text.is_empty() {
        return Literal::Absent;
    }
    let mut value: u32 = 0;
    let mut wide = false;
    for c in it: text.chars()
        invariant
            it.seq() == text@,
            text@.len() > 0,
            forall|j: int| 0 <= j < it.index() ==> is_digit(#[trigger] text@[j]),
            !wide ==> value == decimal_value(text@.take(it.index())) && value <= 0xFFFF,
            wide ==> decimal_value(text@.take(it.index())) > 0xFFFF,
    {
        let ghost i = it.index();
        proof {
            assert(text@.take(i + 1).drop_last() =~= text@.take(i));
        }
        if c < '0' || c > '9' {
            return Literal::Absent;
        }
        if !wide {
            value = 10 * value + (c as u32 - '0' as u32);
            if value > 0xFFFF {
                wide = true;
            }
        }
    }
    assert(text@.take(text@.len() as int) =~= text@);
    if wide {
        Literal::TooWide
    } else {
        Literal::Word(value as u16)
    }
}

} // verus!
