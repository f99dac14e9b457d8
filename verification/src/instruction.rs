//! What one line of a program is, and the fields it carries.

use crate::text::{last_char, split_at_first, split_first};
use vstd::prelude::*;
use vstd::string::*;

verus! {

/// The kinds of line in a program.
#[derive(Clone, Copy, Debug, PartialEq, Eq, Structural)]
pub enum InstructionKind {
    /// An empty line or a comment: it takes no part in the program.
    Skip,
    /// `@symbol`: loads the address register with a number or with the address of a symbol.
    Address,
    /// `(symbol)`: names the position of the instruction that follows.
    Label,
    /// `dest=comp;jump`: an operation, with where its result goes and when to jump.
    Compute,
}

/// A comment begins with two slashes.
pub open spec fn is_comment(line: Seq<char>) -> bool {
    line.len() >= 2 && line[0] == '/' && line[1] == '/'
}

/// The kind of a line that carries no white space around it.
pub open spec fn line_kind(line: Seq<char>) -> InstructionKind {
    if line.len() == 0 || is_comment(line) {
        InstructionKind::Skip
    } else if line[0] == '@' {
        InstructionKind::Address
    } else if line[0] == '(' && line.last() == ')' {
        InstructionKind::Label
    } else {
        InstructionKind::Compute
    }
}

/// Whether a line stands for a word of the assembled program.
pub open spec fn emits_word(line: Seq<char>) -> bool {
    line_kind(line) is Address || line_kind(line) is Compute
}

/// The symbol of an address instruction: what follows the `@`.
pub open spec fn address_symbol(line: Seq<char>) -> Seq<char> {
    line.skip(1)
}

/// The symbol of a label declaration: what stands between the brackets.
pub open spec fn label_symbol(line: Seq<char>) -> Seq<char> {
    line.subrange(1, line.len() - 1)
}

/// The symbol that a line carries, if its kind carries one.
pub open spec fn symbol_field(line: Seq<char>) -> Option<Seq<char>> {
    match line_kind(line) {
        InstructionKind::Address => Some(address_symbol(line)),
        InstructionKind::Label => Some(label_symbol(line)),
        _ => None,
    }
}

/// The destination of a compute instruction: what stands before the first `=`, and nothing
/// where the line has no `=`.
pub open spec fn dest_field(line: Seq<char>) -> Seq<char> {
    match split_first(line, '=') {
        Some((dest, _)) => dest,
        None => Seq::empty(),
    }
}

/// A compute instruction without its destination: what follows the first `=`, and the whole
/// line where it has no `=`.
pub open spec fn operation_part(line: Seq<char>) -> Seq<char> {
    match split_first(line, '=') {
        Some((_, rest)) => rest,
        None => line,
    }
}

/// The operation of a compute instruction: what stands between the destination and the first
/// `;` after it, or the end of the line.
pub open spec fn comp_field(line: Seq<char>) -> Seq<char> {
    match split_first(operation_part(line), ';') {
        Some((comp, _)) => comp,
        None => operation_part(line),
    }
}

/// The jump condition of a compute instruction: what follows the first `;` after the
/// destination, and nothing where there is no `;`.
pub open spec fn jump_field(line: Seq<char>) -> Seq<char> {
    match split_first(operation_part(line), ';') {
        Some((_, jump)) => jump,
        None => Seq::empty(),
    }
}

/// The name by which each kind of instruction is known; a line to skip has none.
pub open spec fn kind_name(kind: InstructionKind) -> Option<Seq<char>> {
    match kind {
        InstructionKind::Skip => None,
        InstructionKind::Address => Some("A_INSTRUCTION"@),
        InstructionKind::Label => Some("L_INSTRUCTION"@),
        InstructionKind::Compute => Some("C_INSTRUCTION"@),
    }
}

impl InstructionKind {
    /// The name by which this kind of instruction is known; a line to skip has none.
    pub fn name(&self) -> (name: Option<&'static str>)
        ensures
            match name {
                Some(text) => kind_name(*self) == Some(text@),
                None => kind_name(*self) is None,
            },
    {
        match self {
            InstructionKind::Skip => None,
            InstructionKind::Address => Some("A_INSTRUCTION"),
            InstructionKind::Label => Some("L_INSTRUCTION"),
            InstructionKind::Compute => Some("C_INSTRUCTION"),
        }
    }
}

/// Tells what kind of line `line` is. The line is expected without white space around it.
pub fn classify(line: &str) -> (kind: InstructionKind)
    ensures
        kind == line_kind(line@),
{
    let mut chars = line.chars();
    match chars.next() {
        None => InstructionKind::Skip,
        Some(first) => {
            if first == '/' {
                match chars.next() {
                    Some(second) => {
                        if second == '/' {
                            InstructionKind::Skip
                        } else {
                            InstructionKind::Compute
                        }
                    },
                    None => InstructionKind::Compute,
                }
            } else if first == '@' {
                InstructionKind::Address
            } else if first == '(' {
                match last_char(line) {
                    Some(last) => {
                        if last == ')' {
                            InstructionKind::Label
                        } else {
                            InstructionKind::Compute
                        }
                    },
                    None => InstructionKind::Compute,
                }
            } else {
                InstructionKind::Compute
            }
        },
    }
}

/// The symbol that `line` carries: that of an address instruction or of a label declaration.
pub fn symbol_of(line: &str) -> (symbol: Option<String>)
    ensures
        match symbol {
            Some(text) => symbol_field(line@) == Some(text@),
            None => symbol_field(line@) is None,
        },
{
    match classify(line) {
        InstructionKind::Address => {
            let len = line.unicode_len();
            Some(line.substring_char(1, len).to_owned())
        },
        InstructionKind::Label => {
            let len = line.unicode_len();
            Some(line.substring_char(1, len - 1).to_owned())
        },
        _ => None,
    }
}

/// The destination field of `line`.
pub fn dest_of(line: &str) -> (dest: String)
    ensures
        dest@ == dest_field(line@),
{
    match split_at_first(line, '=') {
        Some((dest, _)) => dest.to_owned(),
        None => String::new(),
    }
}

/// The part of `line` that follows its destination field.
fn operation_of(line: &str) -> (rest: &str)
    ensures
        rest@ == operation_part(line@),
{
    match split_at_first(line, '=') {
        Some((_, rest)) => rest,
        None => line,
    }
}

/// The operation field of `line`.
pub fn comp_of(line: &str) -> (comp: String)
    ensures
        comp@ == comp_field(line@),
{
    let rest = operation_of(line);
    match split_at_first(rest, ';') {
        Some((comp, _)) => comp.to_owned(),
        None => rest.to_owned(),
    }
}

/// The jump field of `line`.
pub fn jump_of(line: &str) -> (jump: String)
    ensures
        jump@ == jump_field(line@),
{
    match split_at_first(operation_of(line), ';') {
        Some((_, jump)) => jump.to_owned(),
        None => String::new(),
    }
}

} // verus!
