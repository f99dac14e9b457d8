//! A cursor over the lines of a program that stops at each instruction.

use crate::instruction::{
    classify, comp_field, comp_of, dest_field, dest_of, jump_field, jump_of, kind_name, line_kind,
    symbol_field, symbol_of, InstructionKind,
};
use vstd::prelude::*;
use vstd::string::*;

verus! {

/// A parser as a value: the lines of the program and how many of them were read.
pub struct Cursor {
    pub lines: Seq<Seq<char>>,
    pub position: nat,
}

impl Cursor {
    /// The line that was read last; the empty line before any was read.
    pub open spec fn current(self) -> Seq<char> {
        if 0 < self.position <= self.lines.len() {
            self.lines[self.position - 1]
        } else {
            Seq::empty()
        }
    }
}

/// Whether `to` is where a cursor at `from` stops when it advances: behind the first line from
/// `from` on that is an instruction, or at the end of the program where no instruction is left.
pub open spec fn stops_at(lines: Seq<Seq<char>>, from: nat, to: nat) -> bool {
    &&& from <= to <= lines.len()
    &&& from < lines.len() ==> from < to
    &&& forall|i: int| from <= i < to - 1 ==> line_kind(#[trigger] lines[i]) is Skip
    &&& to < lines.len() ==> !(line_kind(lines[to - 1]) is Skip)
}

/// Reads a program line by line, passing over the lines that are no instructions.
pub struct Parser {
    contents: Vec<String>,
    consumed: usize,
}

impl View for Parser {
    type V = Cursor;

    closed spec fn view(&self) -> Cursor {
        Cursor { lines: self.contents.deep_view(), position: self.consumed as nat }
    }
}

impl Parser {
    #[verifier::type_invariant]
    spec fn within_contents(&self) -> bool {
        self.consumed <= self.contents.len()
    }

    /// A parser at the start of `contents`, with no line read.
    pub fn new(contents: Vec<String>) -> (parser: Self)
        ensures
            parser@.lines == contents.deep_view(),
            parser@.position == 0,
    {
        Parser { contents, consumed: 0 }
    }

    /// Whether a line is left to read.
    #[allow(non_snake_case)]
    pub fn hasMoreLines(&self) -> (more: bool)
        ensures
            more == (self@.position < self@.lines.len()),
            self@.position <= self@.lines.len() <= usize::MAX,
    {
        proof {
            use_type_invariant(self);
        }
        self.consumed < self.contents.len()
    }

    /// Goes back to the start of the program.
    pub fn rewind(&mut self)
        ensures
            final(self)@.lines == old(self)@.lines,
            final(self)@.position == 0,
    {
        self.consumed = 0;
    }

    /// Reads on to the next instruction, passing over empty lines and comments. At the end of
    /// the program the parser stays where it is.
    pub fn advance(&mut self)
        ensures
            final(self)@.lines == old(self)@.lines,
            stops_at(old(self)@.lines, old(self)@.position, final(self)@.position),
    {
        proof {
            use_type_invariant(&*self);
        }
        let ghost lines = self@.lines;
        let ghost from = self.consumed;
        let len = self.contents.len();
        let mut next = self.consumed;
        let mut found = false;
        while next < len && !found
            invariant
                len == self.contents.len(),
                lines == self.contents.deep_view(),
                from <= next <= len,
                from < len && next == from ==> !found,
                found ==> from < next && !(line_kind(lines[next - 1]) is Skip),
                forall|i: int|
                    from <= i < next - if found {
                        1int
                    } else {
                        0int
                    } ==> line_kind(#[trigger] lines[i]) is Skip,
            decreases len - next + if found { 0int } else { 1int },
        {
            let kind = classify(self.contents[next].as_str());
            found = kind != InstructionKind::Skip;
            next = next + 1;
        }
        self.consumed = next;
    }

    /// The kind of the line that was read last.
    pub fn kind(&self) -> (kind: InstructionKind)
        ensures
            kind == line_kind(self@.current()),
    {
        classify(self.current())
    }

    /// The line that was read last; the empty line before any was read.
    pub fn current(&self) -> (line: &str)
        ensures
            line@ == self@.current(),
    {
        proof {
            use_type_invariant(self);
        }
        if self.consumed == 0 {
            proof {
                reveal_strlit("");
            }
            ""
        } else {
            self.contents[self.consumed - 1].as_str()
        }
    }

    /// The name of the kind of the line that was read last, if it is an instruction.
    #[allow(non_snake_case)]
    pub fn instructionType(&self) -> (name: Option<&'static str>)
        ensures
            match name {
                Some(text) => kind_name(line_kind(self@.current())) == Some(text@),
                None => kind_name(line_kind(self@.current())) is None,
            },
    {
        self.kind().name()
    }

    /// The symbol of the instruction that was read last, if it is an address instruction or a
    /// label declaration.
    pub fn symbol(&self) -> (symbol: Option<String>)
        ensures
            match symbol {
                Some(text) => symbol_field(self@.current()) == Some(text@),
                None => symbol_field(self@.current()) is None,
            },
    {
        symbol_of(self.current())
    }

    /// The destination field of the instruction that was read last.
    pub fn dest(&self) -> (dest: String)
        ensures
            dest@ == dest_field(self@.current()),
    {
        dest_of(self.current())
    }

    /// The operation field of the instruction that was read last.
    pub fn comp(&self) -> (comp: String)
        ensures
            comp@ == comp_field(self@.current()),
    {
        comp_of(self.current())
    }

    /// The jump field of the instruction that was read last.
    pub fn jump(&self) -> (jump: String)
        ensures
            jump@ == jump_field(self@.current()),
    {
        jump_of(self.current())
    }
}

} // verus!
