//! The two passes that turn the lines of a program into its words.
//!
//! The first pass gives every label the position of the instruction that follows it. The
//! second pass resolves the symbols of the address instructions, giving each new variable the
//! next free address, and encodes every instruction as a word of sixteen binary digits.

use crate::code::{compute_word, Code};
use crate::error::AssembleError;
use crate::instruction::{
    address_symbol, comp_field, dest_field, emits_word, jump_field, label_symbol, line_kind,
    InstructionKind,
};
use crate::numeral::{
    binary_text, bits_text, decimal_literal, is_bits, parse_decimal, Literal,
};
use crate::parser::{stops_at, Parser};
use crate::symbol_table::{
    allocate, predefined_symbols, Bindings, SymbolTable, Symbols, ADDRESS_SPACE, FIRST_VARIABLE,
};
use crate::theorems::{theorem_word_count, theorem_words_are_binary};
use vstd::prelude::*;
use vstd::string::*;

verus! {

/// Whether a text is a word of the machine, written out: sixteen binary digits.
pub open spec fn is_word(text: Seq<char>) -> bool {
    text.len() == 16 && is_bits(text)
}

/// The program counter before line `n`: the number of instructions that stand for a word
/// among the first `n` lines.
pub open spec fn program_counter(lines: Seq<Seq<char>>, n: int) -> nat
    decreases n,
{
    if n <= 0 {
        0
    } else {
        program_counter(lines, n - 1) + if emits_word(lines[n - 1]) {
            1nat
        } else {
            0nat
        }
    }
}

/// What the first pass does with one line, met when the program counter is `counter`. A label
/// declaration binds its name to `counter`, unless the name is bound already. A declaration
/// without a name is refused, and so is a new label at a position beyond the address space.
pub open spec fn declare_label(table: Bindings, line: Seq<char>, counter: nat) -> Result<
    Bindings,
    AssembleError,
> {
    if line_kind(line) is Label {
        let name = label_symbol(line);
        if name.len() == 0 {
            Err(AssembleError::MalformedLabel)
        } else if table.contains_key(name) {
            Ok(table)
        } else if counter < ADDRESS_SPACE {
            Ok(table.insert(name, counter as u16))
        } else {
            Err(AssembleError::UnresolvedSymbol)
        }
    } else {
        Ok(table)
    }
}

/// The bindings after the first pass has gone through the first `n` lines, starting from
/// `table`; the first failure, if a line before that is refused.
pub open spec fn resolve_labels(lines: Seq<Seq<char>>, n: int, table: Bindings) -> Result<
    Bindings,
    AssembleError,
>
    decreases n,
{
    if n <= 0 {
        Ok(table)
    } else {
        match resolve_labels(lines, n - 1, table) {
            Ok(bound) => declare_label(bound, lines[n - 1], program_counter(lines, n - 1)),
            Err(error) => Err(error),
        }
    }
}

/// The address that the symbol of an address instruction stands for, and the symbols after it
/// was resolved. A decimal literal stands for its value, which must fit in a word. Any other
/// symbol stands for the address it is bound to, or becomes a new variable.
pub open spec fn resolve_address(symbols: Symbols, symbol: Seq<char>) -> Result<
    (u16, Symbols),
    AssembleError,
> {
    match decimal_literal(symbol) {
        Literal::Word(value) => Ok((value, symbols)),
        Literal::TooWide => Err(AssembleError::UnresolvedSymbol),
        Literal::Absent => allocate(symbols, symbol),
    }
}

/// The second pass as a value: the symbols, and the words written so far.
pub struct Assembly {
    pub symbols: Symbols,
    pub words: Seq<Seq<char>>,
}

/// What the second pass does with one line. An address instruction adds the sixteen binary
/// digits of its address, a compute instruction adds its word, and any other line adds
/// nothing.
pub open spec fn generate_line(state: Assembly, line: Seq<char>) -> Result<
    Assembly,
    AssembleError,
> {
    match line_kind(line) {
        InstructionKind::Address => match resolve_address(state.symbols, address_symbol(line)) {
            Ok((address, symbols)) => Ok(
                Assembly { symbols, words: state.words.push(bits_text(address as nat, 16)) },
            ),
            Err(error) => Err(error),
        },
        InstructionKind::Compute => match compute_word(
            dest_field(line),
            comp_field(line),
            jump_field(line),
        ) {
            Some(word) => Ok(Assembly { symbols: state.symbols, words: state.words.push(word) }),
            None => Err(AssembleError::UnresolvedComp),
        },
        _ => Ok(state),
    }
}

/// The second pass after the first `n` lines, starting from `start`; the first failure, if a
/// line before that is refused.
pub open spec fn generate(lines: Seq<Seq<char>>, n: int, start: Assembly) -> Result<
    Assembly,
    AssembleError,
>
    decreases n,
{
    if n <= 0 {
        Ok(start)
    } else {
        match generate(lines, n - 1, start) {
            Ok(state) => generate_line(state, lines[n - 1]),
            Err(error) => Err(error),
        }
    }
}

/// The state in which the second pass begins: the bindings that the first pass left, the
/// variable counter untouched, and no word written.
pub open spec fn after_labels(bindings: Bindings, symbols: Symbols) -> Assembly {
    Assembly {
        symbols: Symbols { bindings, next_variable: symbols.next_variable },
        words: Seq::empty(),
    }
}

/// The words of the program `lines`, assembled with the symbols `symbols` to begin with, or
/// the failure that stops the assembly: that of the first line that the first pass refuses,
/// else that of the first line that the second pass refuses.
pub open spec fn assembled(lines: Seq<Seq<char>>, symbols: Symbols) -> Result<
    Seq<Seq<char>>,
    AssembleError,
> {
    match resolve_labels(lines, lines.len() as int, symbols.bindings) {
        Ok(bindings) => match generate(
            lines,
            lines.len() as int,
            after_labels(bindings, symbols),
        ) {
            Ok(state) => Ok(state.words),
            Err(error) => Err(error),
        },
        Err(error) => Err(error),
    }
}

/// The symbols that an assembly begins with: the predefined ones, and no variable.
pub open spec fn initial_symbols() -> Symbols {
    Symbols { bindings: predefined_symbols(), next_variable: FIRST_VARIABLE as nat }
}

/// The program counter never runs ahead of the lines.
pub proof fn lemma_program_counter_bound(lines: Seq<Seq<char>>, n: int)
    ensures
        program_counter(lines, n) <= if n <= 0 {
            0
        } else {
            n
        },
    decreases n,
{
    if n > 0 {
        lemma_program_counter_bound(lines, n - 1);
    }
}

/// Lines that are passed over leave the program counter and the first pass as they are.
proof fn lemma_skipped_labels(lines: Seq<Seq<char>>, from: int, to: int, table: Bindings)
    requires
        0 <= from <= to <= lines.len(),
        forall|i: int| from <= i < to ==> line_kind(#[trigger] lines[i]) is Skip,
    ensures
        program_counter(lines, to) == program_counter(lines, from),
        resolve_labels(lines, to, table) == resolve_labels(lines, from, table),
    decreases to - from,
{
    if from < to {
        lemma_skipped_labels(lines, from, to - 1, table);
        assert(line_kind(lines[to - 1]) is Skip);
    }
}

/// Lines that are passed over leave the second pass as it is.
proof fn lemma_skipped_generation(lines: Seq<Seq<char>>, from: int, to: int, start: Assembly)
    requires
        0 <= from <= to <= lines.len(),
        forall|i: int| from <= i < to ==> line_kind(#[trigger] lines[i]) is Skip,
    ensures
        generate(lines, to, start) == generate(lines, from, start),
    decreases to - from,
{
    if from < to {
        lemma_skipped_generation(lines, from, to - 1, start);
        assert(line_kind(lines[to - 1]) is Skip);
    }
}

/// Once the first pass has failed, it has failed for every longer part of the program.
proof fn lemma_labels_failure_stays(lines: Seq<Seq<char>>, n: int, m: int, table: Bindings)
    requires
        n <= m,
        resolve_labels(lines, n, table) is Err,
    ensures
        resolve_labels(lines, m, table) == resolve_labels(lines, n, table),
    decreases m - n,
{
    if n < m {
        lemma_labels_failure_stays(lines, n, m - 1, table);
    }
}

/// Once the second pass has failed, it has failed for every longer part of the program.
proof fn lemma_generation_failure_stays(lines: Seq<Seq<char>>, n: int, m: int, start: Assembly)
    requires
        n <= m,
        generate(lines, n, start) is Err,
    ensures
        generate(lines, m, start) == generate(lines, n, start),
    decreases m - n,
{
    if n < m {
        lemma_generation_failure_stays(lines, n, m - 1, start);
    }
}

/// How the first pass ended, as a value: the bindings it left, or its failure.
pub open spec fn outcome_of_labels(done: Result<(), AssembleError>, bindings: Bindings) -> Result<
    Bindings,
    AssembleError,
> {
    match done {
        Ok(_) => Ok(bindings),
        Err(error) => Err(error),
    }
}

/// How the second pass ended, as a value: the symbols it left and the words it wrote, or its
/// failure.
pub open spec fn outcome_of_words(
    done: Result<Vec<String>, AssembleError>,
    symbols: Symbols,
) -> Result<Assembly, AssembleError> {
    match done {
        Ok(words) => Ok(Assembly { symbols, words: words.deep_view() }),
        Err(error) => Err(error),
    }
}

/// The sixteen binary digits of the address that `symbol` stands for. A decimal literal stands
/// for its value. Any other symbol stands for the address that `symbol_table` binds it to;
/// where it is not bound, it becomes a variable at the next free address.
pub fn handle_address_instruction(symbol: &str, symbol_table: &mut SymbolTable) -> (word: Result<
    String,
    AssembleError,
>)
    ensures
        match word {
            Ok(text) => resolve_address(old(symbol_table)@, symbol@) matches Ok(resolved)
                && resolved.1 == final(symbol_table)@ && text@ == bits_text(resolved.0 as nat, 16),
            Err(error) => resolve_address(old(symbol_table)@, symbol@) == Err::<(u16, Symbols), _>(
                error,
            ) && final(symbol_table)@ == old(symbol_table)@,
        },
{
    let address = match parse_decimal(symbol) {
        Literal::Word(value) => value,
        Literal::TooWide => {
            return Err(AssembleError::UnresolvedSymbol);
        },
        Literal::Absent => symbol_table.allocate_variable(symbol)?,
    };
    Ok(binary_text(address, 16))
}

/// The first pass: binds every label of the program to the position of the instruction that
/// follows it. It begins at the first line, wherever `parser` stands. Where a line is refused,
/// the parser stays at that line, and the labels before it are bound.
pub fn first_pass(parser: &mut Parser, symbols: &mut SymbolTable) -> (done: Result<
    (),
    AssembleError,
>)
    ensures
        final(parser)@.lines == old(parser)@.lines,
        final(symbols)@.next_variable == old(symbols)@.next_variable,
        outcome_of_labels(done, final(symbols)@.bindings) == resolve_labels(
            old(parser)@.lines,
            old(parser)@.lines.len() as int,
            old(symbols)@.bindings,
        ),
        done is Ok ==> final(parser)@.position == old(parser)@.lines.len(),
        done is Err ==> 0 < final(parser)@.position <= old(parser)@.lines.len() && resolve_labels(
            old(parser)@.lines,
            final(parser)@.position - 1,
            old(symbols)@.bindings,
        ) == Ok::<_, AssembleError>(final(symbols)@.bindings),
{
    let ghost lines = parser@.lines;
    let ghost table = symbols@.bindings;
    parser.rewind();
    let mut counter: usize = 0;
    while parser.hasMoreLines()
        invariant
            lines == old(parser)@.lines,
            table == old(symbols)@.bindings,
            parser@.lines == lines,
            parser@.position <= lines.len(),
            symbols@.next_variable == old(symbols)@.next_variable,
            counter == program_counter(lines, parser@.position as int),
            resolve_labels(lines, parser@.position as int, table) == Ok::<_, AssembleError>(
                symbols@.bindings,
            ),
        decreases lines.len() - parser@.position,
    {
        let ghost from = parser@.position as int;
        parser.advance();
        let ghost to = parser@.position as int;
        proof {
            assert(stops_at(lines, from as nat, to as nat));
            lemma_skipped_labels(lines, from, to - 1, table);
            lemma_program_counter_bound(lines, to - 1);
            assert(parser@.current() == lines[to - 1]);
        }
        match parser.kind() {
            InstructionKind::Address => {
                counter = counter + 1;
            },
            InstructionKind::Compute => {
                counter = counter + 1;
            },
            InstructionKind::Label => {
                let name = parser.symbol().unwrap();
                if name.as_str().is_empty() {
                    proof {
                        lemma_labels_failure_stays(lines, to, lines.len() as int, table);
                    }
                    return Err(AssembleError::MalformedLabel);
                }
                if !symbols.contains(name.as_str()) {
                    if counter < ADDRESS_SPACE as usize {
                        symbols.addEntry(name.as_str(), &(counter as u16));
                    } else {
                        proof {
                            lemma_labels_failure_stays(lines, to, lines.len() as int, table);
                        }
                        return Err(AssembleError::UnresolvedSymbol);
                    }
                }
            },
            InstructionKind::Skip => {},
        }
    }
    Ok(())
}

/// The second pass: writes the word of every instruction of the program, in the order of the
/// lines, resolving the symbols of the address instructions on the way. It begins at the first
/// line, wherever `parser` stands. Where a line is refused, the parser stays at that line, and
/// the variables before it are bound.
pub fn second_pass(parser: &mut Parser, symbols: &mut SymbolTable, code: &Code) -> (done: Result<
    Vec<String>,
    AssembleError,
>)
    ensures
        final(parser)@.lines == old(parser)@.lines,
        outcome_of_words(done, final(symbols)@) == generate(
            old(parser)@.lines,
            old(parser)@.lines.len() as int,
            Assembly { symbols: old(symbols)@, words: Seq::empty() },
        ),
        done is Ok ==> final(parser)@.position == old(parser)@.lines.len(),
        done is Err ==> 0 < final(parser)@.position <= old(parser)@.lines.len(),
        done is Err ==> (generate(
            old(parser)@.lines,
            final(parser)@.position - 1,
            Assembly { symbols: old(symbols)@, words: Seq::empty() },
        ) matches Ok(state) && state.symbols == final(symbols)@),
{
    let ghost lines = parser@.lines;
    let ghost start = Assembly { symbols: symbols@, words: Seq::empty() };
    parser.rewind();
    let mut words: Vec<String> = Vec::new();
    assert(words.deep_view() =~= Seq::<Seq<char>>::empty());
    while parser.hasMoreLines()
        invariant
            lines == old(parser)@.lines,
            start == (Assembly { symbols: old(symbols)@, words: Seq::empty() }),
            parser@.lines == lines,
            parser@.position <= lines.len(),
            generate(lines, parser@.position as int, start) == Ok::<_, AssembleError>(
                Assembly { symbols: symbols@, words: words.deep_view() },
            ),
        decreases lines.len() - parser@.position,
    {
        let ghost from = parser@.position as int;
        let ghost before = Assembly { symbols: symbols@, words: words.deep_view() };
        parser.advance();
        let ghost to = parser@.position as int;
        proof {
            assert(stops_at(lines, from as nat, to as nat));
            lemma_skipped_generation(lines, from, to - 1, start);
            assert(parser@.current() == lines[to - 1]);
            assert(generate(lines, to, start) == generate_line(before, lines[to - 1]));
        }
        match parser.kind() {
            InstructionKind::Address => {
                let symbol = parser.symbol().unwrap();
                match handle_address_instruction(symbol.as_str(), symbols) {
                    Ok(word) => {
                        let ghost written = words.deep_view();
                        words.push(word);
                        assert(words.deep_view() =~= written.push(word@));
                    },
                    Err(error) => {
                        proof {
                            lemma_generation_failure_stays(lines, to, lines.len() as int, start);
                        }
                        return Err(error);
                    },
                }
            },
            InstructionKind::Compute => {
                let dest = parser.dest();
                let comp = parser.comp();
                let jump = parser.jump();
                match code.instruction(dest.as_str(), comp.as_str(), jump.as_str()) {
                    Ok(word) => {
                        let ghost written = words.deep_view();
                        words.push(word);
                        assert(words.deep_view() =~= written.push(word@));
                    },
                    Err(error) => {
                        proof {
                            lemma_generation_failure_stays(lines, to, lines.len() as int, start);
                        }
                        return Err(error);
                    },
                }
            },
            InstructionKind::Label => {},
            InstructionKind::Skip => {},
        }
    }
    Ok(words)
}

/// How an assembly ended, as a value: its words as sequences of characters, or its failure.
pub open spec fn outcome(done: Result<Vec<String>, AssembleError>) -> Result<
    Seq<Seq<char>>,
    AssembleError,
> {
    match done {
        Ok(words) => Ok(words.deep_view()),
        Err(error) => Err(error),
    }
}

/// Assembles the program that `parser` reads, from its first line on, with the symbols that
/// `symbols` holds to begin with. The result holds one word of sixteen binary digits for each
/// address and compute instruction, in the order of the lines.
pub fn assemble_hack_code(parser: Parser, symbols: SymbolTable, code: Code) -> (done: Result<
    Vec<String>,
    AssembleError,
>)
    ensures
        outcome(done) == assembled(parser@.lines, symbols@),
        done matches Ok(words) ==> words.len() == program_counter(
            parser@.lines,
            parser@.lines.len() as int,
        ),
        done matches Ok(words) ==> forall|i: int|
            0 <= i < words.len() ==> is_word(#[trigger] words[i]@),
{
    let ghost lines = parser@.lines;
    let ghost start = symbols@;
    let mut parser = parser;
    let mut symbols = symbols;
    first_pass(&mut parser, &mut symbols)?;
    let done = second_pass(&mut parser, &mut symbols, &code);
    proof {
        if done is Ok {
            theorem_word_count(lines, start);
            theorem_words_are_binary(lines, start);
            assert forall|i: int| 0 <= i < done.unwrap().len() implies is_word(
                #[trigger] done.unwrap()[i]@,
            ) by {
                assert(done.unwrap()[i]@ == done.unwrap().deep_view()[i]);
            }
        }
    }
    done
}

/// Assembles the program `lines` with the predefined symbols. Each line is expected without
/// white space around it.
pub fn assemble(lines: Vec<String>) -> (done: Result<Vec<String>, AssembleError>)
    ensures
        outcome(done) == assembled(lines.deep_view(), initial_symbols()),
        done matches Ok(words) ==> words.len() == program_counter(
            lines.deep_view(),
            lines.len() as int,
        ),
        done matches Ok(words) ==> forall|i: int|
            0 <= i < words.len() ==> is_word(#[trigger] words[i]@),
{
    assemble_hack_code(Parser::new(lines), SymbolTable::new(), Code::new())
}

/// The name of the file to assemble: the argument that follows the name of the program.
pub open spec fn filename_argument(configs: Seq<String>) -> Option<String> {
    if configs.len() >= 2 {
        Some(configs[1])
    } else {
        None
    }
}

/// Picks the name of the file to assemble from the arguments of the program, and says so
/// where it is missing.
pub fn parse_filename(configs: &[String]) -> (filename: Result<&String, &'static str>)
    ensures
        match filename {
            Ok(name) => filename_argument(configs@) == Some(*name),
            Err(message) => filename_argument(configs@) is None && message@
                == "missing filename argument"@,
        },
{
    if configs.len() < 2 {
        return Err("missing filename argument");
    }
    Ok(&configs[1])
}

} // verus!
