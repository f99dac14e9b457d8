//! What holds of every assembled program: how many words it has, which word each instruction
//! becomes, and which address each label and each variable stands for.

use crate::assembler::{
    after_labels, assembled, declare_label, generate, generate_line, is_word, outcome,
    program_counter, resolve_address, resolve_labels, Assembly,
};
use crate::code::{comp_code, compute_word, dest_code, jump_code};
use crate::error::AssembleError;
use crate::instruction::{
    address_symbol, comp_field, dest_field, emits_word, jump_field, label_symbol, line_kind,
};
use crate::numeral::{bits_text, decimal_literal, lemma_bits_round_trip, Literal};
use crate::symbol_table::{Bindings, Symbols};
use vstd::arithmetic::power2::*;
use vstd::prelude::*;
use vstd::string::*;

verus! {

/// Whether a line is an address instruction whose symbol is a name, not a number.
pub open spec fn names_symbol(line: Seq<char>) -> bool {
    line_kind(line) is Address && decimal_literal(address_symbol(line)) is Absent
}

/// Whether an address instruction among the first `n` lines names `name`.
pub open spec fn named_before(lines: Seq<Seq<char>>, n: int, name: Seq<char>) -> bool {
    exists|k: int|
        0 <= k < n && names_symbol(#[trigger] lines[k]) && address_symbol(lines[k]) == name
}

/// Whether line `k` brings a new variable: it names a symbol that is not among `bound`, the
/// symbols bound before the second pass, and that no address instruction has named before.
pub open spec fn declares_variable(lines: Seq<Seq<char>>, k: int, bound: Bindings) -> bool {
    &&& names_symbol(lines[k])
    &&& !bound.contains_key(address_symbol(lines[k]))
    &&& !named_before(lines, k, address_symbol(lines[k]))
}

/// The number of new variables that the first `n` lines bring.
pub open spec fn variables_before(lines: Seq<Seq<char>>, n: int, bound: Bindings) -> nat
    decreases n,
{
    if n <= 0 {
        0
    } else {
        variables_before(lines, n - 1, bound) + if declares_variable(lines, n - 1, bound) {
            1nat
        } else {
            0nat
        }
    }
}

/// The word that stands for an instruction once every symbol has its address in `bindings`.
pub open spec fn word_of(line: Seq<char>, bindings: Bindings) -> Seq<char> {
    if line_kind(line) is Address {
        match decimal_literal(address_symbol(line)) {
            Literal::Word(value) => bits_text(value as nat, 16),
            _ => bits_text(bindings[address_symbol(line)] as nat, 16),
        }
    } else {
        compute_word(dest_field(line), comp_field(line), jump_field(line)).unwrap()
    }
}

/// Whether a label declaration among the first `n` lines carries `name`.
pub open spec fn labelled_before(lines: Seq<Seq<char>>, n: int, name: Seq<char>) -> bool {
    exists|i: int|
        0 <= i < n && line_kind(#[trigger] lines[i]) is Label && label_symbol(lines[i]) == name
}

/// Whether line `i` is the declaration that gives a label its address: the first declaration
/// of a name that is not among `bound`, the symbols bound before the first pass.
pub open spec fn declares_label(lines: Seq<Seq<char>>, i: int, bound: Bindings) -> bool {
    &&& line_kind(lines[i]) is Label
    &&& !bound.contains_key(label_symbol(lines[i]))
    &&& forall|j: int|
        0 <= j < i && line_kind(#[trigger] lines[j]) is Label ==> label_symbol(lines[j])
            != label_symbol(lines[i])
}

/// The bindings with which the second pass begins.
pub open spec fn label_bindings(lines: Seq<Seq<char>>, symbols: Symbols) -> Bindings {
    resolve_labels(lines, lines.len() as int, symbols.bindings).unwrap()
}

/// The symbols with which the assembly of a program ends.
pub open spec fn final_symbols(lines: Seq<Seq<char>>, symbols: Symbols) -> Symbols {
    generate(
        lines,
        lines.len() as int,
        after_labels(label_bindings(lines, symbols), symbols),
    ).unwrap().symbols
}

/// The first pass keeps what is bound, binds nothing but labels, and gives each label the
/// program counter of its first declaration.
proof fn lemma_labels(lines: Seq<Seq<char>>, n: int, table: Bindings)
    requires
        0 <= n <= lines.len(),
        resolve_labels(lines, n, table) is Ok,
    ensures
        ({
            let bindings = resolve_labels(lines, n, table).unwrap();
            &&& forall|name: Seq<char>| #[trigger]
                table.contains_key(name) ==> bindings.contains_key(name) && bindings[name]
                    == table[name]
            &&& forall|i: int|
                0 <= i < n && #[trigger] declares_label(lines, i, table) ==> {
                    &&& bindings.contains_key(label_symbol(lines[i]))
                    &&& bindings[label_symbol(lines[i])] == program_counter(lines, i)
                }
            &&& forall|name: Seq<char>| #[trigger]
                bindings.contains_key(name) ==> table.contains_key(name) || labelled_before(
                    lines,
                    n,
                    name,
                )
        }),
    decreases n,
{
    if n > 0 {
        lemma_labels(lines, n - 1, table);
        let before = resolve_labels(lines, n - 1, table).unwrap();
        let after = resolve_labels(lines, n, table).unwrap();
        let line = lines[n - 1];
        let counter = program_counter(lines, n - 1);
        assert(declare_label(before, line, counter) == Ok::<_, AssembleError>(after));
        assert forall|name: Seq<char>|
            labelled_before(lines, n - 1, name) implies labelled_before(lines, n, name) by {
            let i = choose|i: int|
                0 <= i < n - 1 && line_kind(#[trigger] lines[i]) is Label && label_symbol(lines[i])
                    == name;
            assert(0 <= i < n && line_kind(lines[i]) is Label && label_symbol(lines[i]) == name);
        }
        if line_kind(line) is Label {
            assert(labelled_before(lines, n, label_symbol(line)));
            if declares_label(lines, n - 1, table) && before.contains_key(label_symbol(line)) {
                let j = choose|j: int|
                    0 <= j < n - 1 && line_kind(#[trigger] lines[j]) is Label && label_symbol(
                        lines[j],
                    ) == label_symbol(line);
                assert(false);
            }
        }
    }
}

/// What the second pass has done after `n` lines: it has written one word for each
/// instruction, each the word of its line; it has kept every binding; it has bound the names
/// that the address instructions brought, and no others, each new one to the address that
/// follows that of the one before.
proof fn lemma_generation(lines: Seq<Seq<char>>, n: int, start: Assembly)
    requires
        0 <= n <= lines.len(),
        generate(lines, n, start) is Ok,
    ensures
        ({
            let state = generate(lines, n, start).unwrap();
            let bound = start.symbols.bindings;
            let bindings = state.symbols.bindings;
            &&& state.words.len() == start.words.len() + program_counter(lines, n)
            &&& state.symbols.next_variable == start.symbols.next_variable + variables_before(
                lines,
                n,
                bound,
            )
            &&& forall|name: Seq<char>| #[trigger]
                bound.contains_key(name) ==> bindings.contains_key(name) && bindings[name]
                    == bound[name]
            &&& forall|name: Seq<char>| #[trigger]
                bindings.contains_key(name) <==> bound.contains_key(name) || named_before(
                    lines,
                    n,
                    name,
                )
            &&& forall|k: int|
                0 <= k < n && #[trigger] declares_variable(lines, k, bound) ==> {
                    let address = bindings[address_symbol(lines[k])];
                    address == start.symbols.next_variable + variables_before(lines, k, bound)
                }
            &&& forall|j: int|
                0 <= j < start.words.len() ==> #[trigger] state.words[j] == start.words[j]
            &&& forall|j: int|
                0 <= j < n && emits_word(#[trigger] lines[j]) ==> {
                    let at = start.words.len() + program_counter(lines, j);
                    state.words[at as int] == word_of(lines[j], bindings)
                }
        }),
    decreases n,
{
    if n > 0 {
        lemma_generation(lines, n - 1, start);
        let before = generate(lines, n - 1, start).unwrap();
        let state = generate(lines, n, start).unwrap();
        let line = lines[n - 1];
        let bound = start.symbols.bindings;
        let old_bindings = before.symbols.bindings;
        let bindings = state.symbols.bindings;
        let symbol = address_symbol(line);
        assert(generate_line(before, line) == Ok::<_, AssembleError>(state));
        // Every binding that was there is still there.
        assert forall|name: Seq<char>| #[trigger] old_bindings.contains_key(name) implies
            bindings.contains_key(name) && bindings[name] == old_bindings[name] by {}
        // Which names were named so far.
        assert forall|name: Seq<char>|
            named_before(lines, n, name) <==> named_before(lines, n - 1, name) || (names_symbol(
                line,
            ) && symbol == name) by {
            if named_before(lines, n, name) {
                let k = choose|k: int|
                    0 <= k < n && names_symbol(#[trigger] lines[k]) && address_symbol(lines[k])
                        == name;
                if k < n - 1 {
                    assert(named_before(lines, n - 1, name));
                }
            }
            if named_before(lines, n - 1, name) {
                let k = choose|k: int|
                    0 <= k < n - 1 && names_symbol(#[trigger] lines[k]) && address_symbol(lines[k])
                        == name;
                assert(0 <= k < n && names_symbol(lines[k]) && address_symbol(lines[k]) == name);
            }
            if names_symbol(line) && symbol == name {
                assert(0 <= n - 1 < n && names_symbol(lines[n - 1]) && address_symbol(lines[n - 1])
                    == name);
            }
        }
        // Whether this line brings a new variable.
        assert(declares_variable(lines, n - 1, bound) <==> names_symbol(line)
            && !old_bindings.contains_key(symbol));
        assert forall|k: int| 0 <= k < n && #[trigger] declares_variable(lines, k, bound) implies
            bindings[address_symbol(lines[k])] == start.symbols.next_variable + variables_before(
            lines,
            k,
            bound,
        ) by {
            if k < n - 1 {
                assert(named_before(lines, n - 1, address_symbol(lines[k])));
                assert(old_bindings.contains_key(address_symbol(lines[k])));
            }
        }
        assert forall|j: int| 0 <= j < n && emits_word(#[trigger] lines[j]) implies {
            let at = start.words.len() + program_counter(lines, j);
            state.words[at as int] == word_of(lines[j], bindings)
        } by {
            lemma_program_counter_monotone(lines, j, n - 1);
            if j < n - 1 {
                lemma_program_counter_monotone(lines, j + 1, n - 1);
                let at = start.words.len() + program_counter(lines, j);
                assert(before.words[at as int] == word_of(lines[j], old_bindings));
                if names_symbol(lines[j]) {
                    assert(named_before(lines, n - 1, address_symbol(lines[j])));
                    assert(old_bindings.contains_key(address_symbol(lines[j])));
                }
            }
        }
    }
}

/// The program counter never goes back.
pub proof fn lemma_program_counter_monotone(lines: Seq<Seq<char>>, p: int, n: int)
    requires
        p <= n,
    ensures
        program_counter(lines, p) <= program_counter(lines, n),
    decreases n - p,
{
    if p < n {
        lemma_program_counter_monotone(lines, p, n - 1);
    }
}

/// New variables are counted in the order of the lines.
proof fn lemma_variables_before_monotone(lines: Seq<Seq<char>>, p: int, n: int, bound: Bindings)
    requires
        p <= n,
    ensures
        variables_before(lines, p, bound) <= variables_before(lines, n, bound),
    decreases n - p,
{
    if p < n {
        lemma_variables_before_monotone(lines, p, n - 1, bound);
    }
}

/// The word of a compute instruction is a word of the machine.
proof fn lemma_compute_word_is_word(dest: Seq<char>, comp: Seq<char>, jump: Seq<char>)
    requires
        compute_word(dest, comp, jump) is Some,
    ensures
        is_word(compute_word(dest, comp, jump).unwrap()),
{
    let word = compute_word(dest, comp, jump).unwrap();
    reveal_strlit("111");
    lemma2_to64();
    lemma_bits_round_trip(comp_code(comp).unwrap(), 7);
    lemma_bits_round_trip(dest_code(dest), 3);
    lemma_bits_round_trip(jump_code(jump), 3);
    assert forall|i: int| 0 <= i < word.len() implies word[i] == '0' || word[i] == '1' by {
        if i < 3 {
            assert(word[i] == "111"@[i]);
        } else if i < 10 {
            assert(word[i] == bits_text(comp_code(comp).unwrap(), 7)[i - 3]);
        } else if i < 13 {
            assert(word[i] == bits_text(dest_code(dest), 3)[i - 10]);
        } else {
            assert(word[i] == bits_text(jump_code(jump), 3)[i - 13]);
        }
    }
}

/// The second pass writes nothing but words of the machine.
proof fn lemma_generated_words(lines: Seq<Seq<char>>, n: int, start: Assembly)
    requires
        0 <= n <= lines.len(),
        generate(lines, n, start) is Ok,
        forall|i: int| 0 <= i < start.words.len() ==> is_word(#[trigger] start.words[i]),
    ensures
        forall|i: int|
            0 <= i < generate(lines, n, start).unwrap().words.len() ==> is_word(
                #[trigger] generate(lines, n, start).unwrap().words[i],
            ),
    decreases n,
{
    if n > 0 {
        lemma_generated_words(lines, n - 1, start);
        let before = generate(lines, n - 1, start).unwrap();
        let state = generate(lines, n, start).unwrap();
        let line = lines[n - 1];
        assert(generate_line(before, line) == Ok::<_, AssembleError>(state));
        if line_kind(line) is Address {
            let address = resolve_address(before.symbols, address_symbol(line)).unwrap().0;
            lemma2_to64();
            lemma_bits_round_trip(address as nat, 16);
        } else if line_kind(line) is Compute {
            lemma_compute_word_is_word(dest_field(line), comp_field(line), jump_field(line));
        }
    }
}

/// Every word of an assembled program is made of sixteen binary digits.
pub proof fn theorem_words_are_binary(lines: Seq<Seq<char>>, symbols: Symbols)
    requires
        assembled(lines, symbols) is Ok,
    ensures
        forall|i: int|
            0 <= i < assembled(lines, symbols).unwrap().len() ==> is_word(
                #[trigger] assembled(lines, symbols).unwrap()[i],
            ),
{
    lemma_generated_words(
        lines,
        lines.len() as int,
        after_labels(label_bindings(lines, symbols), symbols),
    );
}

/// An assembled program holds one word for each address and compute instruction of its source,
/// and none for any other line.
pub proof fn theorem_word_count(lines: Seq<Seq<char>>, symbols: Symbols)
    requires
        assembled(lines, symbols) is Ok,
    ensures
        assembled(lines, symbols).unwrap().len() == program_counter(lines, lines.len() as int),
{
    lemma_generation(
        lines,
        lines.len() as int,
        after_labels(label_bindings(lines, symbols), symbols),
    );
}

/// The words of an assembled program stand in the order of their lines: the word of an
/// instruction stands at the instruction's program counter, and it is the word that the
/// instruction has under the symbols with which the assembly ends.
pub proof fn theorem_words_follow_lines(lines: Seq<Seq<char>>, symbols: Symbols, j: int)
    requires
        assembled(lines, symbols) is Ok,
        0 <= j < lines.len(),
        emits_word(lines[j]),
    ensures
        program_counter(lines, j) < assembled(lines, symbols).unwrap().len(),
        assembled(lines, symbols).unwrap()[program_counter(lines, j) as int] == word_of(
            lines[j],
            final_symbols(lines, symbols).bindings,
        ),
{
    lemma_generation(
        lines,
        lines.len() as int,
        after_labels(label_bindings(lines, symbols), symbols),
    );
    lemma_program_counter_monotone(lines, j + 1, lines.len() as int);
}

/// Assembling never changes what a name is bound to: every symbol that is bound to begin with
/// keeps its address through both passes, and every label keeps its address through the
/// second.
pub proof fn theorem_bindings_are_kept(lines: Seq<Seq<char>>, symbols: Symbols, name: Seq<char>)
    requires
        assembled(lines, symbols) is Ok,
    ensures
        symbols.bindings.contains_key(name) ==> label_bindings(lines, symbols).contains_key(name)
            && label_bindings(lines, symbols)[name] == symbols.bindings[name],
        label_bindings(lines, symbols).contains_key(name) ==> final_symbols(
            lines,
            symbols,
        ).bindings.contains_key(name) && final_symbols(lines, symbols).bindings[name]
            == label_bindings(lines, symbols)[name],
{
    lemma_labels(lines, lines.len() as int, symbols.bindings);
    lemma_generation(
        lines,
        lines.len() as int,
        after_labels(label_bindings(lines, symbols), symbols),
    );
}

/// A label stands for the program counter at its declaration: the number of address and
/// compute instructions that come before it. This holds of the first declaration of a name
/// that was not bound to begin with; any other declaration changes nothing.
pub proof fn theorem_label_address(lines: Seq<Seq<char>>, symbols: Symbols, i: int)
    requires
        assembled(lines, symbols) is Ok,
        0 <= i < lines.len(),
        declares_label(lines, i, symbols.bindings),
    ensures
        final_symbols(lines, symbols).bindings.contains_key(label_symbol(lines[i])),
        final_symbols(lines, symbols).bindings[label_symbol(lines[i])] == program_counter(
            lines,
            i,
        ),
{
    lemma_labels(lines, lines.len() as int, symbols.bindings);
    theorem_bindings_are_kept(lines, symbols, label_symbol(lines[i]));
}

/// An address instruction that names a label becomes the sixteen binary digits of the
/// label's program counter, whether it comes before the declaration or after it.
pub proof fn theorem_label_reference(lines: Seq<Seq<char>>, symbols: Symbols, i: int, j: int)
    requires
        assembled(lines, symbols) is Ok,
        0 <= i < lines.len(),
        declares_label(lines, i, symbols.bindings),
        0 <= j < lines.len(),
        names_symbol(lines[j]),
        address_symbol(lines[j]) == label_symbol(lines[i]),
    ensures
        assembled(lines, symbols).unwrap()[program_counter(lines, j) as int] == bits_text(
            program_counter(lines, i),
            16,
        ),
{
    theorem_label_address(lines, symbols, i);
    theorem_words_follow_lines(lines, symbols, j);
}

/// The variables of a program get the addresses from the first free one on, one after the
/// other, in the order in which the program names them first.
pub proof fn theorem_variable_address(lines: Seq<Seq<char>>, symbols: Symbols, k: int)
    requires
        assembled(lines, symbols) is Ok,
        0 <= k < lines.len(),
        declares_variable(lines, k, label_bindings(lines, symbols)),
    ensures
        final_symbols(lines, symbols).bindings.contains_key(address_symbol(lines[k])),
        final_symbols(lines, symbols).bindings[address_symbol(lines[k])] == symbols.next_variable
            + variables_before(lines, k, label_bindings(lines, symbols)),
{
    lemma_generation(
        lines,
        lines.len() as int,
        after_labels(label_bindings(lines, symbols), symbols),
    );
    assert(named_before(lines, lines.len() as int, address_symbol(lines[k])));
}

/// Of two new variables, the one that the program names first has the lower address.
pub proof fn theorem_variables_increase(
    lines: Seq<Seq<char>>,
    symbols: Symbols,
    first: int,
    second: int,
)
    requires
        assembled(lines, symbols) is Ok,
        0 <= first < second < lines.len(),
        declares_variable(lines, first, label_bindings(lines, symbols)),
        declares_variable(lines, second, label_bindings(lines, symbols)),
    ensures
        final_symbols(lines, symbols).bindings[address_symbol(lines[first])] < final_symbols(
            lines,
            symbols,
        ).bindings[address_symbol(lines[second])],
{
    theorem_variable_address(lines, symbols, first);
    theorem_variable_address(lines, symbols, second);
    lemma_variables_before_monotone(lines, first + 1, second, label_bindings(lines, symbols));
}

/// At the end of an assembly a name is bound only if it was bound to begin with, if a label
/// declaration carries it, or if an address instruction names it.
pub proof fn theorem_nothing_else_is_bound(lines: Seq<Seq<char>>, symbols: Symbols, name: Seq<char>)
    requires
        assembled(lines, symbols) is Ok,
        final_symbols(lines, symbols).bindings.contains_key(name),
    ensures
        symbols.bindings.contains_key(name) || named_before(lines, lines.len() as int, name)
            || labelled_before(lines, lines.len() as int, name),
{
    lemma_labels(lines, lines.len() as int, symbols.bindings);
    lemma_generation(
        lines,
        lines.len() as int,
        after_labels(label_bindings(lines, symbols), symbols),
    );
}

/// Assembling is a function of the program and of the symbols it begins with: two assemblies
/// of one program end alike, in the same words or in the same failure.
pub proof fn theorem_assembly_repeats(
    lines: Seq<Seq<char>>,
    symbols: Symbols,
    first: Result<Vec<String>, AssembleError>,
    second: Result<Vec<String>, AssembleError>,
)
    requires
        outcome(first) == assembled(lines, symbols),
        outcome(second) == assembled(lines, symbols),
    ensures
        outcome(first) == outcome(second),
        first matches Ok(words) ==> second is Ok && second.unwrap().deep_view()
            == words.deep_view(),
        first matches Err(error) ==> second == Err::<Vec<String>, _>(error),
{
}

} // verus!
