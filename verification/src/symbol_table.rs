//! The table that gives each symbol of a program its address.

use crate::error::AssembleError;
use vstd::hash_map::StringHashMap;
use vstd::prelude::*;
use vstd::string::*;

verus! {

/// The first address that is given to a variable.
pub const FIRST_VARIABLE: u32 = 16;

/// The number of addresses that a 16-bit word can hold.
pub const ADDRESS_SPACE: u32 = 0x1_0000;

/// What each bound name stands for.
pub type Bindings = Map<Seq<char>, u16>;

/// The symbols that every program can use without declaring them: the sixteen registers, the
/// five pointers of the virtual machine, and the two memory-mapped devices.
pub open spec fn predefined_symbols() -> Bindings {
    Map::<Seq<char>, u16>::empty().insert("R0"@, 0).insert("R1"@, 1).insert("R2"@, 2).insert(
        "R3"@,
        3,
    ).insert("R4"@, 4).insert("R5"@, 5).insert("R6"@, 6).insert("R7"@, 7).insert("R8"@, 8).insert(
        "R9"@,
        9,
    ).insert("R10"@, 10).insert("R11"@, 11).insert("R12"@, 12).insert("R13"@, 13).insert(
        "R14"@,
        14,
    ).insert("R15"@, 15).insert("SP"@, 0).insert("LCL"@, 1).insert("ARG"@, 2).insert(
        "THIS"@,
        3,
    ).insert("THAT"@, 4).insert("SCREEN"@, 16384).insert("KBD"@, 24576)
}

/// A table after `name` was bound to `address`: a name that is bound already keeps its address.
pub open spec fn bind(table: Bindings, name: Seq<char>, address: u16) -> Bindings {
    if table.contains_key(name) {
        table
    } else {
        table.insert(name, address)
    }
}

/// A symbol table as a value: what each name is bound to, and the address that the next new
/// variable gets.
pub struct Symbols {
    pub bindings: Bindings,
    pub next_variable: nat,
}

/// The address of the variable `name`, and the symbols after it was asked for. A bound name has
/// its address and leaves the symbols as they are. A new name is bound to the next free
/// variable address, if there is one left.
pub open spec fn allocate(symbols: Symbols, name: Seq<char>) -> Result<
    (u16, Symbols),
    AssembleError,
> {
    if symbols.bindings.contains_key(name) {
        Ok((symbols.bindings[name], symbols))
    } else if symbols.next_variable < ADDRESS_SPACE {
        Ok(
            (
                symbols.next_variable as u16,
                Symbols {
                    bindings: symbols.bindings.insert(name, symbols.next_variable as u16),
                    next_variable: symbols.next_variable + 1,
                },
            ),
        )
    } else {
        Err(AssembleError::UnresolvedSymbol)
    }
}

/// A mapping from names to 16-bit addresses that only grows, with a counter for the addresses
/// of variables.
pub struct SymbolTable {
    symbols: StringHashMap<u16>,
    mem_counter: u32,
}

impl View for SymbolTable {
    type V = Symbols;

    closed spec fn view(&self) -> Symbols {
        Symbols { bindings: self.symbols@, next_variable: self.mem_counter as nat }
    }
}

impl SymbolTable {
    /// A table that holds the predefined symbols, with no variable allocated yet.
    pub fn new() -> (table: SymbolTable)
        ensures
            table@.bindings == predefined_symbols(),
            table@.next_variable == FIRST_VARIABLE,
    {
        let mut symbols: StringHashMap<u16> = StringHashMap::new();
        symbols.insert("R0".to_owned(), 0);
        symbols.insert("R1".to_owned(), 1);
        symbols.insert("R2".to_owned(), 2);
        symbols.insert("R3".to_owned(), 3);
        symbols.insert("R4".to_owned(), 4);
        symbols.insert("R5".to_owned(), 5);
        symbols.insert("R6".to_owned(), 6);
        symbols.insert("R7".to_owned(), 7);
        symbols.insert("R8".to_owned(), 8);
        symbols.insert("R9".to_owned(), 9);
        symbols.insert("R10".to_owned(), 10);
        symbols.insert("R11".to_owned(), 11);
        symbols.insert("R12".to_owned(), 12);
        symbols.insert("R13".to_owned(), 13);
        symbols.insert("R14".to_owned(), 14);
        symbols.insert("R15".to_owned(), 15);
        symbols.insert("SP".to_owned(), 0);
        symbols.insert("LCL".to_owned(), 1);
        symbols.insert("ARG".to_owned(), 2);
        symbols.insert("THIS".to_owned(), 3);
        symbols.insert("THAT".to_owned(), 4);
        symbols.insert("SCREEN".to_owned(), 16384);
        symbols.insert("KBD".to_owned(), 24576);
        SymbolTable { symbols, mem_counter: FIRST_VARIABLE }
    }

    /// Binds `key` to `val` unless `key` is bound already: a binding is never overwritten.
    #[allow(non_snake_case)]
    pub fn addEntry(&mut self, key: &str, val: &u16)
        ensures
            final(self)@.bindings == bind(old(self)@.bindings, key@, *val),
            final(self)@.next_variable == old(self)@.next_variable,
            old(self)@.bindings.submap_of(final(self)@.bindings),
    {
        if !self.symbols.contains_key(key) {
            self.symbols.insert(key.to_owned(), *val);
        }
    }

    /// Whether `key` is bound.
    pub fn contains(&self, key: &str) -> (bound: bool)
        ensures
            bound == self@.bindings.contains_key(key@),
    {
        self.symbols.contains_key(key)
    }

    /// The address that `key` is bound to, if it is bound.
    #[allow(non_snake_case)]
    pub fn getAddress(&self, key: &str) -> (address: Option<&u16>)
        ensures
            match address {
                Some(value) => self@.bindings.contains_key(key@) && *value == self@.bindings[key@],
                None => !self@.bindings.contains_key(key@),
            },
    {
        self.symbols.get(key)
    }

    /// The address of the variable `name`. A name that is bound has its address. A new name is
    /// bound to the next free variable address; once these are used up it is refused, and the
    /// table stays as it is.
    pub fn allocate_variable(&mut self, name: &str) -> (address: Result<u16, AssembleError>)
        ensures
            match address {
                Ok(value) => allocate(old(self)@, name@) == Ok::<_, AssembleError>(
                    (value, final(self)@),
                ),
                Err(error) => allocate(old(self)@, name@) == Err::<(u16, Symbols), _>(error)
                    && final(self)@ == old(self)@,
            },
            old(self)@.bindings.submap_of(final(self)@.bindings),
    {
        match self.symbols.get(name) {
            Some(value) => Ok(*value),
            None => {
                if self.mem_counter < ADDRESS_SPACE {
                    let value = self.mem_counter as u16;
                    self.symbols.insert(name.to_owned(), value);
                    self.mem_counter = self.mem_counter + 1;
                    Ok(value)
                } else {
                    Err(AssembleError::UnresolvedSymbol)
                }
            },
        }
    }
}

} // verus!
