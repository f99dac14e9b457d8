use hack_assembler::error::AssembleError;
use hack_assembler::symbol_table::{SymbolTable, ADDRESS_SPACE, FIRST_VARIABLE};

#[test]
fn new_table_holds_the_registers() {
    let table = SymbolTable::new();
    for register in 0u16..16 {
        let name = format!("R{}", register);
        assert!(table.contains(&name));
        assert_eq!(table.getAddress(&name), Some(&register));
    }
}

#[test]
fn new_table_holds_the_pointers_and_devices() {
    let table = SymbolTable::new();
    assert_eq!(table.getAddress("SP"), Some(&0));
    assert_eq!(table.getAddress("LCL"), Some(&1));
    assert_eq!(table.getAddress("ARG"), Some(&2));
    assert_eq!(table.getAddress("THIS"), Some(&3));
    assert_eq!(table.getAddress("THAT"), Some(&4));
    assert_eq!(table.getAddress("SCREEN"), Some(&16384));
    assert_eq!(table.getAddress("KBD"), Some(&24576));
}

#[test]
fn names_are_case_sensitive_and_unknown_names_are_not_found() {
    let table = SymbolTable::new();
    assert!(!table.contains("sp"));
    assert!(!table.contains("R16"));
    assert!(!table.contains(""));
    assert_eq!(table.getAddress("screen"), None);
    assert_eq!(table.getAddress("LOOP"), None);
}

#[test]
fn constants_of_the_address_space() {
    assert_eq!(FIRST_VARIABLE, 16);
    assert_eq!(ADDRESS_SPACE, 65536);
}

#[test]
fn add_entry_binds_a_new_name() {
    let mut table = SymbolTable::new();
    table.addEntry("LOOP", &4);
    assert!(table.contains("LOOP"));
    assert_eq!(table.getAddress("LOOP"), Some(&4));
}

#[test]
fn add_entry_never_overwrites() {
    let mut table = SymbolTable::new();
    table.addEntry("LOOP", &4);
    table.addEntry("LOOP", &9);
    assert_eq!(table.getAddress("LOOP"), Some(&4));
    table.addEntry("SP", &100);
    assert_eq!(table.getAddress("SP"), Some(&0));
    table.addEntry("KBD", &1);
    assert_eq!(table.getAddress("KBD"), Some(&24576));
}

#[test]
fn add_entry_leaves_the_variable_counter_alone() {
    let mut table = SymbolTable::new();
    table.addEntry("LOOP", &16);
    table.addEntry("END", &17);
    assert_eq!(table.allocate_variable("i"), Ok(16));
}

#[test]
fn variables_start_at_sixteen_and_follow_each_other() {
    let mut table = SymbolTable::new();
    assert_eq!(table.allocate_variable("foo"), Ok(16));
    assert_eq!(table.allocate_variable("bar"), Ok(17));
    assert_eq!(table.allocate_variable("baz"), Ok(18));
    assert_eq!(table.getAddress("foo"), Some(&16));
    assert_eq!(table.getAddress("bar"), Some(&17));
    assert_eq!(table.getAddress("baz"), Some(&18));
}

#[test]
fn a_variable_is_allocated_once() {
    let mut table = SymbolTable::new();
    assert_eq!(table.allocate_variable("foo"), Ok(16));
    assert_eq!(table.allocate_variable("bar"), Ok(17));
    assert_eq!(table.allocate_variable("foo"), Ok(16));
    assert_eq!(table.allocate_variable("baz"), Ok(18));
}

#[test]
fn a_bound_name_is_no_new_variable() {
    let mut table = SymbolTable::new();
    table.addEntry("LOOP", &7);
    assert_eq!(table.allocate_variable("LOOP"), Ok(7));
    assert_eq!(table.allocate_variable("SCREEN"), Ok(16384));
    assert_eq!(table.allocate_variable("R5"), Ok(5));
    assert_eq!(table.allocate_variable("first"), Ok(16));
}

#[test]
fn the_empty_name_is_a_name() {
    let mut table = SymbolTable::new();
    assert_eq!(table.allocate_variable(""), Ok(16));
    assert_eq!(table.allocate_variable(""), Ok(16));
    assert!(table.contains(""));
}

#[test]
fn variables_run_out_at_the_end_of_the_address_space() {
    let mut table = SymbolTable::new();
    for address in 16u32..65536 {
        let name = format!("v{}", address);
        assert_eq!(table.allocate_variable(&name), Ok(address as u16));
    }
    assert_eq!(
        table.allocate_variable("one_too_many"),
        Err(AssembleError::UnresolvedSymbol)
    );
    assert!(!table.contains("one_too_many"));
    // names that are bound are still found
    assert_eq!(table.allocate_variable("v16"), Ok(16));
    assert_eq!(table.allocate_variable("v65535"), Ok(65535));
    assert_eq!(table.allocate_variable("SP"), Ok(0));
    // and labels can still be bound
    table.addEntry("END", &3);
    assert_eq!(table.getAddress("END"), Some(&3));
}
