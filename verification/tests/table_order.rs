use zkevm_verifier::table::{Table, NUM_TABLES};

#[test]
fn tables_are_indexed_in_declaration_order() {
    assert_eq!(NUM_TABLES, 5);
    assert_eq!(Table::Cpu.index(), 0);
    assert_eq!(Table::Keccak.index(), 1);
    assert_eq!(Table::KeccakMemory.index(), 2);
    assert_eq!(Table::Logic.index(), 3);
    assert_eq!(Table::Memory.index(), 4);
}

#[test]
fn from_index_inverts_index() {
    let all = Table::all();
    assert_eq!(all.len(), NUM_TABLES);
    for (i, t) in all.iter().enumerate() {
        assert_eq!(t.index(), i);
        assert_eq!(Table::from_index(i), Some(*t));
    }
    assert_eq!(Table::from_index(5), None);
    assert_eq!(Table::from_index(usize::MAX), None);
}
