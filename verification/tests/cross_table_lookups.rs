use zkevm_verifier::config::{FriConfig, StarkConfig};
use zkevm_verifier::cross_table_lookup::{
    verify_cross_table_lookups, CrossTableLookup, TableWithColumns,
};
use zkevm_verifier::error::VerifyError;
use zkevm_verifier::field::{field_mul, field_neg, ORDER};
use zkevm_verifier::table::Table;

fn config(num_challenges: usize) -> StarkConfig {
    StarkConfig { num_challenges, fri_config: FriConfig { cap_height: 0 } }
}

fn columns(table: Table) -> TableWithColumns {
    TableWithColumns { table, columns: vec![0] }
}

fn lookup(looking: &[Table], looked: Table) -> CrossTableLookup {
    CrossTableLookup {
        looking_tables: looking.iter().map(|t| columns(*t)).collect(),
        looked_table: columns(looked),
    }
}

fn empty() -> [Vec<u64>; 5] {
    [vec![], vec![], vec![], vec![], vec![]]
}

#[test]
fn no_lookups_always_hold() {
    assert_eq!(verify_cross_table_lookups(&vec![], &empty(), &config(2)), Ok(()));
    let zs = [vec![1], vec![2], vec![3], vec![4], vec![5]];
    assert_eq!(verify_cross_table_lookups(&vec![], &zs, &config(2)), Ok(()));
}

#[test]
fn no_challenges_read_nothing() {
    let lookups = vec![lookup(&[Table::Cpu], Table::Memory)];
    assert_eq!(verify_cross_table_lookups(&lookups, &empty(), &config(0)), Ok(()));
}

#[test]
fn one_looking_table_must_equal_the_looked_table() {
    let lookups = vec![lookup(&[Table::Cpu], Table::Memory)];
    let mut zs = empty();
    zs[0] = vec![17, 99];
    zs[4] = vec![17, 99];
    assert_eq!(verify_cross_table_lookups(&lookups, &zs, &config(2)), Ok(()));
    zs[4] = vec![17, 98];
    assert_eq!(
        verify_cross_table_lookups(&lookups, &zs, &config(2)),
        Err(VerifyError::CrossTableLookupMismatch(0))
    );
}

#[test]
fn negated_memory_accumulator_is_a_mismatch() {
    let lookups = vec![lookup(&[Table::Cpu], Table::Memory)];
    let mut zs = empty();
    zs[0] = vec![123456789];
    zs[4] = vec![123456789];
    assert_eq!(verify_cross_table_lookups(&lookups, &zs, &config(1)), Ok(()));
    zs[4][0] = field_neg(zs[4][0]);
    assert_eq!(zs[4][0], ORDER - 123456789);
    assert_eq!(
        verify_cross_table_lookups(&lookups, &zs, &config(1)),
        Err(VerifyError::CrossTableLookupMismatch(0))
    );
}

#[test]
fn altering_the_looking_side_is_a_mismatch_too() {
    let lookups = vec![lookup(&[Table::Cpu], Table::Memory)];
    let mut zs = empty();
    zs[0] = vec![5];
    zs[4] = vec![5];
    assert_eq!(verify_cross_table_lookups(&lookups, &zs, &config(1)), Ok(()));
    zs[0][0] = 6;
    assert_eq!(
        verify_cross_table_lookups(&lookups, &zs, &config(1)),
        Err(VerifyError::CrossTableLookupMismatch(0))
    );
}

#[test]
fn looking_values_are_multiplied() {
    let lookups = vec![lookup(&[Table::Cpu, Table::Keccak, Table::Logic], Table::Memory)];
    let mut zs = empty();
    zs[0] = vec![3];
    zs[1] = vec![5];
    zs[3] = vec![ORDER - 1];
    zs[4] = vec![field_mul(15, ORDER - 1)];
    assert_eq!(zs[4][0], ORDER - 15);
    assert_eq!(verify_cross_table_lookups(&lookups, &zs, &config(1)), Ok(()));
    zs[4] = vec![15];
    assert_eq!(
        verify_cross_table_lookups(&lookups, &zs, &config(1)),
        Err(VerifyError::CrossTableLookupMismatch(0))
    );
}

#[test]
fn representatives_above_the_order_are_compared_as_field_elements() {
    let lookups = vec![lookup(&[Table::Cpu], Table::Memory)];
    let mut zs = empty();
    zs[0] = vec![ORDER + 4];
    zs[4] = vec![4];
    assert_eq!(verify_cross_table_lookups(&lookups, &zs, &config(1)), Ok(()));
}

#[test]
fn each_table_is_read_in_order_across_lookups_and_challenges() {
    // Lookup 0: Cpu and Cpu look into Memory. Lookup 1: Memory looks into Cpu.
    let lookups = vec![
        lookup(&[Table::Cpu, Table::Cpu], Table::Memory),
        lookup(&[Table::Memory], Table::Cpu),
    ];
    let mut zs = empty();
    // Cpu: visit (0,0) reads 2, 3; visit (0,1) reads 4, 5; visit (1,0) reads 7; visit (1,1) reads 8.
    zs[0] = vec![2, 3, 4, 5, 7, 8];
    // Memory: visit (0,0) reads 6; visit (0,1) reads 20; visit (1,0) reads 7; visit (1,1) reads 8.
    zs[4] = vec![6, 20, 7, 8];
    assert_eq!(verify_cross_table_lookups(&lookups, &zs, &config(2)), Ok(()));
    zs[4][3] = 9;
    assert_eq!(
        verify_cross_table_lookups(&lookups, &zs, &config(2)),
        Err(VerifyError::CrossTableLookupMismatch(1))
    );
    zs[4][1] = 21;
    assert_eq!(
        verify_cross_table_lookups(&lookups, &zs, &config(2)),
        Err(VerifyError::CrossTableLookupMismatch(0))
    );
}

#[test]
fn a_table_that_looks_into_itself_reads_its_own_list_twice() {
    let lookups = vec![lookup(&[Table::Logic], Table::Logic)];
    let mut zs = empty();
    zs[3] = vec![11, 11];
    assert_eq!(verify_cross_table_lookups(&lookups, &zs, &config(1)), Ok(()));
    zs[3] = vec![11, 12];
    assert_eq!(
        verify_cross_table_lookups(&lookups, &zs, &config(1)),
        Err(VerifyError::CrossTableLookupMismatch(0))
    );
}

#[test]
fn a_missing_accumulator_is_a_mismatch_of_its_lookup() {
    let lookups = vec![
        lookup(&[Table::Cpu], Table::Memory),
        lookup(&[Table::Keccak], Table::KeccakMemory),
    ];
    let mut zs = empty();
    zs[0] = vec![1];
    zs[4] = vec![1];
    zs[1] = vec![2];
    assert_eq!(
        verify_cross_table_lookups(&lookups, &zs, &config(1)),
        Err(VerifyError::CrossTableLookupMismatch(1))
    );
    zs[2] = vec![2];
    assert_eq!(verify_cross_table_lookups(&lookups, &zs, &config(1)), Ok(()));
    zs[0] = vec![];
    assert_eq!(
        verify_cross_table_lookups(&lookups, &zs, &config(1)),
        Err(VerifyError::CrossTableLookupMismatch(0))
    );
}

#[test]
fn values_left_over_are_not_read() {
    let lookups = vec![lookup(&[Table::Cpu], Table::Memory)];
    let mut zs = empty();
    zs[0] = vec![1, 500];
    zs[4] = vec![1, 600];
    assert_eq!(verify_cross_table_lookups(&lookups, &zs, &config(1)), Ok(()));
}
