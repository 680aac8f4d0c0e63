//! The fixed, ordered set of tables.

use vstd::prelude::*;

verus! {

/// Number of tables whose proofs make up one aggregate statement.
pub const NUM_TABLES: usize = 5;

/// One of the five arithmetization tables. The declaration order is the
/// order in which commitments are absorbed and arrays are indexed.
#[derive(Clone, Copy, Debug, PartialEq, Eq, Structural)]
pub enum Table {
    Cpu,
    Keccak,
    KeccakMemory,
    Logic,
    Memory,
}

impl Table {
    /// Position of the table in the fixed order.
    pub open spec fn spec_index(self) -> int {
        match self {
            Table::Cpu => 0,
            Table::Keccak => 1,
            Table::KeccakMemory => 2,
            Table::Logic => 3,
            Table::Memory => 4,
        }
    }

    /// Position of the table in the fixed order.
    pub fn index(self) -> (i: usize)
        ensures
            i == self.spec_index(),
            i < NUM_TABLES,
    {
        match self {
            Table::Cpu => 0,
            Table::Keccak => 1,
            Table::KeccakMemory => 2,
            Table::Logic => 3,
            Table::Memory => 4,
        }
    }

    /// The table at a position of the fixed order, if there is one.
    pub fn from_index(i: usize) -> (t: Option<Table>)
        ensures
            i < NUM_TABLES <==> t.is_some(),
            t.is_some() ==> t.unwrap().spec_index() == i,
    {
        if i == 0 {
            Some(Table::Cpu)
        } else if i == 1 {
            Some(Table::Keccak)
        } else if i == 2 {
            Some(Table::KeccakMemory)
        } else if i == 3 {
            Some(Table::Logic)
        } else if i == 4 {
            Some(Table::Memory)
        } else {
            None
        }
    }

    /// All tables, in order.
    pub fn all() -> (ts: Vec<Table>)
        ensures
            ts@.len() == NUM_TABLES,
            forall|i: int| 0 <= i < NUM_TABLES ==> (#[trigger] ts@[i]).spec_index() == i,
    {
        vec![Table::Cpu, Table::Keccak, Table::KeccakMemory, Table::Logic, Table::Memory]
    }
}

} // verus!
