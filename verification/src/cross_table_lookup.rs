//! Cross-table lookups: declarations and the check that their accumulators
//! cancel.
//!
//! Each table's proof ends with a list of accumulator values. The lookups
//! are visited in order and each one is visited once per challenge; a visit
//! reads the next unread value of every looking table, in the order of the
//! declaration, and then the next unread value of the looked table. The
//! visit holds when the product of the looking values is the looked value.

use crate::config::StarkConfig;
use crate::error::VerifyError;
use crate::field::{canonical, field_mul, lemma_product_step, product, ORDER};
use crate::table::{Table, NUM_TABLES};
use vstd::prelude::*;

verus! {

/// Some columns of one table.
#[derive(Clone, Debug, PartialEq, Eq)]
pub struct TableWithColumns {
    pub table: Table,
    pub columns: Vec<usize>,
}

/// A declaration that the rows of the looking tables, projected to their
/// columns, are together the rows of the looked table.
#[derive(Clone, Debug, PartialEq, Eq)]
pub struct CrossTableLookup {
    pub looking_tables: Vec<TableWithColumns>,
    pub looked_table: TableWithColumns,
}

/// The tables of a lookup by their positions: all that the check reads of
/// a declaration.
pub struct LookupView {
    pub looking: Seq<int>,
    pub looked: int,
}

impl View for CrossTableLookup {
    type V = LookupView;

    open spec fn view(&self) -> LookupView {
        LookupView {
            looking: Seq::new(
                self.looking_tables@.len(),
                |k: int| self.looking_tables@[k].table.spec_index(),
            ),
            looked: self.looked_table.table.spec_index(),
        }
    }
}

/// The views of a list of declarations.
pub open spec fn lookup_views(lookups: Seq<CrossTableLookup>) -> Seq<LookupView> {
    Seq::new(lookups.len(), |i: int| lookups[i]@)
}

/// The accumulator lists of the tables as sequences.
pub open spec fn accumulator_views(zs: Seq<Vec<u64>>) -> Seq<Seq<u64>> {
    Seq::new(zs.len(), |t: int| zs[t]@)
}

/// How often `t` occurs in `s`.
pub open spec fn count(s: Seq<int>, t: int) -> nat
    decreases s.len(),
{
    if s.len() == 0 {
        0
    } else {
        count(s.drop_last(), t) + if s.last() == t {
            1nat
        } else {
            0nat
        }
    }
}

/// Number of values that one visit of `l` reads from table `t`.
pub open spec fn uses(l: LookupView, t: int) -> nat {
    count(l.looking, t) + if l.looked == t {
        1nat
    } else {
        0nat
    }
}

/// Number of values that one visit of each of the first `i` lookups reads
/// from table `t`.
pub open spec fn uses_before(lookups: Seq<LookupView>, i: int, t: int) -> nat
    decreases i,
{
    if i <= 0 {
        0
    } else {
        uses_before(lookups, i - 1, t) + uses(lookups[i - 1], t)
    }
}

/// For each table, the number of values read before visit `j` of lookup
/// `i`, with `c` visits for each lookup.
pub open spec fn visit_start(lookups: Seq<LookupView>, c: nat, i: int, j: int) -> Seq<int> {
    Seq::new(
        NUM_TABLES as nat,
        |t: int| c * uses_before(lookups, i, t) + j * uses(lookups[i], t),
    )
}

/// The place in its table's list of the value that a visit of `l` reads for
/// its looking table `k`, where `start` values of each table were read
/// before the visit.
pub open spec fn looking_slot(l: LookupView, start: Seq<int>, k: int) -> int {
    start[l.looking[k]] + count(l.looking.take(k), l.looking[k])
}

/// The place in its table's list of the value that a visit of `l` reads for
/// its looked table.
pub open spec fn looked_slot(l: LookupView, start: Seq<int>) -> int {
    start[l.looked] + count(l.looking, l.looked)
}

/// Whether the lists hold every value that a visit of `l` reads.
pub open spec fn visit_complete(l: LookupView, zs: Seq<Seq<u64>>, start: Seq<int>) -> bool {
    &&& forall|k: int|
        0 <= k < l.looking.len() ==> #[trigger] looking_slot(l, start, k) < zs[l.looking[k]].len()
    &&& looked_slot(l, start) < zs[l.looked].len()
}

/// The values that a visit of `l` reads for its looking tables.
pub open spec fn looking_values(l: LookupView, zs: Seq<Seq<u64>>, start: Seq<int>) -> Seq<u64> {
    Seq::new(l.looking.len(), |k: int| zs[l.looking[k]][looking_slot(l, start, k)])
}

/// Whether a visit of `l` finds all its values and the product of the
/// looking values is the looked value, as field elements.
pub open spec fn visit_holds(l: LookupView, zs: Seq<Seq<u64>>, start: Seq<int>) -> bool {
    &&& visit_complete(l, zs, start)
    &&& product(looking_values(l, zs, start)) % (ORDER as int) == (zs[l.looked][looked_slot(
        l,
        start,
    )] as int) % (ORDER as int)
}

/// Whether every visit of lookup `i` holds.
pub open spec fn lookup_holds(lookups: Seq<LookupView>, c: nat, zs: Seq<Seq<u64>>, i: int) -> bool {
    forall|j: int|
        0 <= j < c ==> #[trigger] visit_holds(lookups[i], zs, visit_start(lookups, c, i, j))
}

/// Whether every lookup holds.
pub open spec fn all_lookups_hold(lookups: Seq<LookupView>, c: nat, zs: Seq<Seq<u64>>) -> bool {
    forall|i: int| 0 <= i < lookups.len() ==> #[trigger] lookup_holds(lookups, c, zs, i)
}

/// Whether `i` is the first lookup that does not hold.
pub open spec fn first_broken_lookup(
    lookups: Seq<LookupView>,
    c: nat,
    zs: Seq<Seq<u64>>,
    i: int,
) -> bool {
    &&& 0 <= i < lookups.len()
    &&& !lookup_holds(lookups, c, zs, i)
    &&& forall|h: int| 0 <= h < i ==> #[trigger] lookup_holds(lookups, c, zs, h)
}

/// What the check of the lookups returns.
pub open spec fn lookups_verdict(
    lookups: Seq<LookupView>,
    c: nat,
    zs: Seq<Seq<u64>>,
    r: Result<(), VerifyError>,
) -> bool {
    match r {
        Ok(_) => all_lookups_hold(lookups, c, zs),
        Err(VerifyError::CrossTableLookupMismatch(i)) => first_broken_lookup(
            lookups,
            c,
            zs,
            i as int,
        ),
        Err(_) => false,
    }
}

/// Read positions as integers.
pub open spec fn positions(cursor: Seq<usize>) -> Seq<int> {
    Seq::new(cursor.len(), |t: int| cursor[t] as int)
}

/// Counting in a prefix that is one longer.
proof fn lemma_count_take_next(s: Seq<int>, k: int, t: int)
    requires
        0 <= k < s.len(),
    ensures
        count(s.take(k + 1), t) == count(s.take(k), t) + if s[k] == t {
            1nat
        } else {
            0nat
        },
{
    assert(s.take(k + 1).drop_last() =~= s.take(k));
    assert(s.take(k + 1).last() == s[k]);
}

/// One visit of `lookup`: reads the next value of each of its tables and
/// moves the read positions past them.
fn check_visit(
    lookup: &CrossTableLookup,
    zs: &[Vec<u64>; NUM_TABLES],
    cursor: &mut Vec<usize>,
) -> (ok: bool)
    requires
        old(cursor)@.len() == NUM_TABLES,
    ensures
        final(cursor)@.len() == NUM_TABLES,
        ok == visit_holds(lookup@, accumulator_views(zs@), positions(old(cursor)@)),
        ok ==> forall|t: int|
            0 <= t < NUM_TABLES ==> (#[trigger] final(cursor)@[t]) == old(cursor)@[t] + uses(
                lookup@,
                t,
            ),
{
    let ghost l = lookup@;
    let ghost start = positions(cursor@);
    let ghost zv = accumulator_views(zs@);
    let ghost values = looking_values(l, zv, start);
    let mut acc: u64 = 1;
    let mut k: usize = 0;
    proof {
        vstd::arithmetic::div_mod::lemma_small_mod(1, ORDER as nat);
        assert(values.take(0) =~= Seq::<u64>::empty());
        assert(l.looking.take(0) =~= Seq::<int>::empty());
    }
    while k < lookup.looking_tables.len()
        invariant
            k <= lookup.looking_tables@.len(),
            l == lookup@,
            zv == accumulator_views(zs@),
            values == looking_values(l, zv, start),
            start == positions(old(cursor)@),
            start.len() == NUM_TABLES,
            cursor@.len() == NUM_TABLES,
            forall|t: int|
                0 <= t < NUM_TABLES ==> (#[trigger] cursor@[t]) == start[t] + count(
                    l.looking.take(k as int),
                    t,
                ),
            forall|m: int|
                0 <= m < k ==> #[trigger] looking_slot(l, start, m) < zv[l.looking[m]].len(),
            acc == product(values.take(k as int)) % (ORDER as int),
        decreases lookup.looking_tables@.len() - k,
    {
        let t: usize = lookup.looking_tables[k].table.index();
        let at: usize = cursor[t];
        assert(l.looking[k as int] == t);
        assert(at == looking_slot(l, start, k as int));
        assert(zv[t as int] == zs@[t as int]@);
        if at >= zs[t].len() {
            assert(!visit_complete(l, zv, start));
            return false;
        }
        let z: u64 = zs[t][at];
        proof {
            assert(values[k as int] == z);
            lemma_product_step(values.take(k as int), acc, z);
            assert(values.take(k as int).push(z) =~= values.take(k + 1));
            assert forall|u: int| 0 <= u < NUM_TABLES implies count(l.looking.take(k + 1), u)
                == count(l.looking.take(k as int), u) + if u == t {
                1nat
            } else {
                0nat
            } by {
                lemma_count_take_next(l.looking, k as int, u);
            }
        }
        acc = field_mul(acc, z);
        cursor.set(t, at + 1);
        k = k + 1;
    }
    proof {
        assert(values.take(k as int) =~= values);
        assert(l.looking.take(k as int) =~= l.looking);
    }
    let t: usize = lookup.looked_table.table.index();
    let at: usize = cursor[t];
    assert(at == looked_slot(l, start));
    assert(zv[t as int] == zs@[t as int]@);
    if at >= zs[t].len() {
        return false;
    }
    let z: u64 = zs[t][at];
    cursor.set(t, at + 1);
    acc == canonical(z)
}

/// Checks every lookup, once per challenge, against the accumulator values
/// of the tables. The first lookup with a visit that does not hold is
/// reported; a visit that finds a list exhausted does not hold.
pub fn verify_cross_table_lookups(
    cross_table_lookups: &Vec<CrossTableLookup>,
    ctl_zs_lasts: &[Vec<u64>; NUM_TABLES],
    config: &StarkConfig,
) -> (r: Result<(), VerifyError>)
    ensures
        lookups_verdict(
            lookup_views(cross_table_lookups@),
            config.num_challenges as nat,
            accumulator_views(ctl_zs_lasts@),
            r,
        ),
{
    let c: usize = config.num_challenges;
    let ghost ls = lookup_views(cross_table_lookups@);
    let ghost zv = accumulator_views(ctl_zs_lasts@);
    let mut cursor: Vec<usize> = vec![0, 0, 0, 0, 0];
    let mut i: usize = 0;
    assert forall|t: int| 0 <= t < NUM_TABLES implies (#[trigger] cursor@[t]) == c * uses_before(
        ls,
        0,
        t,
    ) by {
        assert(uses_before(ls, 0, t) == 0);
    }
    while i < cross_table_lookups.len()
        invariant
            i <= cross_table_lookups@.len(),
            c == config.num_challenges,
            ls == lookup_views(cross_table_lookups@),
            zv == accumulator_views(ctl_zs_lasts@),
            cursor@.len() == NUM_TABLES,
            forall|t: int|
                0 <= t < NUM_TABLES ==> (#[trigger] cursor@[t]) == c * uses_before(ls, i as int, t),
            forall|h: int| 0 <= h < i ==> #[trigger] lookup_holds(ls, c as nat, zv, h),
        decreases cross_table_lookups@.len() - i,
    {
        let mut j: usize = 0;
        while j < c
            invariant
                j <= c,
                i < cross_table_lookups@.len(),
                c == config.num_challenges,
                ls == lookup_views(cross_table_lookups@),
                zv == accumulator_views(ctl_zs_lasts@),
                cursor@.len() == NUM_TABLES,
                forall|h: int| 0 <= h < i ==> #[trigger] lookup_holds(ls, c as nat, zv, h),
                forall|t: int|
                    0 <= t < NUM_TABLES ==> (#[trigger] cursor@[t]) == c * uses_before(
                        ls,
                        i as int,
                        t,
                    ) + j * uses(ls[i as int], t),
                forall|g: int|
                    0 <= g < j ==> #[trigger] visit_holds(
                        ls[i as int],
                        zv,
                        visit_start(ls, c as nat, i as int, g),
                    ),
            decreases c - j,
        {
            let ghost before = cursor@;
            assert(positions(before) =~= visit_start(ls, c as nat, i as int, j as int));
            assert(ls[i as int] == cross_table_lookups@[i as int]@);
            let ok = check_visit(&cross_table_lookups[i], ctl_zs_lasts, &mut cursor);
            if !ok {
                assert(!lookup_holds(ls, c as nat, zv, i as int));
                return Err(VerifyError::CrossTableLookupMismatch(i));
            }
            proof {
                assert forall|t: int| 0 <= t < NUM_TABLES implies (#[trigger] cursor@[t]) == c
                    * uses_before(ls, i as int, t) + (j + 1) * uses(ls[i as int], t) by {
                    let u = uses(ls[i as int], t) as int;
                    assert((j + 1) * u == j * u + u) by (nonlinear_arith);
                }
            }
            j = j + 1;
        }
        proof {
            assert forall|t: int| 0 <= t < NUM_TABLES implies (#[trigger] cursor@[t]) == c
                * uses_before(ls, i + 1, t) by {
                let a = uses_before(ls, i as int, t) as int;
                let u = uses(ls[i as int], t) as int;
                assert(c * (a + u) == c * a + c * u) by (nonlinear_arith);
            }
        }
        i = i + 1;
    }
    Ok(())
}

/// Whether `r` reports a lookup that does not hold.
pub open spec fn is_lookup_mismatch(r: Result<(), VerifyError>) -> bool {
    match r {
        Err(VerifyError::CrossTableLookupMismatch(_)) => true,
        _ => false,
    }
}

/// A lookup between two different tables, one looking and one looked, does
/// not survive a change to one side: where a visit of it holds, and the
/// value that the visit reads from one of the two tables is replaced by
/// another field element while the other table keeps its list, the visit no
/// longer holds and the check reports a lookup mismatch.
pub proof fn lemma_altered_accumulator_is_rejected(
    lookups: Seq<LookupView>,
    c: nat,
    zs: Seq<Seq<u64>>,
    altered: Seq<Seq<u64>>,
    i: int,
    j: int,
    table: int,
)
    requires
        0 <= i < lookups.len(),
        0 <= j < c,
        lookups[i].looking.len() == 1,
        lookups[i].looking[0] != lookups[i].looked,
        0 <= lookups[i].looking[0] < NUM_TABLES,
        0 <= lookups[i].looked < NUM_TABLES,
        zs.len() == NUM_TABLES,
        altered.len() == NUM_TABLES,
        visit_holds(lookups[i], zs, visit_start(lookups, c, i, j)),
        table == lookups[i].looking[0] || table == lookups[i].looked,
        forall|t: int| 0 <= t < NUM_TABLES && t != table ==> altered[t] == zs[t],
        altered[table].len() == zs[table].len(),
        ({
            let start = visit_start(lookups, c, i, j);
            let slot = if table == lookups[i].looked {
                looked_slot(lookups[i], start)
            } else {
                looking_slot(lookups[i], start, 0)
            };
            (altered[table][slot] as int) % (ORDER as int) != (zs[table][slot] as int) % (
            ORDER as int)
        }),
    ensures
        !visit_holds(lookups[i], altered, visit_start(lookups, c, i, j)),
        !all_lookups_hold(lookups, c, altered),
        forall|r: Result<(), VerifyError>| #[trigger]
            lookups_verdict(lookups, c, altered, r) ==> is_lookup_mismatch(r),
{
    let l = lookups[i];
    let start = visit_start(lookups, c, i, j);
    let a = l.looking[0];
    let b = l.looked;
    let before = looking_values(l, zs, start);
    let after = looking_values(l, altered, start);
    reveal_with_fuel(product, 2);
    assert(looking_slot(l, start, 0) < zs[a].len());
    assert(before.drop_last().len() == 0);
    assert(after.drop_last().len() == 0);
    assert(product(before) == before[0] as int) by (nonlinear_arith)
        requires
            product(before) == 1 * (before[0] as int),
    ;
    assert(product(after) == after[0] as int) by (nonlinear_arith)
        requires
            product(after) == 1 * (after[0] as int),
    ;
    assert(before[0] == zs[a][looking_slot(l, start, 0)]);
    assert(after[0] == altered[a][looking_slot(l, start, 0)]);
    assert(!visit_holds(l, altered, start));
    assert(!lookup_holds(lookups, c, altered, i));
    assert(!all_lookups_hold(lookups, c, altered));
}

/// The check of the lookups has one outcome: two results that both meet
/// its contract are the same.
pub proof fn lemma_lookups_verdict_unique(
    lookups: Seq<LookupView>,
    c: nat,
    zs: Seq<Seq<u64>>,
    r1: Result<(), VerifyError>,
    r2: Result<(), VerifyError>,
)
    requires
        lookups_verdict(lookups, c, zs, r1),
        lookups_verdict(lookups, c, zs, r2),
    ensures
        r1 == r2,
{
    match (r1, r2) {
        (
            Err(VerifyError::CrossTableLookupMismatch(a)),
            Err(VerifyError::CrossTableLookupMismatch(b)),
        ) => {
            if (a as int) < (b as int) {
                assert(lookup_holds(lookups, c, zs, a as int));
            } else if (b as int) < (a as int) {
                assert(lookup_holds(lookups, c, zs, b as int));
            }
            assert(a == b);
        },
        (Ok(_), Err(VerifyError::CrossTableLookupMismatch(b))) => {
            assert(lookup_holds(lookups, c, zs, b as int));
        },
        (Err(VerifyError::CrossTableLookupMismatch(a)), Ok(_)) => {
            assert(lookup_holds(lookups, c, zs, a as int));
        },
        (Ok(x), Ok(y)) => {
            assert(x == y);
        },
        _ => {},
    }
}

} // verus!
