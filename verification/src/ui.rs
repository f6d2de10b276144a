//! The computable part of the launcher's presentation: arranging the
//! applications into grid rows. Drawing the rows is the surrounding
//! program's business.

use vstd::prelude::*;

use crate::state::AppInfo;

verus! {

/// The rows flattened back into one sequence, in order.
pub open spec fn rows_flat(rows: Seq<Vec<AppInfo>>) -> Seq<AppInfo>
    decreases rows.len(),
{
    if rows.len() == 0 {
        Seq::empty()
    } else {
        rows_flat(rows.drop_last()) + rows.last()@
    }
}

/// Chunks the applications into grid rows of `cols` entries: every row is
/// full except possibly the last, no row is empty, and reading the rows
/// left to right, top to bottom, gives back exactly the input order.
pub fn grid_rows(apps: Vec<AppInfo>, cols: usize) -> (r: Vec<Vec<AppInfo>>)
    requires
        cols >= 1,
    ensures
        rows_flat(r@) == apps@,
        forall|i: int| 0 <= i < r@.len() ==> 1 <= (#[trigger] r@[i])@.len() <= cols,
        forall|i: int| 0 <= i < r@.len() - 1 ==> (#[trigger] r@[i])@.len() == cols,
{
    let mut rest = apps;
    let mut rows: Vec<Vec<AppInfo>> = Vec::new();
    let mut row: Vec<AppInfo> = Vec::new();
    proof {
        assert(rows@ =~= Seq::<Vec<AppInfo>>::empty());
        assert(rows_flat(rows@) + row@ + rest@ =~= apps@);
    }
    while rest.len() > 0
        invariant
            cols >= 1,
            row@.len() < cols,
            rows_flat(rows@) + row@ + rest@ == apps@,
            forall|i: int| 0 <= i < rows@.len() ==> (#[trigger] rows@[i])@.len() == cols,
        decreases rest@.len(),
    {
        let ghost flat0 = rows_flat(rows@);
        let ghost row0 = row@;
        let ghost rest0 = rest@;
        let x = rest.remove(0);
        row.push(x);
        proof {
            assert(rest@ =~= rest0.drop_first());
            assert(row@ =~= row0.push(rest0[0]));
            assert(flat0 + row@ + rest@ =~= flat0 + row0 + rest0);
        }
        if row.len() == cols {
            let full = row;
            row = Vec::new();
            let ghost rows0 = rows@;
            rows.push(full);
            proof {
                assert(rows@.drop_last() =~= rows0);
                assert(rows@.last() == full);
                assert(rows_flat(rows@) == rows_flat(rows0) + full@);
                assert(row@ =~= Seq::<AppInfo>::empty());
                assert(rows_flat(rows@) + row@ + rest@ =~= (flat0 + full@) + rest@);
                assert((flat0 + full@) + rest@ =~= flat0 + full@ + rest@);
            }
        }
    }
    proof {
        assert(rest@ =~= Seq::<AppInfo>::empty());
    }
    if row.len() > 0 {
        let ghost rows0 = rows@;
        let ghost row0 = row@;
        rows.push(row);
        proof {
            assert(rows@.drop_last() =~= rows0);
            assert(rows@.last()@ == row0);
            assert(rows_flat(rows@) =~= rows_flat(rows0) + row0);
            assert(rows_flat(rows@) =~= apps@);
            assert forall|i: int| 0 <= i < rows@.len() implies 1 <= (#[trigger] rows@[i])@.len()
                <= cols by {
                if i < rows0.len() {
                    assert(rows@[i] == rows0[i]);
                }
            }
        }
    } else {
        proof {
            assert(rows_flat(rows@) + row@ + rest@ =~= rows_flat(rows@));
        }
    }
    rows
}

} // verus!
