//! Reading pools, samples and pool pairs out of rows of numbers, as a host
//! hands them over. A row that is too short to hold its entry is left out.

use vstd::prelude::*;

verus! {

/// The pairs held by the first `k` rows: of each row with at least two
/// numbers its first two, in the order of the rows.
pub open spec fn pairs_through(rows: Seq<Vec<u64>>, k: int) -> Seq<(u64, u64)>
    decreases k,
{
    if k <= 0 {
        Seq::empty()
    } else if rows[k - 1].len() >= 2 {
        pairs_through(rows, k - 1).push((rows[k - 1][0], rows[k - 1][1]))
    } else {
        pairs_through(rows, k - 1)
    }
}

/// Reads a list of pairs, such as the pools of a path or the samples of a
/// price window, out of rows of numbers.
pub fn pairs_from_rows(rows: &Vec<Vec<u64>>) -> (r: Vec<(u64, u64)>)
    ensures
        r@ == pairs_through(rows@, rows.len() as int),
        r.len() <= rows.len(),
{
    let mut pairs: Vec<(u64, u64)> = Vec::new();
    let mut i: usize = 0;
    while i < rows.len()
        invariant
            0 <= i <= rows.len(),
            pairs@ == pairs_through(rows@, i as int),
            pairs.len() <= i,
        decreases rows.len() - i,
    {
        let row: &Vec<u64> = &rows[i];
        if row.len() >= 2 {
            pairs.push((row[0], row[1]));
        }
        i = i + 1;
    }
    pairs
}

/// The pool pairs held by the first `k` rows: of each row with at least four
/// numbers its first four, in the order of the rows.
pub open spec fn quads_through(rows: Seq<Vec<u64>>, k: int) -> Seq<(u64, u64, u64, u64)>
    decreases k,
{
    if k <= 0 {
        Seq::empty()
    } else if rows[k - 1].len() >= 4 {
        quads_through(rows, k - 1).push(
            (rows[k - 1][0], rows[k - 1][1], rows[k - 1][2], rows[k - 1][3]),
        )
    } else {
        quads_through(rows, k - 1)
    }
}

/// Reads a list of pool pairs, each the reserves of two pools, out of rows of
/// numbers.
pub fn quads_from_rows(rows: &Vec<Vec<u64>>) -> (r: Vec<(u64, u64, u64, u64)>)
    ensures
        r@ == quads_through(rows@, rows.len() as int),
        r.len() <= rows.len(),
{
    let mut quads: Vec<(u64, u64, u64, u64)> = Vec::new();
    let mut i: usize = 0;
    while i < rows.len()
        invariant
            0 <= i <= rows.len(),
            quads@ == quads_through(rows@, i as int),
            quads.len() <= i,
        decreases rows.len() - i,
    {
        let row: &Vec<u64> = &rows[i];
        if row.len() >= 4 {
            quads.push((row[0], row[1], row[2], row[3]));
        }
        i = i + 1;
    }
    quads
}

/// Reads a list of paths, each a list of pools, out of rows of rows of
/// numbers. Every path is kept, also one that is left without a pool.
pub fn paths_from_rows(paths: &Vec<Vec<Vec<u64>>>) -> (r: Vec<Vec<(u64, u64)>>)
    ensures
        r.len() == paths.len(),
        forall|i: int|
            0 <= i < r.len() ==> (#[trigger] r[i])@ == pairs_through(
                paths[i]@,
                paths[i].len() as int,
            ),
{
    let mut out: Vec<Vec<(u64, u64)>> = Vec::new();
    let mut i: usize = 0;
    while i < paths.len()
        invariant
            0 <= i <= paths.len(),
            out.len() == i,
            forall|j: int|
                0 <= j < i ==> (#[trigger] out[j])@ == pairs_through(
                    paths[j]@,
                    paths[j].len() as int,
                ),
        decreases paths.len() - i,
    {
        let pairs: Vec<(u64, u64)> = pairs_from_rows(&paths[i]);
        out.push(pairs);
        i = i + 1;
    }
    out
}

} // verus!
