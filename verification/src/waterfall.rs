//! The rows of the waterfall, the newest first.

use std::collections::VecDeque;

use vstd::prelude::*;

use crate::clock;
use crate::clock::Timestamp;

verus! {

pub const WATERFALL_BUCKETS: usize = 400;

pub const WATERFALL_HISTORY_ROWS: usize = 180;

/// How often the waterfall grows: every 200 milliseconds.
pub const WATERFALL_UPDATE_NANOS: u128 = 200_000_000;

/// A new row is due, and there are new samples to make it from.
pub fn should_refresh_waterfall(
    now: Timestamp,
    last_update: Timestamp,
    latest_sample_time: Option<Timestamp>,
    last_sample_time: Timestamp,
) -> (r: bool)
    ensures
        r == (clock::since(now, last_update) >= WATERFALL_UPDATE_NANOS && (latest_sample_time
            matches Some(latest) && latest > last_sample_time)),
{
    if clock::elapsed(now, last_update) < WATERFALL_UPDATE_NANOS {
        return false;
    }
    match latest_sample_time {
        Some(latest) => latest > last_sample_time,
        None => false,
    }
}

/// The rows with a new one in front; where the history is full, the oldest goes.
pub open spec fn with_row(rows: Seq<Vec<u8>>, row: Vec<u8>) -> Seq<Vec<u8>> {
    seq![row] + (if rows.len() == WATERFALL_HISTORY_ROWS {
        rows.drop_last()
    } else {
        rows
    })
}

pub fn push_waterfall_row(rows: &mut VecDeque<Vec<u8>>, row: Vec<u8>)
    ensures
        final(rows)@ == with_row(old(rows)@, row),
{
    if rows.len() == WATERFALL_HISTORY_ROWS {
        let _ = rows.pop_back();
        assert(rows@ =~= old(rows)@.drop_last());
    }
    let ghost kept = rows@;
    rows.push_front(row);
    assert(rows@ =~= seq![row] + kept);
}

/// A history of blank rows.
pub fn seeded_waterfall_rows() -> (r: VecDeque<Vec<u8>>)
    ensures
        r@.len() == WATERFALL_HISTORY_ROWS,
        forall|i: int|
            0 <= i < r@.len() ==> (#[trigger] r@[i])@ == Seq::new(
                WATERFALL_BUCKETS as nat,
                |k: int| 0u8,
            ),
{
    let mut rows: VecDeque<Vec<u8>> = VecDeque::new();
    let mut i: usize = 0;
    while i < WATERFALL_HISTORY_ROWS
        invariant
            i <= WATERFALL_HISTORY_ROWS,
            rows@.len() == i,
            forall|k: int|
                0 <= k < rows@.len() ==> (#[trigger] rows@[k])@ == Seq::new(
                    WATERFALL_BUCKETS as nat,
                    |k: int| 0u8,
                ),
        decreases WATERFALL_HISTORY_ROWS - i,
    {
        let mut row: Vec<u8> = Vec::new();
        let mut k: usize = 0;
        while k < WATERFALL_BUCKETS
            invariant
                k <= WATERFALL_BUCKETS,
                row@ == Seq::new(k as nat, |k: int| 0u8),
            decreases WATERFALL_BUCKETS - k,
        {
            row.push(0);
            k += 1;
            assert(row@ =~= Seq::new(k as nat, |k: int| 0u8));
        }
        rows.push_back(row);
        i += 1;
    }
    rows
}

/// A history that is full stays as long as it is, with the new row first and the others one further
/// down.
pub proof fn law_full_history_keeps_its_length(rows: Seq<Vec<u8>>, row: Vec<u8>, i: int)
    requires
        rows.len() == WATERFALL_HISTORY_ROWS,
        0 <= i < WATERFALL_HISTORY_ROWS - 1,
    ensures
        with_row(rows, row).len() == WATERFALL_HISTORY_ROWS,
        with_row(rows, row)[0] == row,
        with_row(rows, row)[i + 1] == rows[i],
{
}

/// The waterfall keeps the last hundred and eighty rows, the newest in front.
pub proof fn law_newest_row_is_in_front(rows: Seq<Vec<u8>>, row: Vec<u8>, i: int)
    requires
        rows.len() <= 180,
    ensures
        with_row(rows, row)[0] == row,
        with_row(rows, row).len() == (if rows.len() < 180 {
            rows.len() + 1
        } else {
            180
        }),
        1 <= i < with_row(rows, row).len() ==> with_row(rows, row)[i] == rows[i - 1],
{
}

} // verus!
