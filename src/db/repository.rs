//! The store's merge rules. Observations are merged by their natural key
//! `(station, UTC time)`: an incoming row replaces every non-key column of a
//! stored one and points it at the file it came from. Batches are cut into
//! chunks of `BATCH_SIZE` rows, all merged in one transaction.

use crate::db::models::{InsertResult, NewObservation, Timestamp};
use crate::error::Result;
use crate::parser::{
    accepted_lines, file_outcome, is_record_of, lemma_accepted_records, ParseStats, Ratio,
};
use crate::text::lines_of;
use vstd::prelude::*;

verus! {

/// The most rows merged by one statement.
pub const BATCH_SIZE: usize = 1000;

/// The observation table: for each natural key, the stored observation and
/// the id of the file it last came from.
pub type ObservationTable = Map<(i32, Timestamp), (NewObservation, i32)>;

/// The table after merging `rows`, in order, from file `file_id`.
pub open spec fn merge_rows(t: ObservationTable, rows: Seq<NewObservation>, file_id: i32) -> ObservationTable
    decreases rows.len(),
{
    if rows.len() == 0 {
        t
    } else {
        merge_rows(t, rows.drop_last(), file_id).insert(rows.last().key(), (rows.last(), file_id))
    }
}

/// The chunks of a batch of `n` rows: `[1000k, min(1000(k+1), n))` for each `k`.
pub open spec fn chunk_seq(n: nat) -> Seq<(usize, usize)> {
    Seq::new(
        ((n + 999) / 1000) as nat,
        |k: int|
            (
                (1000 * k) as usize,
                (if 1000 * (k + 1) < n {
                    1000 * (k + 1)
                } else {
                    n as int
                }) as usize,
            ),
    )
}

/// The table after merging the chunks `bounds` of `rows`, one after another.
pub open spec fn merge_chunks(
    t: ObservationTable,
    rows: Seq<NewObservation>,
    bounds: Seq<(usize, usize)>,
    file_id: i32,
) -> ObservationTable
    decreases bounds.len(),
{
    if bounds.len() == 0 {
        t
    } else {
        merge_rows(
            merge_chunks(t, rows, bounds.drop_last(), file_id),
            rows.subrange(bounds.last().0 as int, bounds.last().1 as int),
            file_id,
        )
    }
}

/// No two of `rows` share a natural key.
pub open spec fn keys_distinct(rows: Seq<NewObservation>) -> bool {
    forall|i: int, j: int| 0 <= i < j < rows.len() ==> rows[i].key() != rows[j].key()
}

/// The natural keys of `rows`.
pub open spec fn keys_of(rows: Seq<NewObservation>) -> Set<(i32, Timestamp)> {
    Set::new(|k: (i32, Timestamp)| exists|i: int| 0 <= i < rows.len() && rows[i].key() == k)
}

proof fn lemma_merge_append(t: ObservationTable, a: Seq<NewObservation>, b: Seq<NewObservation>, f: i32)
    ensures
        merge_rows(merge_rows(t, a, f), b, f) == merge_rows(t, a + b, f),
    decreases b.len(),
{
    if b.len() == 0 {
        assert(a + b =~= a);
    } else {
        lemma_merge_append(t, a, b.drop_last(), f);
        assert((a + b).drop_last() =~= a + b.drop_last());
    }
}

/// A merge lays the merged rows over the table.
proof fn lemma_merge_overlays(t: ObservationTable, rows: Seq<NewObservation>, f: i32)
    ensures
        merge_rows(t, rows, f) == t.union_prefer_right(merge_rows(Map::empty(), rows, f)),
        merge_rows(Map::empty(), rows, f).dom() == keys_of(rows),
    decreases rows.len(),
{
    if rows.len() > 0 {
        let init = rows.drop_last();
        lemma_merge_overlays(t, init, f);
        assert(merge_rows(t, rows, f) =~= t.union_prefer_right(merge_rows(Map::empty(), rows, f)));
        assert forall|k: (i32, Timestamp)| #[trigger] keys_of(rows).contains(k) implies keys_of(
            init,
        ).contains(k) || k == rows.last().key() by {
            let i = choose|i: int| 0 <= i < rows.len() && rows[i].key() == k;
            if i < rows.len() - 1 {
                assert(init[i].key() == k);
            }
        }
        assert forall|k: (i32, Timestamp)| #[trigger] keys_of(init).contains(k) implies keys_of(
            rows,
        ).contains(k) by {
            let i = choose|i: int| 0 <= i < init.len() && init[i].key() == k;
            assert(rows[i].key() == k);
        }
        assert(keys_of(rows).contains(rows.last().key()));
        assert(merge_rows(Map::empty(), rows, f).dom() =~= keys_of(rows));
    } else {
        assert(t.union_prefer_right(Map::empty()) =~= t);
        assert(keys_of(rows) =~= Set::empty());
    }
}

/// Merging the same records a second time, from any file, leaves the table
/// as one merge from that file would: one row per natural key, holding the
/// values and the file of the second merge, and no row added.
pub proof fn lemma_merge_idempotent(
    t: ObservationTable,
    rows: Seq<NewObservation>,
    first_file: i32,
    second_file: i32,
)
    ensures
        merge_rows(merge_rows(t, rows, first_file), rows, second_file) == merge_rows(
            t,
            rows,
            second_file,
        ),
        merge_rows(merge_rows(t, rows, first_file), rows, second_file).dom() == merge_rows(
            t,
            rows,
            first_file,
        ).dom(),
{
    let once = merge_rows(t, rows, first_file);
    lemma_merge_overlays(t, rows, first_file);
    lemma_merge_overlays(once, rows, second_file);
    lemma_merge_overlays(t, rows, second_file);
    let m1 = merge_rows(Map::empty(), rows, first_file);
    let m2 = merge_rows(Map::empty(), rows, second_file);
    assert(t.union_prefer_right(m1).union_prefer_right(m2) =~= t.union_prefer_right(m2));
    assert(t.union_prefer_right(m2).dom() =~= t.union_prefer_right(m1).dom());
}

/// Merging a batch of records with distinct keys, none of them stored yet,
/// adds exactly one row for each record, holding that record.
pub proof fn lemma_merge_adds_one_row_each(t: ObservationTable, rows: Seq<NewObservation>, f: i32)
    requires
        t.dom().finite(),
        keys_distinct(rows),
        forall|i: int| 0 <= i < rows.len() ==> !t.dom().contains(#[trigger] rows[i].key()),
    ensures
        merge_rows(t, rows, f).dom().finite(),
        merge_rows(t, rows, f).dom().len() == t.dom().len() + rows.len(),
        forall|i: int|
            0 <= i < rows.len() ==> merge_rows(t, rows, f)[#[trigger] rows[i].key()] == (rows[i], f),
    decreases rows.len(),
{
    if rows.len() > 0 {
        let init = rows.drop_last();
        assert forall|i: int, j: int| 0 <= i < j < init.len() implies init[i].key() != init[j].key() by {
            assert(rows[i].key() != rows[j].key());
        }
        assert forall|i: int| 0 <= i < init.len() implies !t.dom().contains(#[trigger] init[i].key()) by {
            assert(init[i] == rows[i]);
        }
        lemma_merge_adds_one_row_each(t, init, f);
        let m = merge_rows(t, init, f);
        let k = rows.last().key();
        assert(!m.dom().contains(k)) by {
            if m.dom().contains(k) {
                lemma_merge_domain(t, init, f);
                if !t.dom().contains(k) {
                    let i = choose|i: int| 0 <= i < init.len() && init[i].key() == k;
                    assert(rows[i].key() == rows[rows.len() - 1].key());
                }
            }
        }
        assert forall|i: int| 0 <= i < rows.len() implies merge_rows(t, rows, f)[#[trigger] rows[i].key()]
            == (rows[i], f) by {
            if i < rows.len() - 1 {
                assert(init[i] == rows[i]);
                assert(rows[i].key() != rows[rows.len() - 1].key());
            }
        }
    }
}

proof fn lemma_merge_domain(t: ObservationTable, rows: Seq<NewObservation>, f: i32)
    ensures
        forall|k: (i32, Timestamp)|
            #[trigger] merge_rows(t, rows, f).dom().contains(k) ==> t.dom().contains(k) || exists|
                i: int,
            |
                0 <= i < rows.len() && rows[i].key() == k,
    decreases rows.len(),
{
    if rows.len() > 0 {
        let init = rows.drop_last();
        lemma_merge_domain(t, init, f);
        assert forall|k: (i32, Timestamp)| #[trigger] merge_rows(t, rows, f).dom().contains(k) implies t.dom().contains(k)
            || exists|i: int| 0 <= i < rows.len() && rows[i].key() == k by {
            if k != rows.last().key() && !t.dom().contains(k) {
                assert(merge_rows(t, init, f).dom().contains(k));
                let i = choose|i: int| 0 <= i < init.len() && init[i].key() == k;
                assert(rows[i].key() == k);
            }
        }
    }
}

/// Batches with the same natural keys, position by position, have the same key set.
pub proof fn lemma_same_key_sets(a: Seq<NewObservation>, b: Seq<NewObservation>)
    requires
        a.len() == b.len(),
        forall|k: int| 0 <= k < a.len() ==> (#[trigger] a[k]).key() == b[k].key(),
    ensures
        keys_of(a) == keys_of(b),
{
    assert forall|key: (i32, Timestamp)| keys_of(a).contains(key) implies keys_of(b).contains(key) by {
        let i = choose|i: int| 0 <= i < a.len() && a[i].key() == key;
        assert(b[i].key() == key);
    }
    assert forall|key: (i32, Timestamp)| keys_of(b).contains(key) implies keys_of(a).contains(key) by {
        let i = choose|i: int| 0 <= i < b.len() && b[i].key() == key;
        assert(a[i].key() == key);
    }
    assert(keys_of(a) =~= keys_of(b));
}

/// Two batches with the same natural keys write the same rows: merging the
/// second after the first leaves the table as merging the second alone, every
/// row holding the second batch's values and file, and it adds no row.
pub proof fn lemma_same_keys_overwrite(
    t: ObservationTable,
    a: Seq<NewObservation>,
    b: Seq<NewObservation>,
    f1: i32,
    f2: i32,
)
    requires
        keys_of(a) == keys_of(b),
    ensures
        merge_rows(merge_rows(t, a, f1), b, f2) == merge_rows(t, b, f2),
        merge_rows(t, b, f2).dom() == merge_rows(t, a, f1).dom(),
{
    lemma_merge_overlays(t, a, f1);
    lemma_merge_overlays(merge_rows(t, a, f1), b, f2);
    lemma_merge_overlays(t, b, f2);
    let ma = merge_rows(Map::empty(), a, f1);
    let mb = merge_rows(Map::empty(), b, f2);
    assert(t.union_prefer_right(ma).union_prefer_right(mb) =~= t.union_prefer_right(mb));
    assert(t.union_prefer_right(mb).dom() =~= t.union_prefer_right(ma).dom());
}

proof fn lemma_records_share_key(a: NewObservation, b: NewObservation, t: Seq<Seq<char>>)
    requires
        is_record_of(a, t),
        is_record_of(b, t),
    ensures
        a.key() == b.key(),
{
    reveal(is_record_of);
}

/// Ingesting the same file content twice, the second time under another file
/// id, leaves exactly the rows of one ingestion: one per natural key, holding
/// the second attempt's records and file.
pub proof fn lemma_reingestion_is_idempotent(
    content: Seq<char>,
    threshold: Ratio,
    first: Vec<NewObservation>,
    first_stats: ParseStats,
    second: Vec<NewObservation>,
    second_stats: ParseStats,
    t: ObservationTable,
    first_file: i32,
    second_file: i32,
)
    requires
        file_outcome(content, threshold, Ok::<(Vec<NewObservation>, ParseStats), crate::error::AppError>((first, first_stats))),
        file_outcome(content, threshold, Ok::<(Vec<NewObservation>, ParseStats), crate::error::AppError>((second, second_stats))),
    ensures
        merge_rows(merge_rows(t, first@, first_file), second@, second_file) == merge_rows(
            t,
            second@,
            second_file,
        ),
        merge_rows(merge_rows(t, first@, first_file), second@, second_file).dom() == merge_rows(
            t,
            first@,
            first_file,
        ).dom(),
{
    let ok = accepted_lines(lines_of(content));
    lemma_accepted_records(content, threshold, first, first_stats);
    lemma_accepted_records(content, threshold, second, second_stats);
    assert forall|k: int| 0 <= k < first@.len() implies (#[trigger] first@[k]).key() == second@[k].key() by {
        assert(is_record_of(first@[k], ok[k]));
        assert(is_record_of(second@[k], ok[k]));
        lemma_records_share_key(first@[k], second@[k], ok[k]);
    }
    lemma_same_key_sets(first@, second@);
    lemma_same_keys_overwrite(t, first@, second@, first_file, second_file);
}

/// The end of the first `m` chunks of a batch of `n` rows.
pub open spec fn chunks_end(n: nat, m: nat) -> int {
    if 1000 * m < n {
        (1000 * m) as int
    } else {
        n as int
    }
}

proof fn lemma_chunks_prefix(t: ObservationTable, rows: Seq<NewObservation>, f: i32, m: nat)
    requires
        m <= chunk_seq(rows.len()).len(),
        rows.len() <= usize::MAX,
    ensures
        merge_chunks(t, rows, chunk_seq(rows.len()).take(m as int), f) == merge_rows(
            t,
            rows.take(chunks_end(rows.len(), m)),
            f,
        ),
    decreases m,
{
    let n = rows.len();
    if m == 0 {
        assert(rows.take(0) =~= Seq::<NewObservation>::empty());
    } else {
        let bs = chunk_seq(n).take(m as int);
        assert(bs.drop_last() =~= chunk_seq(n).take(m - 1));
        lemma_chunks_prefix(t, rows, f, (m - 1) as nat);
        let a = chunks_end(n, (m - 1) as nat);
        let b = chunks_end(n, m);
        assert(bs.last() == ((1000 * (m - 1)) as usize, b as usize));
        assert(1000 * (m - 1) < n) by (nonlinear_arith)
            requires
                m <= (n + 999) / 1000,
                m >= 1,
        ;
        assert(a == 1000 * (m - 1));
        lemma_merge_append(t, rows.take(a), rows.subrange(a, b), f);
        assert(rows.take(a) + rows.subrange(a, b) =~= rows.take(b));
    }
}

/// Merging a batch chunk by chunk, in the chunks that `chunk_bounds` gives,
/// leaves the table as merging the whole batch at once: no row is lost or
/// merged twice at a chunk boundary.
pub proof fn lemma_chunked_merge_is_whole(t: ObservationTable, rows: Seq<NewObservation>, f: i32)
    requires
        rows.len() <= usize::MAX,
    ensures
        merge_chunks(t, rows, chunk_seq(rows.len()), f) == merge_rows(t, rows, f),
{
    let n = rows.len();
    let c = chunk_seq(n).len();
    lemma_chunks_prefix(t, rows, f, c);
    assert(chunk_seq(n).take(c as int) =~= chunk_seq(n));
    assert(1000 * c >= n) by (nonlinear_arith)
        requires
            c == (n + 999) / 1000,
    ;
    assert(rows.take(n as int) =~= rows);
}

/// The chunks in which a batch of `n` rows is merged (see `chunk_seq`).
pub fn chunk_bounds(n: usize) -> (r: Vec<(usize, usize)>)
    ensures
        r@ == chunk_seq(n as nat),
{
    let mut r: Vec<(usize, usize)> = Vec::new();
    let count: usize = n / BATCH_SIZE + if n % BATCH_SIZE > 0 {
        1
    } else {
        0
    };
    assert(count == (n + 999) / 1000);
    let mut k: usize = 0;
    while k < count
        invariant
            count == (n + 999) / 1000,
            k <= count,
            r@ == chunk_seq(n as nat).take(k as int),
        decreases count - k,
    {
        assert(1000 * k < n) by (nonlinear_arith)
            requires
                k < count,
                count == (n + 999) / 1000,
        ;
        let start = k * BATCH_SIZE;
        let end = if n - start > BATCH_SIZE {
            start + BATCH_SIZE
        } else {
            n
        };
        r.push((start, end));
        assert(r@ =~= chunk_seq(n as nat).take(k + 1));
        k += 1;
    }
    assert(r@ =~= chunk_seq(n as nat));
    r
}

impl InsertResult {
    /// The insert/update estimate of a merge: of `total_rows_affected` rows,
    /// as many as were already stored (`existing_before`) count as updates, the
    /// rest as inserts.
    pub fn from_counts(existing_before: usize, total_rows_affected: usize) -> (r: InsertResult)
        ensures
            r.total_rows_affected == total_rows_affected,
            r.inserted == if total_rows_affected > existing_before {
                total_rows_affected - existing_before
            } else {
                0
            },
            r.updated == if existing_before < total_rows_affected {
                existing_before
            } else {
                total_rows_affected
            },
            r.inserted + r.updated == total_rows_affected,
    {
        let inserted = if total_rows_affected > existing_before {
            total_rows_affected - existing_before
        } else {
            0
        };
        let updated = if existing_before < total_rows_affected {
            existing_before
        } else {
            total_rows_affected
        };
        InsertResult { inserted, updated, total_rows_affected }
    }
}

} // verus!
