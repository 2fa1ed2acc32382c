//! The vector store: one durable table that maps an identifier to the blob of
//! a vector of fixed length.
//!
//! The table itself is kept by the surrounding program. This module fixes what
//! a write hands to it and what a read makes of the rows that come back, and
//! models the table as a map to say what a sequence of writes leaves behind.

use crate::codec::{blob_of, decode_blob, encode_vector, lemma_decode_encode, words_of};
use std::path::PathBuf;
use vstd::prelude::*;
use vstd::slice::slice_subrange;

verus! {

/// `std::path::PathBuf`, carried through as an opaque value.
#[verifier::external_type_specification]
#[verifier::external_body]
pub struct ExPathBuf(PathBuf);

/// `PathBuf::clone`: the copy is the same path.
pub assume_specification[ <PathBuf as Clone>::clone ](path: &PathBuf) -> (copy: PathBuf)
    ensures
        copy == *path,
;

/// Where the table lives and how long every vector in it is.
#[derive(Debug, Clone)]
pub struct StorageConfig {
    pub path: PathBuf,
    pub dim: usize,
}

/// Why a store operation failed.
#[derive(Debug)]
pub enum StorageError {
    /// The flat buffer does not hold exactly one vector for each identifier.
    ShapeMismatch,
    /// The durable table could not be read or written.
    Backend(String),
}

/// One row of the table.
#[derive(Debug, Clone, PartialEq, Eq)]
pub struct VectorRecord {
    pub id: i64,
    pub blob: Vec<u8>,
}

/// A row as a mathematical value.
pub struct RecordView {
    pub id: i64,
    pub blob: Seq<u8>,
}

impl View for VectorRecord {
    type V = RecordView;

    open spec fn view(&self) -> RecordView {
        RecordView { id: self.id, blob: self.blob@ }
    }
}

/// The rows of a vector of records, each as a mathematical value.
pub open spec fn records_view(rows: Seq<VectorRecord>) -> Seq<RecordView> {
    rows.map_values(|r: VectorRecord| r@)
}

/// A flat buffer of `values` words holds exactly `ids` vectors of `dim` words.
pub open spec fn shape_matches(ids: nat, values: nat, dim: nat) -> bool {
    values == ids * dim
}

/// The `i`-th vector of a flat buffer of vectors of `dim` words.
pub open spec fn chunk(vectors: Seq<u32>, dim: nat, i: int) -> Seq<u32> {
    vectors.subrange(i * dim, (i + 1) * dim)
}

/// The rows that one write of `ids` and `vectors` hands to the table: the
/// `i`-th identifier with the blob of the `i`-th vector.
pub open spec fn batch_records(ids: Seq<i64>, vectors: Seq<u32>, dim: nat) -> Seq<RecordView> {
    Seq::new(ids.len(), |i: int| RecordView { id: ids[i], blob: blob_of(chunk(vectors, dim, i)) })
}

/// A row holds a vector of `dim` words.
pub open spec fn well_formed(r: RecordView, dim: nat) -> bool {
    r.blob.len() == 4 * dim
}

/// The test that a read applies to every row.
pub open spec fn keeps(dim: nat) -> spec_fn(RecordView) -> bool {
    |r: RecordView| well_formed(r, dim)
}

/// The identifier of a row.
pub open spec fn id_of() -> spec_fn(RecordView) -> i64 {
    |r: RecordView| r.id
}

/// The vector that a row stores.
pub open spec fn vector_of() -> spec_fn(RecordView) -> Seq<u32> {
    |r: RecordView| words_of(r.blob)
}

/// The rows that a read keeps: those that hold a vector of `dim` words, in the
/// order in which the table gave them.
pub open spec fn loaded(rows: Seq<RecordView>, dim: nat) -> Seq<RecordView> {
    rows.filter(keeps(dim))
}

/// The identifiers that a read returns.
pub open spec fn loaded_ids(rows: Seq<RecordView>, dim: nat) -> Seq<i64> {
    loaded(rows, dim).map_values(id_of())
}

/// The flat buffer that a read returns: the vectors of the kept rows, one
/// after the other.
pub open spec fn loaded_vectors(rows: Seq<RecordView>, dim: nat) -> Seq<u32> {
    loaded(rows, dim).map_values(vector_of()).flatten()
}

/// The table after `rows` were written to it in order: each row replaces
/// whatever the table held under its identifier.
pub open spec fn table_after(table: Map<i64, Seq<u8>>, rows: Seq<RecordView>) -> Map<i64, Seq<u8>>
    decreases rows.len(),
{
    if rows.len() == 0 {
        table
    } else {
        table_after(table, rows.drop_last()).insert(rows.last().id, rows.last().blob)
    }
}

/// What a read makes of one more row.
pub proof fn lemma_loaded_push(rows: Seq<RecordView>, r: RecordView, dim: nat)
    ensures
        loaded(rows.push(r), dim) == if well_formed(r, dim) {
            loaded(rows, dim).push(r)
        } else {
            loaded(rows, dim)
        },
        loaded_ids(rows.push(r), dim) == if well_formed(r, dim) {
            loaded_ids(rows, dim).push(r.id)
        } else {
            loaded_ids(rows, dim)
        },
        loaded_vectors(rows.push(r), dim) == if well_formed(r, dim) {
            loaded_vectors(rows, dim) + words_of(r.blob)
        } else {
            loaded_vectors(rows, dim)
        },
{
    rows.lemma_filter_push(r, keeps(dim));
    if well_formed(r, dim) {
        let kept = loaded(rows, dim);
        kept.lemma_push_map_commute(id_of(), r);
        kept.lemma_push_map_commute(vector_of(), r);
        kept.map_values(vector_of()).lemma_flatten_push(words_of(r.blob));
    }
}

/// A read returns exactly one vector of `dim` words for each identifier.
pub proof fn lemma_loaded_shape(rows: Seq<RecordView>, dim: nat)
    ensures
        shape_matches(loaded_ids(rows, dim).len(), loaded_vectors(rows, dim).len(), dim),
    decreases rows.len(),
{
    if rows.len() == 0 {
        assert(loaded(rows, dim) =~= Seq::<RecordView>::empty()) by {
            reveal(Seq::filter);
        }
        assert(loaded_vectors(rows, dim) =~= Seq::<u32>::empty());
        assert(loaded_ids(rows, dim) =~= Seq::<i64>::empty());
    } else {
        let front = rows.drop_last();
        let r = rows.last();
        assert(rows =~= front.push(r));
        lemma_loaded_shape(front, dim);
        lemma_loaded_push(front, r, dim);
        let n = loaded_ids(front, dim).len();
        assert((n + 1) * dim == n * dim + dim) by (nonlinear_arith);
    }
}

/// In what a read returns, the `i`-th vector of the flat buffer is the vector
/// of the `i`-th kept row.
pub proof fn lemma_loaded_chunk(rows: Seq<RecordView>, dim: nat, i: int)
    requires
        0 <= i < loaded(rows, dim).len(),
    ensures
        loaded_ids(rows, dim)[i] == loaded(rows, dim)[i].id,
        chunk(loaded_vectors(rows, dim), dim, i) == words_of(loaded(rows, dim)[i].blob),
        well_formed(loaded(rows, dim)[i], dim),
    decreases rows.len(),
{
    if rows.len() == 0 {
        assert(loaded(rows, dim) =~= Seq::<RecordView>::empty()) by {
            reveal(Seq::filter);
        }
    } else {
        let front = rows.drop_last();
        let r = rows.last();
        assert(rows =~= front.push(r));
        lemma_loaded_push(front, r, dim);
        lemma_loaded_shape(front, dim);
        let n = loaded(front, dim).len() as int;
        let flat = loaded_vectors(front, dim);
        assert(flat.len() == n * dim);
        if i < n {
            lemma_loaded_chunk(front, dim, i);
            assert((i + 1) * dim <= n * dim && 0 <= i * dim <= (i + 1) * dim) by (nonlinear_arith)
                requires
                    0 <= i < n,
            ;
            if well_formed(r, dim) {
                assert(chunk(flat + words_of(r.blob), dim, i) =~= chunk(flat, dim, i));
            }
        } else {
            assert((n + 1) * dim == n * dim + dim) by (nonlinear_arith);
            assert(words_of(r.blob).len() == dim);
            assert(chunk(flat + words_of(r.blob), dim, n) =~= words_of(r.blob));
        }
    }
}

/// Reading back the rows of one write returns what was written: the same
/// identifiers in the same order, and the same flat buffer.
pub proof fn lemma_read_after_write(ids: Seq<i64>, vectors: Seq<u32>, dim: nat)
    requires
        shape_matches(ids.len(), vectors.len(), dim),
    ensures
        loaded(batch_records(ids, vectors, dim), dim) == batch_records(ids, vectors, dim),
        loaded_ids(batch_records(ids, vectors, dim), dim) == ids,
        loaded_vectors(batch_records(ids, vectors, dim), dim) == vectors,
{
    let batch = batch_records(ids, vectors, dim);
    lemma_read_after_write_prefix(ids, vectors, dim, ids.len());
    assert(batch.take(ids.len() as int) =~= batch);
    assert(ids.take(ids.len() as int) =~= ids);
    assert(vectors.take(vectors.len() as int) =~= vectors);
}

/// The first `k` vectors of a flat buffer are the first `k - 1` and then the
/// one at `k - 1`.
proof fn lemma_take_chunks(vectors: Seq<u32>, dim: nat, k: nat)
    requires
        0 < k,
        k * dim <= vectors.len(),
    ensures
        (k - 1) * dim <= k * dim,
        chunk(vectors, dim, k - 1).len() == dim,
        vectors.take((k * dim) as int) == vectors.take(((k - 1) * dim) as int) + chunk(
            vectors,
            dim,
            k - 1,
        ),
{
    let lo = (k - 1) * dim;
    let hi = k * dim;
    assert(hi == lo + dim && 0 <= lo && (k - 1 + 1) * dim == hi) by (nonlinear_arith)
        requires
            0 < k,
            lo == (k - 1) * dim,
            hi == k * dim,
    ;
    assert(vectors.take(hi as int) =~= vectors.take(lo) + vectors.subrange(lo, hi as int));
}

proof fn lemma_read_after_write_prefix(ids: Seq<i64>, vectors: Seq<u32>, dim: nat, k: nat)
    requires
        shape_matches(ids.len(), vectors.len(), dim),
        k <= ids.len(),
    ensures
        k * dim <= vectors.len(),
        loaded(batch_records(ids, vectors, dim).take(k as int), dim) == batch_records(
            ids,
            vectors,
            dim,
        ).take(k as int),
        loaded_ids(batch_records(ids, vectors, dim).take(k as int), dim) == ids.take(k as int),
        loaded_vectors(batch_records(ids, vectors, dim).take(k as int), dim) == vectors.take(
            (k * dim) as int,
        ),
    decreases k,
{
    let batch = batch_records(ids, vectors, dim);
    assert(k * dim <= ids.len() * dim) by (nonlinear_arith)
        requires
            k <= ids.len(),
    ;
    if k == 0 {
        assert(loaded(batch.take(0), dim) =~= Seq::<RecordView>::empty()) by {
            reveal(Seq::filter);
        }
        lemma_loaded_shape(batch.take(0), dim);
        assert(loaded(batch.take(0), dim) =~= batch.take(0));
        assert(loaded_ids(batch.take(0), dim) =~= ids.take(0));
        assert(loaded_vectors(batch.take(0), dim) =~= vectors.take(0));
    } else {
        let j = (k - 1) as nat;
        lemma_read_after_write_prefix(ids, vectors, dim, j);
        lemma_take_chunks(vectors, dim, k);
        let r = batch[j as int];
        let c = chunk(vectors, dim, j as int);
        assert(r == RecordView { id: ids[j as int], blob: blob_of(c) });
        assert(words_of(r.blob) == c && well_formed(r, dim)) by {
            lemma_decode_encode(c);
        }
        assert(batch.take(k as int) =~= batch.take(j as int).push(r));
        lemma_loaded_push(batch.take(j as int), r, dim);
        assert(ids.take(k as int) =~= ids.take(j as int).push(ids[j as int]));
    }
}

/// Two writes in a row leave what one write of both batches leaves.
pub proof fn lemma_table_after_concat(
    table: Map<i64, Seq<u8>>,
    first: Seq<RecordView>,
    second: Seq<RecordView>,
)
    ensures
        table_after(table_after(table, first), second) == table_after(table, first + second),
    decreases second.len(),
{
    if second.len() == 0 {
        assert(first + second =~= first);
    } else {
        lemma_table_after_concat(table, first, second.drop_last());
        assert((first + second).drop_last() =~= first + second.drop_last());
    }
}

/// After a write, the table holds the blob of a row under the row's
/// identifier, unless a later row of the write has the same identifier.
pub proof fn lemma_last_write_wins(table: Map<i64, Seq<u8>>, rows: Seq<RecordView>, i: int)
    requires
        0 <= i < rows.len(),
        forall|j: int| i < j < rows.len() ==> rows[j].id != rows[i].id,
    ensures
        table_after(table, rows).contains_key(rows[i].id),
        table_after(table, rows)[rows[i].id] == rows[i].blob,
    decreases rows.len(),
{
    if i < rows.len() - 1 {
        let front = rows.drop_last();
        assert(front[i] == rows[i]);
        assert(rows.last().id != rows[i].id);
        assert forall|j: int| i < j < front.len() implies front[j].id != front[i].id by {
            assert(front[j] == rows[j]);
        }
        lemma_last_write_wins(table, front, i);
    }
}

/// A write leaves alone every identifier that none of its rows has.
pub proof fn lemma_write_keeps_others(table: Map<i64, Seq<u8>>, rows: Seq<RecordView>, id: i64)
    requires
        forall|i: int| 0 <= i < rows.len() ==> rows[i].id != id,
    ensures
        table_after(table, rows).contains_key(id) == table.contains_key(id),
        table_after(table, rows)[id] == table[id],
    decreases rows.len(),
{
    if rows.len() > 0 {
        let front = rows.drop_last();
        assert(rows.last().id != id);
        assert forall|i: int| 0 <= i < front.len() implies front[i].id != id by {
            assert(front[i] == rows[i]);
        }
        lemma_write_keeps_others(table, front, id);
    }
}

/// Whatever the table holds under an identifier after a write was put there
/// by a row of the write, or was there before and no row replaced it.
pub proof fn lemma_table_entry_source(table: Map<i64, Seq<u8>>, rows: Seq<RecordView>, id: i64)
    requires
        table_after(table, rows).contains_key(id),
    ensures
        (exists|i: int|
            0 <= i < rows.len() && (#[trigger] rows[i]).id == id && rows[i].blob == table_after(
                table,
                rows,
            )[id]) || (table.contains_key(id) && table_after(table, rows)[id] == table[id]),
    decreases rows.len(),
{
    if rows.len() > 0 {
        let front = rows.drop_last();
        let last = rows.len() - 1;
        if rows[last].id == id {
            assert(rows[last].blob == table_after(table, rows)[id]);
        } else {
            lemma_table_entry_source(table, front, id);
            if exists|i: int|
                0 <= i < front.len() && (#[trigger] front[i]).id == id && front[i].blob
                    == table_after(table, front)[id] {
                let i = choose|i: int|
                    0 <= i < front.len() && (#[trigger] front[i]).id == id && front[i].blob
                        == table_after(table, front)[id];
                assert(rows[i] == front[i]);
            }
        }
    }
}

/// Writing a vector under an identifier, then another under the same
/// identifier, leaves one record for it, with the blob of the second vector;
/// the table is otherwise as it was.
pub proof fn lemma_overwrite_keeps_latest(
    table: Map<i64, Seq<u8>>,
    dim: nat,
    id: i64,
    first: Seq<u32>,
    second: Seq<u32>,
)
    requires
        first.len() == dim,
        second.len() == dim,
    ensures
        table_after(
            table_after(table, batch_records(seq![id], first, dim)),
            batch_records(seq![id], second, dim),
        ) == table.insert(id, blob_of(second)),
        words_of(table.insert(id, blob_of(second))[id]) == second,
{
    lemma_single_write(table, dim, id, first);
    lemma_single_write(table.insert(id, blob_of(first)), dim, id, second);
    assert(table.insert(id, blob_of(first)).insert(id, blob_of(second)) =~= table.insert(
        id,
        blob_of(second),
    ));
    lemma_decode_encode(second);
}

/// Writing one vector puts its blob under its identifier.
pub proof fn lemma_single_write(table: Map<i64, Seq<u8>>, dim: nat, id: i64, vector: Seq<u32>)
    requires
        vector.len() == dim,
    ensures
        table_after(table, batch_records(seq![id], vector, dim)) == table.insert(
            id,
            blob_of(vector),
        ),
{
    let rows = batch_records(seq![id], vector, dim);
    assert(chunk(vector, dim, 0) =~= vector);
    assert(rows.len() == 1);
    assert(rows.last() == RecordView { id, blob: blob_of(vector) });
    assert(rows.drop_last().len() == 0);
    assert(table_after(table, rows.drop_last()) == table);
}

/// The store's side of the engine: the length of every vector in the table.
pub struct SqliteVectorStore {
    dim: usize,
}

impl SqliteVectorStore {
    /// The length of every vector in the table.
    pub closed spec fn dim(&self) -> usize {
        self.dim
    }

    /// A store for vectors of `cfg.dim` words.
    pub fn new(cfg: &StorageConfig) -> (r: Result<Self, StorageError>)
        ensures
            r matches Ok(store) && store.dim() == cfg.dim,
    {
        Ok(SqliteVectorStore { dim: cfg.dim })
    }

    /// The rows of one write, to be put into the table all together or not at
    /// all. The write is refused, and no row is made, unless `vectors` holds
    /// exactly one vector of `dim` words for each identifier.
    pub fn add(&self, ids: &[i64], vectors: &[u32]) -> (r: Result<Vec<VectorRecord>, StorageError>)
        ensures
            shape_matches(ids@.len(), vectors@.len(), self.dim() as nat) ==> (r matches Ok(rows)
                && records_view(rows@) == batch_records(ids@, vectors@, self.dim() as nat)),
            !shape_matches(ids@.len(), vectors@.len(), self.dim() as nat) ==> r matches Err(
                StorageError::ShapeMismatch,
            ),
    {
        let dim = self.dim;
        let n = ids.len();
        let ghost want: nat = ids@.len() * (dim as nat);
        assert(n * dim == want) by (nonlinear_arith)
            requires
                n == ids@.len(),
                want == ids@.len() * (dim as nat),
        ;
        let given = vectors.len();
        let fits = match n.checked_mul(dim) {
            Some(total) => total == given,
            None => false,
        };
        if !fits {
            return Err(StorageError::ShapeMismatch);
        }
        let mut rows: Vec<VectorRecord> = Vec::new();
        let mut i: usize = 0;
        let mut at: usize = 0;
        while i < n
            invariant
                n == ids@.len(),
                vectors@.len() == want,
                want == ids@.len() * (dim as nat),
                want <= usize::MAX,
                i <= n,
                at == i * (dim as nat),
                records_view(rows@) == batch_records(ids@, vectors@, dim as nat).take(i as int),
            decreases n - i,
        {
            assert((i + 1) * (dim as nat) == at + dim && at + dim <= want) by (nonlinear_arith)
                requires
                    i < n,
                    n == ids@.len(),
                    at == i * (dim as nat),
                    want == ids@.len() * (dim as nat),
            ;
            let blob = encode_vector(slice_subrange(vectors, at, at + dim));
            let ghost before = records_view(rows@);
            let row = VectorRecord { id: ids[i], blob };
            let ghost batch = batch_records(ids@, vectors@, dim as nat);
            assert(row@ == batch[i as int]);
            rows.push(row);
            assert(records_view(rows@) =~= before.push(batch[i as int]));
            assert(batch.take(i + 1) =~= batch.take(i as int).push(batch[i as int]));
            i += 1;
            at += dim;
        }
        assert(records_view(rows@) =~= batch_records(ids@, vectors@, dim as nat));
        Ok(rows)
    }

    /// What a read returns for the rows that the table gave: the identifiers
    /// and, flat, the vectors of the rows that hold a vector of `dim` words.
    /// Every other row is passed over.
    pub fn load_all(&self, rows: &[VectorRecord]) -> (r: Result<(Vec<i64>, Vec<u32>), StorageError>)
        ensures
            r matches Ok((ids, vectors)) && ids@ == loaded_ids(
                records_view(rows@),
                self.dim() as nat,
            ) && vectors@ == loaded_vectors(records_view(rows@), self.dim() as nat)
                && shape_matches(ids@.len(), vectors@.len(), self.dim() as nat),
    {
        let dim = self.dim;
        let ghost all = records_view(rows@);
        let mut ids: Vec<i64> = Vec::new();
        let mut vectors: Vec<u32> = Vec::new();
        let mut i: usize = 0;
        proof {
            lemma_loaded_shape(all.take(0), dim as nat);
            assert(loaded_ids(all.take(0), dim as nat).len() == 0);
        }
        while i < rows.len()
            invariant
                all == records_view(rows@),
                i <= rows@.len(),
                ids@ == loaded_ids(all.take(i as int), dim as nat),
                vectors@ == loaded_vectors(all.take(i as int), dim as nat),
            decreases rows@.len() - i,
        {
            proof {
                assert(all.take(i + 1) =~= all.take(i as int).push(rows@[i as int]@));
                lemma_loaded_push(all.take(i as int), rows@[i as int]@, dim as nat);
            }
            match decode_blob(rows[i].blob.as_slice(), dim) {
                Some(v) => {
                    ids.push(rows[i].id);
                    vectors.extend_from_slice(v.as_slice());
                },
                None => {},
            }
            i += 1;
        }
        proof {
            assert(all.take(i as int) =~= all);
            lemma_loaded_shape(all, dim as nat);
        }
        Ok((ids, vectors))
    }
}

} // verus!
