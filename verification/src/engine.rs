//! The engine: keeps the index a faithful view of the store, or one that is
//! strictly behind it.
//!
//! A write goes to the durable table first and to the index only once the
//! table has taken it. At start the index is rebuilt from the rows of the
//! table, whatever happened before.

use crate::codec::{lemma_decode_encode, words_of};
use crate::health::{basic_index_health, health_of, HealthReport, HealthView};
use crate::index::{
    points_view, search_outcome, HnswIndex, IndexConfig, IndexError, IndexPoint, PointView,
    SearchRequest,
};
use crate::storage::{
    batch_records, chunk, keeps, lemma_loaded_chunk, lemma_read_after_write,
    lemma_table_entry_source, loaded, loaded_ids, loaded_vectors, records_view, shape_matches,
    table_after, well_formed, RecordView, SqliteVectorStore, StorageConfig, StorageError,
    VectorRecord,
};
use std::path::PathBuf;
use vstd::prelude::*;
use vstd::slice::{slice_subrange, slice_to_vec};

verus! {

/// The parameters that an engine is made with.
#[derive(Debug, Clone)]
pub struct EngineConfig {
    pub dim: usize,
    pub storage_path: PathBuf,
    pub hnsw_max_elements: usize,
    pub hnsw_m: usize,
    pub hnsw_ef_construction: usize,
    pub hnsw_ef_search: usize,
}

/// Why an engine operation failed.
#[derive(Debug)]
pub enum EngineError {
    Index(IndexError),
    Storage(StorageError),
}

/// One neighbour of a query: its identifier and its distance to the query,
/// as the bits of a single-precision number.
#[derive(Debug, Clone, Copy, PartialEq, Eq)]
pub struct SearchResult {
    pub id: usize,
    pub distance: u32,
}

/// A write that has passed the store's test and waits for the table: the rows
/// to put there in one transaction, and the points that the index takes once
/// they are there.
#[derive(Debug)]
pub struct StagedWrite {
    pub records: Vec<VectorRecord>,
    pub points: Vec<IndexPoint>,
}

/// The identifier under which the index keeps the vector that the store keeps
/// under `id`.
pub open spec fn index_id(id: i64) -> usize {
    id as usize
}

/// The points of one write of `ids` and `vectors`: the `i`-th identifier with
/// the `i`-th vector.
pub open spec fn batch_points(ids: Seq<i64>, vectors: Seq<u32>, dim: nat) -> Seq<PointView> {
    Seq::new(ids.len(), |i: int| PointView { id: index_id(ids[i]), vector: chunk(vectors, dim, i) })
}

/// The point that stands for a row.
pub open spec fn point_of() -> spec_fn(RecordView) -> PointView {
    |r: RecordView| PointView { id: index_id(r.id), vector: words_of(r.blob) }
}

/// The points that the index is rebuilt from: one for each row of the table
/// that holds a vector of `dim` words, in the order of the rows.
pub open spec fn bootstrap_points(rows: Seq<RecordView>, dim: nat) -> Seq<PointView> {
    loaded(rows, dim).map_values(point_of())
}

/// The neighbours that the graph found, as results.
pub open spec fn results_of(found: Seq<(usize, u32)>) -> Seq<SearchResult> {
    found.map_values(|n: (usize, u32)| SearchResult { id: n.0, distance: n.1 })
}

/// Every point of a staged write is as long as the write's vectors are, so
/// the index accepts all of them once the table has taken the rows.
pub proof fn lemma_staged_points_fit(ids: Seq<i64>, vectors: Seq<u32>, dim: nat, i: int)
    requires
        shape_matches(ids.len(), vectors.len(), dim),
        0 <= i < ids.len(),
    ensures
        batch_points(ids, vectors, dim)[i].vector.len() == dim,
{
    assert(0 <= i * dim && (i + 1) * dim == i * dim + dim && (i + 1) * dim <= ids.len() * dim)
        by (nonlinear_arith)
        requires
            0 <= i < ids.len(),
    ;
}

/// Self-healing: an index rebuilt from the rows of a write holds the points
/// that the write itself gave the index, in the same order.
pub proof fn lemma_rebuild_matches_write(ids: Seq<i64>, vectors: Seq<u32>, dim: nat)
    requires
        shape_matches(ids.len(), vectors.len(), dim),
    ensures
        bootstrap_points(batch_records(ids, vectors, dim), dim) == batch_points(ids, vectors, dim),
{
    let batch = batch_records(ids, vectors, dim);
    lemma_read_after_write(ids, vectors, dim);
    assert forall|i: int| 0 <= i < ids.len() implies #[trigger] bootstrap_points(batch, dim)[i]
        == batch_points(ids, vectors, dim)[i] by {
        lemma_decode_encode(chunk(vectors, dim, i));
    }
    assert(bootstrap_points(batch, dim) =~= batch_points(ids, vectors, dim));
}

/// Self-healing: whatever rows the table holds, an index rebuilt from them
/// has the point of every row that holds a vector of `dim` words.
pub proof fn lemma_rebuild_holds_each_row(rows: Seq<RecordView>, dim: nat, i: int)
    requires
        0 <= i < rows.len(),
        well_formed(rows[i], dim),
    ensures
        bootstrap_points(rows, dim).contains(
            PointView { id: index_id(rows[i].id), vector: words_of(rows[i].blob) },
        ),
{
    let kept = loaded(rows, dim);
    rows.lemma_filter_contains(keeps(dim), i);
    let j = choose|j: int| 0 <= j < kept.len() && kept[j] == rows[i];
    assert(bootstrap_points(rows, dim)[j] == point_of()(rows[i]));
}

/// The index is a faithful view of the table: for every identifier under
/// which the table holds a vector of `dim` words, the index has that vector
/// under that identifier.
pub open spec fn faithful(points: Seq<PointView>, table: Map<i64, Seq<u8>>, dim: nat) -> bool {
    forall|id: i64| #[trigger]
        table.contains_key(id) && table[id].len() == 4 * dim ==> points.contains(
            PointView { id: index_id(id), vector: words_of(table[id]) },
        )
}

/// Self-healing: an index rebuilt from the rows of a table is a faithful view
/// of it, whatever the index held before.
pub proof fn lemma_rebuild_is_faithful(rows: Seq<RecordView>, dim: nat)
    ensures
        faithful(bootstrap_points(rows, dim), table_after(Map::empty(), rows), dim),
{
    let table = table_after(Map::empty(), rows);
    assert forall|id: i64| #[trigger]
        table.contains_key(id) && table[id].len() == 4 * dim implies bootstrap_points(
        rows,
        dim,
    ).contains(PointView { id: index_id(id), vector: words_of(table[id]) }) by {
        lemma_table_entry_source(Map::empty(), rows, id);
        let i = choose|i: int|
            0 <= i < rows.len() && (#[trigger] rows[i]).id == id && rows[i].blob == table[id];
        lemma_rebuild_holds_each_row(rows, dim, i);
    }
}

/// A write that the table took and whose points the index accepted keeps a
/// faithful index faithful.
pub proof fn lemma_write_keeps_faithful(
    points: Seq<PointView>,
    table: Map<i64, Seq<u8>>,
    ids: Seq<i64>,
    vectors: Seq<u32>,
    dim: nat,
)
    requires
        faithful(points, table, dim),
        shape_matches(ids.len(), vectors.len(), dim),
    ensures
        faithful(
            points + batch_points(ids, vectors, dim),
            table_after(table, batch_records(ids, vectors, dim)),
            dim,
        ),
{
    let rows = batch_records(ids, vectors, dim);
    let added = batch_points(ids, vectors, dim);
    let after = table_after(table, rows);
    assert forall|id: i64| #[trigger]
        after.contains_key(id) && after[id].len() == 4 * dim implies (points + added).contains(
        PointView { id: index_id(id), vector: words_of(after[id]) },
    ) by {
        let want = PointView { id: index_id(id), vector: words_of(after[id]) };
        lemma_table_entry_source(table, rows, id);
        if exists|i: int|
            0 <= i < rows.len() && (#[trigger] rows[i]).id == id && rows[i].blob == after[id] {
            let i = choose|i: int|
                0 <= i < rows.len() && (#[trigger] rows[i]).id == id && rows[i].blob == after[id];
            lemma_decode_encode(chunk(vectors, dim, i));
            assert(added[i] == want);
            assert((points + added)[points.len() + i] == want);
        } else {
            assert(table.contains_key(id));
            let j = choose|j: int| 0 <= j < points.len() && points[j] == want;
            assert((points + added)[j] == want);
        }
    }
}

/// An engine over an empty table: its index has no point, its report says
/// so, and every query of the right length is answered with no neighbour.
pub proof fn lemma_empty_table_gives_empty_engine(dim: usize, ef_search: usize, k: usize)
    ensures
        bootstrap_points(Seq::<RecordView>::empty(), dim as nat).len() == 0,
        health_of(0) == (HealthView { ok: true, reason: "index-empty"@, size: 0 }),
        search_outcome(dim, ef_search, 0, dim, k) == Ok::<Option<SearchRequest>, IndexError>(None),
{
    assert(loaded(Seq::<RecordView>::empty(), dim as nat) =~= Seq::<RecordView>::empty()) by {
        reveal(Seq::filter);
    }
}

/// The engine's state: the store's and the index's side of it.
pub struct SelfHealingVectorDb {
    index: HnswIndex,
    store: SqliteVectorStore,
}

impl SelfHealingVectorDb {
    #[verifier::type_invariant]
    spec fn same_dim(self) -> bool {
        self.index.dim() == self.store.dim()
    }

    /// The length of every vector that the engine takes.
    pub closed spec fn dim(&self) -> usize {
        self.index.dim()
    }

    /// The number of points in the index.
    pub closed spec fn len(&self) -> usize {
        self.index.len()
    }

    /// The number of candidates kept while a query is answered.
    pub closed spec fn ef_search(&self) -> usize {
        self.index.ef_search()
    }

    /// An engine whose index is rebuilt from `persisted`, the rows that the
    /// table holds. Every row that holds a vector of `cfg.dim` words becomes a
    /// point of the index, in the order of the rows; the points are returned
    /// for the graph to insert.
    pub fn new(cfg: EngineConfig, persisted: &[VectorRecord]) -> (r: Result<
        (Self, Vec<IndexPoint>),
        EngineError,
    >)
        ensures
            r matches Ok((db, points)) && db.dim() == cfg.dim && db.ef_search()
                == cfg.hnsw_ef_search && db.len() == points@.len() && points_view(points@)
                == bootstrap_points(records_view(persisted@), cfg.dim as nat),
    {
        let dim = cfg.dim;
        let store = match SqliteVectorStore::new(&StorageConfig { path: cfg.storage_path, dim }) {
            Ok(store) => store,
            Err(e) => {
                return Err(EngineError::Storage(e));
            },
        };
        let mut index = match HnswIndex::new(
            &IndexConfig {
                dim,
                max_elements: cfg.hnsw_max_elements,
                m: cfg.hnsw_m,
                ef_construction: cfg.hnsw_ef_construction,
                ef_search: cfg.hnsw_ef_search,
            },
        ) {
            Ok(index) => index,
            Err(e) => {
                return Err(EngineError::Index(e));
            },
        };
        let (ids, vectors) = match store.load_all(persisted) {
            Ok(loaded) => loaded,
            Err(e) => {
                return Err(EngineError::Storage(e));
            },
        };
        let ghost rows = records_view(persisted@);
        let ghost want = bootstrap_points(rows, dim as nat);
        let n = ids.len();
        let total = vectors.len();
        let mut points: Vec<IndexPoint> = Vec::new();
        let mut i: usize = 0;
        let mut at: usize = 0;
        while i < n
            invariant
                n == ids@.len(),
                total == vectors@.len(),
                ids@ == loaded_ids(rows, dim as nat),
                vectors@ == loaded_vectors(rows, dim as nat),
                vectors@.len() == n * (dim as nat),
                want == bootstrap_points(rows, dim as nat),
                i <= n,
                at == i * (dim as nat),
                index.dim() == dim,
                index.ef_search() == cfg.hnsw_ef_search,
                index.len() == i,
                points_view(points@) == want.take(i as int),
            decreases n - i,
        {
            assert((i + 1) * (dim as nat) == at + dim && at + dim <= n * (dim as nat))
                by (nonlinear_arith)
                requires
                    i < n,
                    at == i * (dim as nat),
            ;
            assert(ids@.len() == loaded(rows, dim as nat).len());
            proof {
                lemma_loaded_chunk(rows, dim as nat, i as int);
            }
            let vector = slice_to_vec(slice_subrange(vectors.as_slice(), at, at + dim));
            let ghost before = points_view(points@);
            match index.insert(#[verifier::truncate] (ids[i] as usize), vector) {
                Ok(point) => {
                    assert(point@ == want[i as int]);
                    points.push(point);
                },
                Err(e) => {
                    return Err(EngineError::Index(e));
                },
            }
            assert(points_view(points@) =~= before.push(want[i as int]));
            assert(want.take(i + 1) =~= want.take(i as int).push(want[i as int]));
            i += 1;
            at += dim;
        }
        assert(want.take(n as int) =~= want);
        Ok((SelfHealingVectorDb { index, store }, points))
    }

    /// Stages one write. The write is refused, and nothing is staged, unless
    /// `vectors` holds exactly one vector of `dim` words for each identifier.
    /// The engine itself does not change before the table has taken the rows.
    pub fn add_vectors(&self, ids: &[i64], vectors: &[u32]) -> (r: Result<StagedWrite, EngineError>)
        ensures
            shape_matches(ids@.len(), vectors@.len(), self.dim() as nat) ==> (r matches Ok(staged)
                && records_view(staged.records@) == batch_records(
                ids@,
                vectors@,
                self.dim() as nat,
            ) && points_view(staged.points@) == batch_points(ids@, vectors@, self.dim() as nat)),
            !shape_matches(ids@.len(), vectors@.len(), self.dim() as nat) ==> r matches Err(
                EngineError::Storage(StorageError::ShapeMismatch),
            ),
    {
        proof {
            use_type_invariant(self);
        }
        let records = match self.store.add(ids, vectors) {
            Ok(records) => records,
            Err(e) => {
                return Err(EngineError::Storage(e));
            },
        };
        let dim = self.index.dim();
        let n = ids.len();
        let total = vectors.len();
        let ghost want = batch_points(ids@, vectors@, dim as nat);
        let mut points: Vec<IndexPoint> = Vec::new();
        let mut i: usize = 0;
        let mut at: usize = 0;
        while i < n
            invariant
                n == ids@.len(),
                total == vectors@.len(),
                vectors@.len() == ids@.len() * (dim as nat),
                want == batch_points(ids@, vectors@, dim as nat),
                i <= n,
                at == i * (dim as nat),
                points_view(points@) == want.take(i as int),
            decreases n - i,
        {
            assert((i + 1) * (dim as nat) == at + dim && at + dim <= ids@.len() * (dim as nat))
                by (nonlinear_arith)
                requires
                    i < n,
                    n == ids@.len(),
                    at == i * (dim as nat),
            ;
            let vector = slice_to_vec(slice_subrange(vectors, at, at + dim));
            let ghost before = points_view(points@);
            let point = IndexPoint { id: #[verifier::truncate] (ids[i] as usize), vector };
            assert(point@ == want[i as int]);
            points.push(point);
            assert(points_view(points@) =~= before.push(want[i as int]));
            assert(want.take(i + 1) =~= want.take(i as int).push(want[i as int]));
            i += 1;
            at += dim;
        }
        assert(want.take(n as int) =~= want);
        Ok(StagedWrite { records, points })
    }

    /// Takes the points of a staged write into the index, given what became
    /// of its rows. If the table refused the rows, the index stays as it was
    /// and the table's error is returned. If the table took them, the points
    /// are accepted in order up to the first that is not `dim` words long:
    /// those accepted are returned for the graph to insert, and the first
    /// refusal, if there was one, is the outcome.
    pub fn finish_add(&mut self, points: Vec<IndexPoint>, stored: Result<(), StorageError>) -> (r: (
        Vec<IndexPoint>,
        Result<(), EngineError>,
    ))
        requires
            old(self).len() + points@.len() <= usize::MAX,
        ensures
            final(self).dim() == old(self).dim(),
            final(self).ef_search() == old(self).ef_search(),
            final(self).len() == old(self).len() + r.0@.len(),
            stored matches Err(e) ==> r.0@.len() == 0 && r.1 == Err::<(), EngineError>(
                EngineError::Storage(e),
            ),
            stored is Ok ==> r.0@.len() <= points@.len() && r.0@ == points@.take(
                r.0@.len() as int,
            ) && (forall|i: int|
                0 <= i < r.0@.len() ==> (#[trigger] points@[i]).vector@.len() == old(self).dim()),
            stored is Ok && r.0@.len() == points@.len() ==> r.1 is Ok,
            stored is Ok && r.0@.len() < points@.len() ==> (r.1 matches Err(
                EngineError::Index(IndexError::DimMismatch { expected, got }),
            ) && expected == old(self).dim() && got == points@[r.0@.len() as int].vector@.len()
                && got != expected),
    {
        proof {
            use_type_invariant(&*self);
        }
        match stored {
            Err(e) => (Vec::new(), Err(EngineError::Storage(e))),
            Ok(()) => {
                let mut points = points;
                let ghost given = points@;
                let n = points.len();
                let mut taken: usize = 0;
                let mut outcome: Result<(), EngineError> = Ok(());
                while taken < n && outcome.is_ok()
                    invariant
                        points@ == given,
                        n == given.len(),
                        taken <= n,
                        old(self).len() + n <= usize::MAX,
                        self.index.dim() == old(self).index.dim(),
                        self.index.ef_search() == old(self).index.ef_search(),
                        self.store == old(self).store,
                        old(self).index.dim() == old(self).store.dim(),
                        self.index.len() == old(self).index.len() + taken,
                        forall|i: int|
                            0 <= i < taken ==> (#[trigger] given[i]).vector@.len() == old(
                                self,
                            ).index.dim(),
                        outcome is Err ==> taken < n && (outcome matches Err(
                            EngineError::Index(IndexError::DimMismatch { expected, got }),
                        ) && expected == old(self).index.dim() && got == given[taken as int].vector@.len()
                            && got != expected),
                    decreases n - taken + (if outcome is Ok { 1int } else { 0int }),
                {
                    match self.index.accept(points[taken].vector.len()) {
                        Ok(()) => {
                            taken += 1;
                        },
                        Err(e) => {
                            outcome = Err(EngineError::Index(e));
                        },
                    }
                }
                points.truncate(taken);
                (points, outcome)
            },
        }
    }

    /// Decides how a query for the `k` nearest vectors is answered: see
    /// [`search_outcome`]. The store is not consulted.
    pub fn search(&self, query: &[u32], k: usize) -> (r: Result<Option<SearchRequest>, EngineError>)
        ensures
            search_outcome(self.dim(), self.ef_search(), self.len(), query@.len() as usize, k)
                matches Ok(plan) ==> r == Ok::<Option<SearchRequest>, EngineError>(plan),
            search_outcome(self.dim(), self.ef_search(), self.len(), query@.len() as usize, k)
                matches Err(e) ==> r == Err::<Option<SearchRequest>, EngineError>(
                EngineError::Index(e),
            ),
    {
        match self.index.search(query, k) {
            Ok(plan) => Ok(plan),
            Err(e) => Err(EngineError::Index(e)),
        }
    }

    /// The answer to a query: the neighbours that the graph found, in the
    /// order in which it gave them.
    pub fn search_results(found: &[(usize, u32)]) -> (results: Vec<SearchResult>)
        ensures
            results@ == results_of(found@),
    {
        let mut results: Vec<SearchResult> = Vec::new();
        let mut i: usize = 0;
        while i < found.len()
            invariant
                i <= found@.len(),
                results@ == results_of(found@).take(i as int),
            decreases found@.len() - i,
        {
            results.push(SearchResult { id: found[i].0, distance: found[i].1 });
            assert(results@ =~= results_of(found@).take(i + 1));
            i += 1;
        }
        assert(results_of(found@).take(i as int) =~= results_of(found@));
        results
    }

    /// Reports on the index. Neither the store nor the index changes.
    pub fn health(&self) -> (r: HealthReport)
        ensures
            r@ == health_of(self.len()),
    {
        basic_index_health(&self.index)
    }
}

} // verus!
