//! The engine driven end to end: the core decides, and this file plays the
//! part of the program around it, with a real SQLite table and a real graph.

use std::path::PathBuf;

use hnsw_rs::prelude::{DistL2, Hnsw};
use rusqlite::Connection;
use self_healing_vector_db::engine::{EngineError, SearchResult};
use self_healing_vector_db::health::HealthReport;
use self_healing_vector_db::index::{IndexError, IndexPoint, MAX_LAYER};
use self_healing_vector_db::storage::{StorageError, VectorRecord};
use self_healing_vector_db::{EngineConfig, SelfHealingVectorDb};
use tempfile::tempdir;

fn bits(v: &[f32]) -> Vec<u32> {
    v.iter().map(|x| x.to_bits()).collect()
}

fn floats(v: &[u32]) -> Vec<f32> {
    v.iter().map(|w| f32::from_bits(*w)).collect()
}

fn backend(e: rusqlite::Error) -> StorageError {
    StorageError::Backend(e.to_string())
}

fn read_rows(conn: &Connection) -> Result<Vec<VectorRecord>, StorageError> {
    let mut stmt = conn
        .prepare("SELECT id, vector FROM vectors;")
        .map_err(backend)?;
    let mut rows = stmt.query([]).map_err(backend)?;
    let mut out = Vec::new();
    while let Some(row) = rows.next().map_err(backend)? {
        let id: i64 = row.get(0).map_err(backend)?;
        let blob: Vec<u8> = row.get(1).map_err(backend)?;
        out.push(VectorRecord { id, blob });
    }
    Ok(out)
}

fn write_rows(conn: &Connection, rows: &[VectorRecord]) -> Result<(), StorageError> {
    let tx = conn.unchecked_transaction().map_err(backend)?;
    {
        let mut stmt = tx
            .prepare("INSERT OR REPLACE INTO vectors (id, vector) VALUES (?1, ?2);")
            .map_err(backend)?;
        for row in rows {
            stmt.execute((row.id, &row.blob)).map_err(backend)?;
        }
    }
    tx.commit().map_err(backend)
}

struct Shell {
    core: SelfHealingVectorDb,
    conn: Connection,
    graph: Hnsw<'static, f32, DistL2>,
}

impl Shell {
    fn open(cfg: EngineConfig) -> Result<Shell, EngineError> {
        let conn = Connection::open(&cfg.storage_path)
            .map_err(|e| EngineError::Storage(backend(e)))?;
        conn.execute(
            "CREATE TABLE IF NOT EXISTS vectors (id INTEGER PRIMARY KEY, vector BLOB NOT NULL);",
            [],
        )
        .map_err(|e| EngineError::Storage(backend(e)))?;
        let rows = read_rows(&conn).map_err(EngineError::Storage)?;
        let graph = Hnsw::<f32, DistL2>::new(
            cfg.hnsw_m,
            cfg.hnsw_max_elements,
            MAX_LAYER,
            cfg.hnsw_ef_construction,
            DistL2 {},
        );
        let (core, points) = SelfHealingVectorDb::new(cfg, &rows)?;
        let shell = Shell { core, conn, graph };
        shell.insert_all(&points);
        Ok(shell)
    }

    fn insert_all(&self, points: &[IndexPoint]) {
        for p in points {
            let v = floats(&p.vector);
            self.graph.insert((&v[..], p.id));
        }
    }

    fn add_vectors(&mut self, ids: &[i64], vectors: &[f32]) -> Result<(), EngineError> {
        let staged = self.core.add_vectors(ids, &bits(vectors))?;
        let stored = write_rows(&self.conn, &staged.records);
        assert!(self
            .core
            .health()
            .size
            .checked_add(staged.points.len())
            .is_some());
        let (points, outcome) = self.core.finish_add(staged.points, stored);
        self.insert_all(&points);
        outcome
    }

    fn search(&self, query: &[f32], k: usize) -> Result<Vec<SearchResult>, EngineError> {
        match self.core.search(&bits(query), k)? {
            None => Ok(Vec::new()),
            Some(request) => {
                let found: Vec<(usize, u32)> = self
                    .graph
                    .search(query, request.k, request.ef)
                    .into_iter()
                    .map(|n| (n.d_id, n.distance.to_bits()))
                    .collect();
                Ok(SelfHealingVectorDb::search_results(&found))
            }
        }
    }

    fn health(&self) -> HealthReport {
        let report = self.core.health();
        assert_eq!(report.size, self.graph.get_nb_point());
        report
    }
}

fn config(dim: usize, db_path: PathBuf) -> EngineConfig {
    EngineConfig {
        dim,
        storage_path: db_path,
        hnsw_max_elements: 10_000,
        hnsw_m: 16,
        hnsw_ef_construction: 200,
        hnsw_ef_search: 64,
    }
}

fn make_flat_vectors(dim: usize) -> (Vec<i64>, Vec<f32>, Vec<f32>) {
    // v1: [1, 0, 0, ..., 0]
    let mut v1 = vec![0.0_f32; dim];
    v1[0] = 1.0;

    // v2: [0, 1, 0, ..., 0]
    let mut v2 = vec![0.0_f32; dim];
    v2[1] = 1.0;

    let ids = vec![1_i64, 2_i64];
    let mut flat = Vec::with_capacity(dim * 2);
    flat.extend_from_slice(&v1);
    flat.extend_from_slice(&v2);

    (ids, flat, v1)
}

#[test]
fn health_on_fresh_engine_reports_empty() {
    let dim = 384;
    let tmp_dir = tempdir().expect("tempdir");
    let db_path: PathBuf = tmp_dir.path().join("vectors.sqlite");

    let engine = Shell::open(config(dim, db_path)).expect("engine created");

    let health = engine.health();
    assert!(health.ok, "fresh engine should be healthy");
    assert_eq!(health.reason, "index-empty");
    assert_eq!(health.size, 0);
}

#[test]
fn search_on_empty_engine_returns_no_results() {
    let dim = 384;
    let tmp_dir = tempdir().expect("tempdir");
    let db_path: PathBuf = tmp_dir.path().join("vectors.sqlite");

    let engine = Shell::open(config(dim, db_path)).expect("engine created");

    let query = vec![0.0_f32; dim];
    let results = engine.search(&query, 10).expect("search should not error");
    assert!(
        results.is_empty(),
        "search on an empty index should yield no results"
    );
}

#[test]
fn basic_add_search_and_self_heal() {
    let dim = 384;
    let tmp_dir = tempdir().expect("tempdir");
    let db_path: PathBuf = tmp_dir.path().join("vectors.sqlite");

    let cfg = config(dim, db_path.clone());

    let (ids, flat, query_vec) = make_flat_vectors(dim);

    // First engine: add and search.
    let mut engine = Shell::open(cfg.clone()).expect("engine created");
    engine
        .add_vectors(&ids, &flat)
        .expect("add_vectors should succeed");

    let results = engine.search(&query_vec, 2).expect("search should succeed");
    assert!(!results.is_empty(), "expected at least one neighbor");
    assert_eq!(results[0].id, 1, "nearest neighbor should be id 1");
    assert_eq!(f32::from_bits(results[0].distance), 0.0);

    let health = engine.health();
    assert_eq!(health.size, 2, "health should report 2 vectors");
    assert_eq!(health.reason, "ok");

    // Drop engine to simulate a crash / restart.
    drop(engine);

    // New engine bootstraps from the same SQLite file (self-healing).
    let engine2 = Shell::open(cfg).expect("engine recreated");
    let health2 = engine2.health();
    assert_eq!(
        health2.size, 2,
        "recreated engine should see the same 2 vectors"
    );

    let results2 = engine2
        .search(&query_vec, 2)
        .expect("search after restart should succeed");
    assert!(
        !results2.is_empty(),
        "expected at least one neighbor after restart"
    );
    assert_eq!(
        results2[0].id, 1,
        "nearest neighbor after restart should still be id 1"
    );
}

#[test]
fn add_vectors_with_wrong_dim_fails_and_does_not_change_health() {
    let dim = 384;
    let tmp_dir = tempdir().expect("tempdir");
    let db_path: PathBuf = tmp_dir.path().join("vectors.sqlite");

    let mut engine = Shell::open(config(dim, db_path)).expect("engine created");
    let health_before = engine.health();
    assert_eq!(health_before.size, 0);

    // Build a flat vector buffer with the wrong dimension (dim - 1 per vector).
    let wrong_dim = dim - 1;
    let mut v = vec![0.0_f32; wrong_dim];
    v[0] = 1.0;
    let mut flat_wrong = Vec::new();
    flat_wrong.extend_from_slice(&v);

    let ids = vec![1_i64];
    let res = engine.add_vectors(&ids, &flat_wrong);
    assert!(
        res.is_err(),
        "adding vectors with wrong dimension should error"
    );
    assert!(matches!(
        res,
        Err(EngineError::Storage(StorageError::ShapeMismatch))
    ));

    let health_after = engine.health();
    assert_eq!(
        health_after.size, 0,
        "index size should remain 0 after failed add"
    );
    assert!(read_rows(&engine.conn).expect("rows").is_empty());
}

#[test]
fn mismatched_batch_writes_no_row() {
    let dim = 4;
    let tmp_dir = tempdir().expect("tempdir");
    let db_path: PathBuf = tmp_dir.path().join("vectors.sqlite");
    let mut engine = Shell::open(config(dim, db_path)).expect("engine created");

    engine
        .add_vectors(&[7], &[1.0, 2.0, 3.0, 4.0])
        .expect("first add");
    let before = read_rows(&engine.conn).expect("rows");
    assert_eq!(before.len(), 1);

    // Two identifiers, one vector.
    let res = engine.add_vectors(&[8, 9], &[0.0, 0.0, 0.0, 1.0]);
    assert!(matches!(
        res,
        Err(EngineError::Storage(StorageError::ShapeMismatch))
    ));
    // One identifier, one vector and a half.
    let res = engine.add_vectors(&[8], &[0.0, 0.0, 0.0, 1.0, 0.5, 0.5]);
    assert!(matches!(
        res,
        Err(EngineError::Storage(StorageError::ShapeMismatch))
    ));

    assert_eq!(read_rows(&engine.conn).expect("rows"), before);
    assert_eq!(engine.health().size, 1);
}

#[test]
fn overwrite_keeps_one_record_with_latest_vector() {
    let dim = 4;
    let tmp_dir = tempdir().expect("tempdir");
    let db_path: PathBuf = tmp_dir.path().join("vectors.sqlite");
    let cfg = config(dim, db_path);

    let mut engine = Shell::open(cfg.clone()).expect("engine created");
    engine
        .add_vectors(&[1, 2], &[1.0, 0.0, 0.0, 0.0, 0.0, 1.0, 0.0, 0.0])
        .expect("first add");
    engine
        .add_vectors(&[1], &[0.0, 0.0, 0.0, 1.0])
        .expect("second add");

    let rows = read_rows(&engine.conn).expect("rows");
    assert_eq!(rows.len(), 2);
    let one: Vec<&VectorRecord> = rows.iter().filter(|r| r.id == 1).collect();
    assert_eq!(one.len(), 1);
    assert_eq!(
        one[0].blob,
        vec![0, 0, 0, 0, 0, 0, 0, 0, 0, 0, 0, 0, 0x00, 0x00, 0x80, 0x3f]
    );
    drop(engine);

    let rebuilt = Shell::open(cfg).expect("engine recreated");
    assert_eq!(rebuilt.health().size, 2);
    let results = rebuilt
        .search(&[0.0, 0.0, 0.0, 1.0], 1)
        .expect("search should succeed");
    assert_eq!(results.len(), 1);
    assert_eq!(results[0].id, 1);
    assert_eq!(f32::from_bits(results[0].distance), 0.0);
    let results = rebuilt
        .search(&[1.0, 0.0, 0.0, 0.0], 2)
        .expect("search should succeed");
    assert_eq!(results.len(), 2);
    assert!(f32::from_bits(results[0].distance) > 0.0);
    assert!(f32::from_bits(results[0].distance) <= f32::from_bits(results[1].distance));
}

#[test]
fn query_of_wrong_length_is_refused() {
    let dim = 4;
    let tmp_dir = tempdir().expect("tempdir");
    let db_path: PathBuf = tmp_dir.path().join("vectors.sqlite");
    let mut engine = Shell::open(config(dim, db_path)).expect("engine created");
    engine
        .add_vectors(&[1], &[1.0, 0.0, 0.0, 0.0])
        .expect("add");

    let res = engine.search(&[1.0, 0.0, 0.0], 1);
    assert!(matches!(
        res,
        Err(EngineError::Index(IndexError::DimMismatch {
            expected: 4,
            got: 3
        }))
    ));
    assert_eq!(engine.health().size, 1);
}

#[test]
fn rows_of_another_length_are_passed_over_at_start() {
    let dim = 2;
    let tmp_dir = tempdir().expect("tempdir");
    let db_path: PathBuf = tmp_dir.path().join("vectors.sqlite");
    let cfg = config(dim, db_path);

    let engine = Shell::open(cfg.clone()).expect("engine created");
    write_rows(
        &engine.conn,
        &[
            VectorRecord { id: 1, blob: vec![0, 0, 128, 63, 0, 0, 0, 0] },
            VectorRecord { id: 2, blob: vec![0, 0, 128, 63] },
            VectorRecord { id: 3, blob: vec![0, 0, 0, 0, 0, 0, 128, 63, 9] },
            VectorRecord { id: 4, blob: vec![0, 0, 0, 0, 0, 0, 128, 63] },
        ],
    )
    .expect("rows written");
    drop(engine);

    let rebuilt = Shell::open(cfg).expect("engine recreated");
    assert_eq!(rebuilt.health().size, 2);
    let results = rebuilt.search(&[0.0, 1.0], 5).expect("search");
    let ids: Vec<usize> = results.iter().map(|r| r.id).collect();
    assert_eq!(ids, vec![4, 1]);
}
