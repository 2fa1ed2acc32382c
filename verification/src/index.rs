//! The approximate nearest-neighbour index, as far as the engine decides for
//! it: which vectors are accepted to the graph, how many points the graph
//! holds, and with which parameters it is asked.
//!
//! The graph itself, and every distance, is computed by the surrounding
//! program. Each vector accepted here is handed to it as an [`IndexPoint`],
//! each question as a [`SearchRequest`].

use vstd::prelude::*;

verus! {

/// The number of layers that the graph is built with.
pub const MAX_LAYER: usize = 16;

/// Why an index operation failed.
#[derive(Debug, Clone, Copy, PartialEq, Eq)]
pub enum IndexError {
    /// A vector or a query is not as long as the index's vectors are.
    DimMismatch { expected: usize, got: usize },
}

/// The parameters that an index is made with.
#[derive(Debug, Clone)]
pub struct IndexConfig {
    /// The length of every vector.
    pub dim: usize,
    /// The number of points that the graph is expected to hold: a hint for
    /// its allocation, no bound.
    pub max_elements: usize,
    /// The number of neighbours that a point keeps in each layer.
    pub m: usize,
    /// The number of candidates kept while a point is inserted.
    pub ef_construction: usize,
    /// The number of candidates kept while a query is answered.
    pub ef_search: usize,
}

/// A vector accepted to the index, to be inserted into the graph under `id`.
#[derive(Debug, Clone, PartialEq, Eq)]
pub struct IndexPoint {
    pub id: usize,
    pub vector: Vec<u32>,
}

/// A point as a mathematical value.
pub struct PointView {
    pub id: usize,
    pub vector: Seq<u32>,
}

impl View for IndexPoint {
    type V = PointView;

    open spec fn view(&self) -> PointView {
        PointView { id: self.id, vector: self.vector@ }
    }
}

/// The points of a vector of points, each as a mathematical value.
pub open spec fn points_view(points: Seq<IndexPoint>) -> Seq<PointView> {
    points.map_values(|p: IndexPoint| p@)
}

/// A question to the graph: the `k` nearest points, found with a candidate
/// list of `ef` entries in the bottom layer.
#[derive(Debug, Clone, Copy, PartialEq, Eq)]
pub struct SearchRequest {
    pub k: usize,
    pub ef: usize,
}

/// What a search decides for a query of `got` words on an index of `len`
/// points: a query of the wrong length is refused; an empty index answers
/// with no neighbour and the graph is not asked (`None`); otherwise the graph
/// is asked for `k` neighbours with a candidate list of `k` or `ef_search`
/// entries, whichever is more.
pub open spec fn search_outcome(dim: usize, ef_search: usize, len: usize, got: usize, k: usize)
    -> Result<Option<SearchRequest>, IndexError> {
    if got != dim {
        Err(IndexError::DimMismatch { expected: dim, got })
    } else if len == 0 {
        Ok(None)
    } else {
        Ok(Some(SearchRequest { k, ef: if ef_search >= k { ef_search } else { k } }))
    }
}

/// The index's side of the engine: the length of its vectors, its search
/// effort and the number of points accepted so far.
pub struct HnswIndex {
    dim: usize,
    ef_search: usize,
    len: usize,
}

impl HnswIndex {
    /// The length of every vector in the index.
    pub closed spec fn spec_dim(&self) -> usize {
        self.dim
    }

    /// The number of points accepted so far.
    pub closed spec fn spec_len(&self) -> usize {
        self.len
    }

    /// The number of candidates kept while a query is answered.
    pub closed spec fn ef_search(&self) -> usize {
        self.ef_search
    }

    /// An empty index for vectors of `cfg.dim` words.
    pub fn new(cfg: &IndexConfig) -> (r: Result<Self, IndexError>)
        ensures
            r matches Ok(index) && index.dim() == cfg.dim && index.ef_search() == cfg.ef_search
                && index.len() == 0,
    {
        Ok(HnswIndex { dim: cfg.dim, ef_search: cfg.ef_search, len: 0 })
    }

    #[verifier::when_used_as_spec(spec_dim)]
    pub fn dim(&self) -> (d: usize)
        ensures
            d == self.dim(),
    {
        self.dim
    }

    #[verifier::when_used_as_spec(spec_len)]
    pub fn len(&self) -> (n: usize)
        ensures
            n == self.len(),
    {
        self.len
    }

    pub fn is_empty(&self) -> (b: bool)
        ensures
            b == (self.len() == 0),
    {
        self.len == 0
    }

    /// Accepts one vector of `got` words: counts it if it is as long as the
    /// index's vectors are, and refuses it otherwise.
    pub(crate) fn accept(&mut self, got: usize) -> (r: Result<(), IndexError>)
        requires
            got == old(self).dim() ==> old(self).len() < usize::MAX,
        ensures
            final(self).dim() == old(self).dim(),
            final(self).ef_search() == old(self).ef_search(),
            got == old(self).dim() ==> r is Ok && final(self).len() == old(self).len() + 1,
            got != old(self).dim() ==> (r matches Err(e) && e == (IndexError::DimMismatch {
                expected: old(self).dim(),
                got,
            })) && *final(self) == *old(self),
        no_unwind
    {
        if got != self.dim {
            return Err(IndexError::DimMismatch { expected: self.dim, got });
        }
        self.len = self.len + 1;
        Ok(())
    }

    /// Accepts `vector` under `id`. A vector as long as the index's vectors are
    /// becomes one more point, returned for the graph to insert. Any other is
    /// refused and the index stays as it was.
    pub fn insert(&mut self, id: usize, vector: Vec<u32>) -> (r: Result<IndexPoint, IndexError>)
        requires
            vector@.len() == old(self).dim() ==> old(self).len() < usize::MAX,
        ensures
            final(self).dim() == old(self).dim(),
            final(self).ef_search() == old(self).ef_search(),
            vector@.len() == old(self).dim() ==> (r matches Ok(point) && point@ == (PointView {
                id,
                vector: vector@,
            })) && final(self).len() == old(self).len() + 1,
            vector@.len() != old(self).dim() ==> (r matches Err(e) && e == (IndexError::DimMismatch {
                expected: old(self).dim(),
                got: vector@.len() as usize,
            })) && *final(self) == *old(self),
    {
        match self.accept(vector.len()) {
            Ok(()) => Ok(IndexPoint { id, vector }),
            Err(e) => Err(e),
        }
    }

    /// Decides how a query for the `k` nearest points is answered.
    pub fn search(&self, query: &[u32], k: usize) -> (r: Result<Option<SearchRequest>, IndexError>)
        ensures
            r == search_outcome(self.dim(), self.ef_search(), self.len(), query@.len() as usize, k),
    {
        if query.len() != self.dim {
            return Err(IndexError::DimMismatch { expected: self.dim, got: query.len() });
        }
        if self.len == 0 {
            return Ok(None);
        }
        let ef = if self.ef_search >= k {
            self.ef_search
        } else {
            k
        };
        Ok(Some(SearchRequest { k, ef }))
    }
}

} // verus!
