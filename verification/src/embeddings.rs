//! Turning text into vectors. The engine never does so itself: a provider is
//! handed to whoever feeds the engine.

use vstd::prelude::*;

verus! {

/// Why no vectors came back for a text.
#[derive(Debug)]
pub enum EmbeddingError {
    NotConfigured,
    Other(String),
}

/// Something that turns each text into one vector, given as the bits of its
/// single-precision numbers.
pub trait Embedder: Send + Sync {
    fn embed(&self, texts: &[String]) -> (r: Result<Vec<Vec<u32>>, EmbeddingError>);
}

/// A provider that answers every text with the zero vector of `dim` words.
pub struct DummyEmbedder {
    pub dim: usize,
}

/// The vector of `dim` zeros. Zero has the all-zero bit pattern.
pub open spec fn zero_vector(dim: nat) -> Seq<u32> {
    Seq::new(dim, |j: int| 0u32)
}

impl Embedder for DummyEmbedder {
    fn embed(&self, texts: &[String]) -> (r: Result<Vec<Vec<u32>>, EmbeddingError>)
        ensures
            r matches Ok(vectors) && vectors@.len() == texts@.len() && (forall|i: int|
                0 <= i < vectors@.len() ==> (#[trigger] vectors@[i])@ == zero_vector(
                    self.dim as nat,
                )),
    {
        let mut vectors: Vec<Vec<u32>> = Vec::new();
        let mut i: usize = 0;
        while i < texts.len()
            invariant
                i <= texts@.len(),
                vectors@.len() == i,
                forall|k: int|
                    0 <= k < vectors@.len() ==> (#[trigger] vectors@[k])@ == zero_vector(
                        self.dim as nat,
                    ),
            decreases texts@.len() - i,
        {
            let mut zeros: Vec<u32> = Vec::new();
            let mut j: usize = 0;
            while j < self.dim
                invariant
                    j <= self.dim,
                    zeros@ == zero_vector(j as nat),
                decreases self.dim - j,
            {
                zeros.push(0u32);
                assert(zeros@ =~= zero_vector((j + 1) as nat));
                j += 1;
            }
            vectors.push(zeros);
            i += 1;
        }
        Ok(vectors)
    }
}

} // verus!
