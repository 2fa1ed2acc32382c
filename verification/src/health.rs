//! The health report: a summary of the index's state and of nothing else.

use crate::index::HnswIndex;
use vstd::prelude::*;

verus! {

/// What the engine reports of itself.
#[derive(Debug)]
pub struct HealthReport {
    pub ok: bool,
    pub reason: String,
    pub size: usize,
}

/// A report as a mathematical value.
pub struct HealthView {
    pub ok: bool,
    pub reason: Seq<char>,
    pub size: usize,
}

impl View for HealthReport {
    type V = HealthView;

    open spec fn view(&self) -> HealthView {
        HealthView { ok: self.ok, reason: self.reason@, size: self.size }
    }
}

/// The report on an index of `size` points. An index is healthy whatever it
/// holds; the reason tells an empty one from the others.
pub open spec fn health_of(size: usize) -> HealthView {
    if size == 0 {
        HealthView { ok: true, reason: "index-empty"@, size: 0 }
    } else {
        HealthView { ok: true, reason: "ok"@, size }
    }
}

/// Reports on `index`.
pub fn basic_index_health(index: &HnswIndex) -> (r: HealthReport)
    ensures
        r@ == health_of(index.len()),
{
    if index.is_empty() {
        return HealthReport { ok: true, reason: "index-empty".to_owned(), size: 0 };
    }
    HealthReport { ok: true, reason: "ok".to_owned(), size: index.len() }
}

} // verus!
