//! Context distillation for retrieval-augmented generation: given a query and
//! a ranked bag of retrieved text fragments, produce a compact, deduplicated,
//! budget-constrained context string together with compression statistics.

pub mod chars;
pub mod catalogs;
pub mod compress;
pub mod dedup;
pub mod distill;
pub mod rank;
pub mod session;
pub mod score;
pub mod text;
pub mod trim;
pub mod words;

use vstd::prelude::*;

verus! {

/// Picks the generative model name: an explicit override wins, then the
/// configured name, then the built-in fallback.
pub fn active_model_name(model_override: Option<&str>, configured: Option<&str>) -> (r: String)
    ensures
        r@ == match model_override {
            Some(m) => m@,
            None => match configured {
                Some(c) => c@,
                None => "llama3"@,
            },
        },
{
    match model_override {
        Some(m) => m.to_owned(),
        None => match configured {
            Some(c) => c.to_owned(),
            None => "llama3".to_owned(),
        },
    }
}

} // verus!
