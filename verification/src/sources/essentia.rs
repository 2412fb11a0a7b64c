//! The audio classifier: available only when its model file is present.

use vstd::prelude::*;
use crate::models::SourceResult;

verus! {

/// A genre classifier backed by a model file.
#[derive(Debug)]
pub struct EssentiaClassifier {
    pub model_path: String,
}

impl EssentiaClassifier {
    /// A classifier for the model at `model_path`, when the file exists.
    pub fn load(model_path: &str, exists: bool) -> (r: Option<Self>)
        ensures
            r is Some <==> exists,
            r matches Some(c) ==> c.model_path@ == model_path@,
    {
        if !exists {
            return None;
        }
        Some(EssentiaClassifier { model_path: model_path.to_owned() })
    }

    /// Inference is not wired in yet: no audio file is classified.
    pub fn analyze(&self, _audio_path: &str) -> (r: Option<SourceResult>)
        ensures
            r is None,
    {
        None
    }
}

} // verus!
