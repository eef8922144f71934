//! Wire contracts shared between the pipeline stages and the retrieval
//! boundary.

use vstd::prelude::*;

use crate::language::{CoreError, Language};
use crate::text::{all_white, is_blank};

verus! {

/// Upper bound for `top_k` on any request.
pub const MAX_TOP_K: u8 = 20;

/// Default `top_k` when a request leaves it out.
pub fn default_top_k() -> (k: u8)
    ensures
        k == 5,
{
    5
}

/// Request body shared by the query and retrieve endpoints.
///
/// The identical shape is deliberate: the user-facing pipeline forwards the
/// (normalized) query to the retrieval service over this exact contract.
#[derive(Debug, Clone)]
pub struct RetrieveRequest {
    /// The query text.
    pub query: String,
    /// Expected language of the query.
    pub language: Language,
    /// Maximum number of chunks to return.
    pub top_k: u8,
}

/// The outcome of validating a request with `query` and `top_k`.
pub open spec fn validation_outcome(query: Seq<char>, top_k: u8) -> Result<(), CoreError> {
    if all_white(query) {
        Err(CoreError::EmptyQuery)
    } else if top_k == 0 || top_k > MAX_TOP_K {
        Err(CoreError::InvalidTopK(top_k))
    } else {
        Ok(())
    }
}

impl RetrieveRequest {
    /// Validates externally supplied input.
    ///
    /// # Errors
    /// - [`CoreError::EmptyQuery`] when `query` is empty or whitespace-only.
    /// - [`CoreError::InvalidTopK`] when `top_k` is `0` or above [`MAX_TOP_K`].
    pub fn validate(&self) -> (r: Result<(), CoreError>)
        ensures
            r == validation_outcome(self.query@, self.top_k),
    {
        if is_blank(self.query.as_str()) {
            return Err(CoreError::EmptyQuery);
        }
        if self.top_k == 0 || self.top_k > MAX_TOP_K {
            return Err(CoreError::InvalidTopK(self.top_k));
        }
        Ok(())
    }
}

/// Container format of an uploaded audio payload.
#[derive(Debug, Clone, Copy, PartialEq, Eq, Hash, Structural)]
pub enum AudioFormat {
    /// RIFF/WAVE.
    Wav,
    /// MPEG audio layer III.
    Mp3,
    /// Free Lossless Audio Codec.
    Flac,
}

/// Coarse query intent used to shape retrieval and generation.
#[derive(Debug, Clone, Copy, PartialEq, Eq, Hash, Structural)]
pub enum QueryIntent {
    /// "What is X?"
    Definition,
    /// "Difference between X and Y"
    Comparison,
    /// "How to do X"
    Procedural,
    /// "Who/when/where/why"
    Factual,
    /// Nothing matched.
    Unknown,
}

/// Evidence-sufficiency verdict for a retrieval result.
#[derive(Debug, Clone, Copy, PartialEq, Eq, Hash, Structural)]
pub enum Answerability {
    /// The evidence covers the query and agrees with itself.
    Supported,
    /// Nothing relevant was retrieved.
    NoEvidence,
    /// The evidence only partially addresses the query.
    WeakEvidence,
    /// The relevant documents disagree with each other.
    ConflictingEvidence,
}

/// Decision made by a guardrail check.
#[derive(Debug, Clone, PartialEq, Eq)]
pub enum GuardrailDecision {
    /// Proceed.
    Allow,
    /// Do not serve; carries a machine-readable reason code.
    Refuse {
        /// Stable reason code.
        reason: String,
    },
    /// Generate again; carries the reason the last answer failed.
    Regenerate {
        /// Stable reason code.
        reason: String,
    },
}

} // verus!
