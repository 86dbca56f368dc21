//! Synchronises structured documentation comments with method definitions in
//! a source buffer.
//!
//! The pipeline has four stages: an extractor scans the text and produces an
//! ordered list of method records with byte offsets; an annotation generator
//! turns those records into prompts for an external text service and
//! classifies its answers; a reconciler forces a variable-count bulk answer to
//! align with the fixed count of methods; and a rewriter inserts the finished
//! annotations back into the original buffer, tracking the drift that earlier
//! insertions cause.
//!
//! Extraction is best effort by design: the grammar is pattern based, not
//! brace-depth balanced (see [`extract`]).

pub mod bytes;
pub mod extract;
pub mod generate;
pub mod method;
pub mod prompt;
pub mod reconcile;
pub mod rewrite;

pub use bytes::trim_bytes;
pub use extract::extract_methods;
pub use generate::{
    backoff_delay, classify_status, handle_bulk_response, sequential_step, split_response,
    BulkError, BulkOutcome, RetryPolicy, RetryState, SeqAction, StatusClass,
};
pub use method::{attach_docblocks, Method, MethodView, Visibility};
pub use prompt::build_bulk_prompt;
pub use reconcile::reconcile;
pub use rewrite::{annotate_by_signature, apply_annotations};
