//! A link-rewriting relay core: finds short-form and long-form video links in
//! chat text, decides how each candidate is resolved and rewritten to the
//! embeddable host, and bounds how many candidates of one message may be in
//! flight at once. All network and gateway I/O lives outside this crate; the
//! functions here are pure decisions over the values that I/O hands them.

pub mod matcher;
pub mod pipeline;
pub mod pool;
pub mod resolve;
pub mod rewrite;
pub mod scan;
