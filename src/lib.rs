//! The structural core of a small feed-forward training engine: the shapes that
//! flow through a chain of layers, the single-slot cache that bridges a layer's
//! forward, backward and optimize steps, and the rules that make a chain of
//! layers well formed, and a model that runs its layers forward in order,
//! backward last to first, stopping at the first failure. The numeric work on
//! the matrices is each layer's own and is handed in by the caller.
pub mod error;
pub mod shape;
pub mod cache;
pub mod chain;
pub mod losses;
pub mod sequential;
