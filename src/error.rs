use vstd::prelude::*;

verus! {

/// Why a layer refused a call.
#[derive(Clone, Copy, Debug, PartialEq, Eq, Structural)]
pub enum LayerError {
    /// `backward` came without a preceding `forward`, or the input that the
    /// last `forward` cached was already used up by a `backward`.
    MissingCache,
    /// The gradient's batch size differs from that of the cached input.
    BatchSizeMismatch,
    /// A matrix's width is not the width that the layer was declared with.
    WidthMismatch,
}

} // verus!
