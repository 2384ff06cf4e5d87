use vstd::prelude::*;
use crate::error::LayerError;
use crate::shape::Shape;
use crate::chain::{LayerWidths, chain_valid};

verus! {

/// The input of the last forward pass, kept for the backward pass.
pub struct ForwardCache<X> {
    pub batch: usize,
    pub input: X,
}

/// What a [`LayerCache`] holds, as seen by contracts.
pub struct CacheState<X, G> {
    pub input_width: usize,
    pub output_width: usize,
    pub forward_cache: Option<ForwardCache<X>>,
    pub gradient_cache: Option<G>,
}

impl<X, G> CacheState<X, G> {
    /// The output shape of a forward pass on an input of shape `input`.
    pub open spec fn forward_result(self, input: Shape) -> Result<Shape, LayerError> {
        if input.cols != self.input_width {
            Err(LayerError::WidthMismatch)
        } else {
            Ok(Shape { rows: input.rows, cols: self.output_width })
        }
    }

    /// The shape of `dL/dx` that a backward pass hands back for a gradient of
    /// shape `grad`, or why the pass is refused.
    pub open spec fn backward_result(self, grad: Shape) -> Result<Shape, LayerError> {
        match self.forward_cache {
            None => Err(LayerError::MissingCache),
            Some(c) => if grad.cols != self.output_width {
                Err(LayerError::WidthMismatch)
            } else if grad.rows != c.batch {
                Err(LayerError::BatchSizeMismatch)
            } else {
                Ok(Shape { rows: grad.rows, cols: self.input_width })
            },
        }
    }

    /// A forward pass replaces the whole slot: the new input, no gradient.
    pub open spec fn after_forward(self, batch: usize, input: X) -> CacheState<X, G> {
        CacheState {
            forward_cache: Some(ForwardCache { batch, input }),
            gradient_cache: None,
            ..self
        }
    }

    /// A backward pass uses up the cached input and leaves the gradient.
    pub open spec fn after_backward(self, gradient: Option<G>) -> CacheState<X, G> {
        CacheState { forward_cache: None, gradient_cache: gradient, ..self }
    }

    /// An optimize step uses up the cached gradient.
    pub open spec fn after_optimize(self) -> CacheState<X, G> {
        CacheState { gradient_cache: None, ..self }
    }
}

/// The single-slot cache of one layer. After a forward pass it holds the input
/// (`forward_cache`); a backward pass takes that input and may leave the
/// layer's parameter gradient (`gradient_cache`), which the optimize step takes.
/// The layer's input and output widths are fixed when it is made.
pub struct LayerCache<X, G> {
    input_width: usize,
    output_width: usize,
    forward_cache: Option<ForwardCache<X>>,
    gradient_cache: Option<G>,
}

impl<X, G> View for LayerCache<X, G> {
    type V = CacheState<X, G>;

    closed spec fn view(&self) -> CacheState<X, G> {
        CacheState {
            input_width: self.input_width,
            output_width: self.output_width,
            forward_cache: self.forward_cache,
            gradient_cache: self.gradient_cache,
        }
    }
}

impl<X, G> LayerCache<X, G> {
    /// An empty cache for a layer from `input_width` to `output_width` features.
    pub fn new(input_width: usize, output_width: usize) -> (r: Self)
        ensures
            r@ == (CacheState::<X, G> {
                input_width,
                output_width,
                forward_cache: None,
                gradient_cache: None,
            }),
    {
        LayerCache { input_width, output_width, forward_cache: None, gradient_cache: None }
    }

    pub fn input_width(&self) -> (r: usize)
        ensures
            r == self@.input_width,
    {
        self.input_width
    }

    pub fn output_width(&self) -> (r: usize)
        ensures
            r == self@.output_width,
    {
        self.output_width
    }

    pub fn has_input(&self) -> (r: bool)
        ensures
            r == self@.forward_cache is Some,
    {
        self.forward_cache.is_some()
    }

    pub fn has_gradient(&self) -> (r: bool)
        ensures
            r == self@.gradient_cache is Some,
    {
        self.gradient_cache.is_some()
    }

    /// The batch size of the cached input, if there is one.
    pub fn cached_batch(&self) -> (r: Option<usize>)
        ensures
            r == match self@.forward_cache {
                Some(c) => Some(c.batch),
                None => None,
            },
    {
        match &self.forward_cache {
            Some(c) => Some(c.batch),
            None => None,
        }
    }

    /// Starts a forward pass on `input`, of shape `shape`: checks its width
    /// and caches it, dropping whatever the slot held. Returns the shape of
    /// the output. On a width mismatch nothing changes.
    pub fn record_forward(&mut self, shape: Shape, input: X) -> (r: Result<Shape, LayerError>)
        ensures
            r == old(self)@.forward_result(shape),
            r is Ok ==> final(self)@ == old(self)@.after_forward(shape.rows, input),
            r is Err ==> final(self)@ == old(self)@,
    {
        if shape.cols != self.input_width {
            return Err(LayerError::WidthMismatch);
        }
        self.forward_cache = Some(ForwardCache { batch: shape.rows, input });
        self.gradient_cache = None;
        Ok(Shape { rows: shape.rows, cols: self.output_width })
    }

    /// Starts a backward pass on an incoming gradient of shape `grad`: hands
    /// out the cached input and empties the slot, so that a second backward
    /// pass needs a new forward pass first. The refusals, in this order: no
    /// cached input, a gradient of the wrong width, a batch size that is not
    /// the cached one. On a refusal nothing changes.
    pub fn take_input(&mut self, grad: Shape) -> (r: Result<X, LayerError>)
        ensures
            r is Ok <==> old(self)@.backward_result(grad) is Ok,
            r is Err ==> r == Err::<X, LayerError>(old(self)@.backward_result(grad)->Err_0),
            r is Err ==> final(self)@ == old(self)@,
            r is Ok ==> r == Ok::<X, LayerError>(old(self)@.forward_cache->Some_0.input),
            r is Ok ==> final(self)@ == old(self)@.after_backward(None),
    {
        match &self.forward_cache {
            None => {
                return Err(LayerError::MissingCache);
            },
            Some(c) => {
                if grad.cols != self.output_width {
                    return Err(LayerError::WidthMismatch);
                }
                if grad.rows != c.batch {
                    return Err(LayerError::BatchSizeMismatch);
                }
            },
        }
        let c = self.forward_cache.take().unwrap();
        self.gradient_cache = None;
        Ok(c.input)
    }

    /// Ends a backward pass: keeps the layer's parameter gradient for the
    /// next optimize step.
    pub fn store_gradient(&mut self, gradient: G)
        ensures
            final(self)@ == old(self)@.after_backward(Some(gradient)),
    {
        self.forward_cache = None;
        self.gradient_cache = Some(gradient);
    }

    /// The optimize step's share: hands out the cached gradient, if any, and
    /// empties it. `None` means there is nothing to apply.
    pub fn take_gradient(&mut self) -> (r: Option<G>)
        ensures
            r == old(self)@.gradient_cache,
            final(self)@ == old(self)@.after_optimize(),
    {
        self.gradient_cache.take()
    }
}

/// Single use of the forward cache: once a backward pass has taken the cached
/// input, a second backward pass is refused with `MissingCache`, whatever
/// either gradient is and whether or not an optimize step came in between. Only
/// a new forward pass makes backward possible again.
pub proof fn lemma_cache_single_use<X, G>(
    s: CacheState<X, G>,
    first: Shape,
    second: Shape,
    gradient: Option<G>,
)
    requires
        s.backward_result(first) is Ok,
    ensures
        s.after_backward(gradient).backward_result(second) == Err::<Shape, LayerError>(
            LayerError::MissingCache,
        ),
        s.after_backward(gradient).after_optimize().backward_result(second) == Err::<
            Shape,
            LayerError,
        >(LayerError::MissingCache),
{
}

/// The caches of a model's layers after the optimize step of layer `i`.
pub open spec fn optimize_layer<X, G>(layers: Seq<CacheState<X, G>>, i: int) -> Seq<
    CacheState<X, G>,
> {
    layers.update(i, layers[i].after_optimize())
}

/// The caches of a model's layers after the optimize steps of the layers in
/// `order`, first to last.
pub open spec fn optimize_in_order<X, G>(layers: Seq<CacheState<X, G>>, order: Seq<int>) -> Seq<
    CacheState<X, G>,
>
    decreases order.len(),
{
    if order.len() == 0 {
        layers
    } else {
        optimize_layer(optimize_in_order(layers, order.drop_last()), order.last())
    }
}

/// `order` names each of `n` layers exactly once.
pub open spec fn is_layer_order(order: Seq<int>, n: int) -> bool {
    &&& order.no_duplicates()
    &&& forall|k: int| 0 <= k < order.len() ==> 0 <= #[trigger] order[k] < n
    &&& forall|i: int| 0 <= i < n ==> #[trigger] order.contains(i)
}

proof fn lemma_optimize_in_order_at<X, G>(layers: Seq<CacheState<X, G>>, order: Seq<int>)
    requires
        forall|k: int| 0 <= k < order.len() ==> 0 <= #[trigger] order[k] < layers.len(),
    ensures
        optimize_in_order(layers, order).len() == layers.len(),
        forall|i: int|
            0 <= i < layers.len() ==> #[trigger] optimize_in_order(layers, order)[i] == if order.contains(
                i,
            ) {
                layers[i].after_optimize()
            } else {
                layers[i]
            },
    decreases order.len(),
{
    if order.len() > 0 {
        let rest = order.drop_last();
        assert forall|k: int| 0 <= k < rest.len() implies 0 <= #[trigger] rest[k] < layers.len() by {
            assert(rest[k] == order[k]);
        }
        lemma_optimize_in_order_at(layers, rest);
        assert forall|i: int| 0 <= i < layers.len() implies #[trigger] order.contains(i) == (
        rest.contains(i) || i == order.last()) by {
            if order.contains(i) {
                let k = choose|k: int| 0 <= k < order.len() && order[k] == i;
                if k < order.len() - 1 {
                    assert(rest[k] == i);
                }
            }
            if rest.contains(i) {
                let k = choose|k: int| 0 <= k < rest.len() && rest[k] == i;
                assert(order[k] == i);
            }
            if i == order.last() {
                assert(order[order.len() - 1] == i);
            }
        }
    }
}

/// Order independence of the optimize step: the optimize steps of a model's
/// layers, taken in any order that names each layer once, hand each layer the
/// parameter gradient that its own backward pass left, and leave every cache
/// as optimizing the layers first to last does: with no gradient, all else
/// unchanged.
pub proof fn lemma_optimize_order_independent<X, G>(
    layers: Seq<CacheState<X, G>>,
    order: Seq<int>,
)
    requires
        is_layer_order(order, layers.len() as int),
    ensures
        optimize_in_order(layers, order) == layers.map_values(
            |c: CacheState<X, G>| c.after_optimize(),
        ),
        forall|k: int|
            0 <= k < order.len() ==> (#[trigger] optimize_in_order(layers, order.take(k)))[order[k]].gradient_cache
                == layers[order[k]].gradient_cache,
{
    lemma_optimize_in_order_at(layers, order);
    assert(optimize_in_order(layers, order) =~= layers.map_values(
        |c: CacheState<X, G>| c.after_optimize(),
    ));
    assert forall|k: int| 0 <= k < order.len() implies (#[trigger] optimize_in_order(
        layers,
        order.take(k),
    ))[order[k]].gradient_cache == layers[order[k]].gradient_cache by {
        let pre = order.take(k);
        assert forall|j: int| 0 <= j < pre.len() implies 0 <= #[trigger] pre[j] < layers.len() by {
            assert(pre[j] == order[j]);
        }
        lemma_optimize_in_order_at(layers, pre);
        if pre.contains(order[k]) {
            let j = choose|j: int| 0 <= j < pre.len() && pre[j] == order[k];
            assert(order[j] == order[k]);
        }
    }
}

/// The declared widths of a model's layers, read from their caches.
pub open spec fn cache_widths<X, G>(layers: Seq<CacheState<X, G>>) -> Seq<LayerWidths> {
    layers.map_values(
        |c: CacheState<X, G>| LayerWidths { input: c.input_width, output: c.output_width },
    )
}

/// No refusal inside a well-formed chain: in a model whose layers' widths form
/// a chain from `input` to `output` features, a forward pass on `rows` inputs
/// passes every layer's width check, each layer handing the next an input of
/// its own width; and once every layer has cached its input, a backward pass
/// from a gradient of `rows` rows of width `output` passes every layer's
/// checks, last to first, each layer handing the one before it a gradient of
/// that layer's output width.
pub proof fn lemma_chain_passes<X, G>(
    layers: Seq<CacheState<X, G>>,
    input: usize,
    output: usize,
    rows: usize,
    inputs: Seq<X>,
)
    requires
        chain_valid(input, output, cache_widths(layers)),
        inputs.len() == layers.len(),
    ensures
        forall|k: int|
            0 <= k < layers.len() ==> (#[trigger] layers[k]).forward_result(
                Shape { rows, cols: if k == 0 { input } else { layers[k - 1].output_width } },
            ) == Ok::<Shape, LayerError>(Shape { rows, cols: layers[k].output_width }),
        layers.last().output_width == output,
        forall|k: int|
            0 <= k < layers.len() ==> (#[trigger] layers[k]).after_forward(rows, inputs[k]).backward_result(
                Shape {
                    rows,
                    cols: if k == layers.len() - 1 { output } else { layers[k + 1].input_width },
                },
            ) == Ok::<Shape, LayerError>(Shape { rows, cols: layers[k].input_width }),
        layers[0].input_width == input,
{
    let ws = cache_widths(layers);
    assert forall|k: int| 0 <= k < layers.len() implies (#[trigger] layers[k]).forward_result(
        Shape { rows, cols: if k == 0 { input } else { layers[k - 1].output_width } },
    ) == Ok::<Shape, LayerError>(Shape { rows, cols: layers[k].output_width }) by {
        assert(ws[k].input == layers[k].input_width);
        if k > 0 {
            assert(ws[k - 1].output == ws[k].input);
        }
    }
    assert forall|k: int| 0 <= k < layers.len() implies (#[trigger] layers[k]).after_forward(
        rows,
        inputs[k],
    ).backward_result(
        Shape { rows, cols: if k == layers.len() - 1 { output } else { layers[k + 1].input_width } },
    ) == Ok::<Shape, LayerError>(Shape { rows, cols: layers[k].input_width }) by {
        assert(ws[k].output == layers[k].output_width);
        if k < layers.len() - 1 {
            assert(ws[k].output == ws[k + 1].input);
        }
    }
}

} // verus!
