use vstd::prelude::*;
use crate::error::LayerError;
use crate::shape::Shape;

verus! {

/// The declared input and output widths of one layer.
#[derive(Clone, Copy, Debug, PartialEq, Eq, Structural)]
pub struct LayerWidths {
    pub input: usize,
    pub output: usize,
}

/// Why a declared chain of layers is not well formed.
#[derive(Clone, Copy, Debug, PartialEq, Eq, Structural)]
pub enum ChainError {
    /// The chain has no layer.
    NoLayers,
    /// The first layer's input width is not the chain's input width.
    InputWidthMismatch,
    /// The output width of the layer at this index is not the input width of
    /// the layer after it.
    AdjacentWidthMismatch(usize),
    /// The last layer's output width is not the chain's output width.
    OutputWidthMismatch,
    /// The number of declared widths is not the number of layers.
    LayerCountMismatch,
}

/// Each layer's output width is the next layer's input width.
pub open spec fn adjacent_widths_match(layers: Seq<LayerWidths>) -> bool {
    forall|k: int| 0 <= k < layers.len() - 1 ==> #[trigger] layers[k].output == layers[k + 1].input
}

/// A chain from `input` to `output` features through `layers`, in order.
pub open spec fn chain_valid(input: usize, output: usize, layers: Seq<LayerWidths>) -> bool {
    &&& layers.len() > 0
    &&& layers[0].input == input
    &&& adjacent_widths_match(layers)
    &&& layers.last().output == output
}

/// `e` is why a chain from `input` to `output` features through `layers` is
/// refused: the first of these that holds, checked in this order. No layer; a
/// first layer of another input width; the first pair of neighbours whose
/// widths differ; a last layer of another output width.
pub open spec fn is_chain_refusal(
    input: usize,
    output: usize,
    layers: Seq<LayerWidths>,
    e: ChainError,
) -> bool {
    match e {
        ChainError::NoLayers => layers.len() == 0,
        ChainError::InputWidthMismatch => layers.len() > 0 && layers[0].input != input,
        ChainError::AdjacentWidthMismatch(k) => {
            &&& layers.len() > 0
            &&& layers[0].input == input
            &&& k + 1 < layers.len()
            &&& layers[k as int].output != layers[k + 1].input
            &&& forall|j: int| 0 <= j < k ==> #[trigger] layers[j].output == layers[j + 1].input
        },
        ChainError::OutputWidthMismatch => {
            &&& layers.len() > 0
            &&& layers[0].input == input
            &&& adjacent_widths_match(layers)
            &&& layers.last().output != output
        },
        ChainError::LayerCountMismatch => false,
    }
}

/// The shape that a forward pass through `layers` turns `s` into, or `None`
/// where some layer meets an input of the wrong width.
pub open spec fn forward_shape(layers: Seq<LayerWidths>, s: Shape) -> Option<Shape>
    decreases layers.len(),
{
    if layers.len() == 0 {
        Some(s)
    } else if s.cols != layers[0].input {
        None
    } else {
        forward_shape(layers.drop_first(), Shape { rows: s.rows, cols: layers[0].output })
    }
}

/// The shape of `dL/dx` that a backward pass through `layers`, last layer
/// first, turns a gradient of shape `g` into, or `None` where some layer meets
/// a gradient of the wrong width.
pub open spec fn backward_shape(layers: Seq<LayerWidths>, g: Shape) -> Option<Shape>
    decreases layers.len(),
{
    if layers.len() == 0 {
        Some(g)
    } else if g.cols != layers.last().output {
        None
    } else {
        backward_shape(layers.drop_last(), Shape { rows: g.rows, cols: layers.last().input })
    }
}

proof fn lemma_forward_shape_matched(layers: Seq<LayerWidths>, rows: usize)
    requires
        layers.len() > 0,
        adjacent_widths_match(layers),
    ensures
        forward_shape(layers, Shape { rows, cols: layers[0].input })
            == Some(Shape { rows, cols: layers.last().output }),
    decreases layers.len(),
{
    if layers.len() > 1 {
        let rest = layers.drop_first();
        assert(rest[0] == layers[1]);
        assert(layers[0].output == layers[1].input);
        assert forall|k: int| 0 <= k < rest.len() - 1 implies #[trigger] rest[k].output
            == rest[k + 1].input by {
            assert(layers[k + 1].output == layers[k + 2].input);
        }
        lemma_forward_shape_matched(rest, rows);
        assert(rest.last() == layers.last());
    } else {
        assert(layers.drop_first().len() == 0);
        reveal_with_fuel(forward_shape, 2);
    }
}

proof fn lemma_backward_shape_matched(layers: Seq<LayerWidths>, rows: usize)
    requires
        layers.len() > 0,
        adjacent_widths_match(layers),
    ensures
        backward_shape(layers, Shape { rows, cols: layers.last().output })
            == Some(Shape { rows, cols: layers[0].input }),
    decreases layers.len(),
{
    let n = layers.len();
    if n > 1 {
        let rest = layers.drop_last();
        assert(rest.last() == layers[n - 2]);
        assert(layers[n - 2].output == layers[n - 1].input);
        assert forall|k: int| 0 <= k < rest.len() - 1 implies #[trigger] rest[k].output
            == rest[k + 1].input by {
            assert(layers[k].output == layers[k + 1].input);
        }
        lemma_backward_shape_matched(rest, rows);
        assert(rest[0] == layers[0]);
    } else {
        assert(layers.drop_last().len() == 0);
        reveal_with_fuel(backward_shape, 2);
    }
}

/// Shape law: a well-formed chain from `input` to `output` features turns a
/// batch of `rows` inputs of width `input` into `rows` outputs of width
/// `output`, and turns a gradient of `rows` rows of width `output` back into
/// one of `rows` rows of width `input`, for every batch size.
pub proof fn lemma_shape_law(input: usize, output: usize, layers: Seq<LayerWidths>, rows: usize)
    requires
        chain_valid(input, output, layers),
    ensures
        forward_shape(layers, Shape { rows, cols: input }) == Some(Shape { rows, cols: output }),
        backward_shape(layers, Shape { rows, cols: output }) == Some(Shape { rows, cols: input }),
{
    lemma_forward_shape_matched(layers, rows);
    lemma_backward_shape_matched(layers, rows);
}

/// The declared widths of a chain of layers, checked when it is made: the
/// chain's input width is the first layer's, its output width the last
/// layer's, and each layer's output width the next layer's input width.
pub struct Chain {
    input_width: usize,
    output_width: usize,
    layers: Vec<LayerWidths>,
}

impl View for Chain {
    type V = (usize, usize, Seq<LayerWidths>);

    closed spec fn view(&self) -> (usize, usize, Seq<LayerWidths>) {
        (self.input_width, self.output_width, self.layers@)
    }
}

impl Chain {
    pub open spec fn wf(&self) -> bool {
        chain_valid(self@.0, self@.1, self@.2)
    }

    /// Declares a chain from `input_width` to `output_width` features through
    /// `layers`, in order; refused as `is_chain_refusal` says.
    pub fn new(input_width: usize, output_width: usize, layers: Vec<LayerWidths>) -> (r: Result<
        Chain,
        ChainError,
    >)
        ensures
            r is Ok <==> chain_valid(input_width, output_width, layers@),
            r is Ok ==> r->Ok_0@ == (input_width, output_width, layers@) && r->Ok_0.wf(),
            r is Err ==> is_chain_refusal(input_width, output_width, layers@, r->Err_0),
    {
        let n = layers.len();
        if n == 0 {
            return Err(ChainError::NoLayers);
        }
        if layers[0].input != input_width {
            return Err(ChainError::InputWidthMismatch);
        }
        let mut k: usize = 0;
        while k + 1 < n
            invariant
                n == layers@.len(),
                n > 0,
                k < n,
                layers@[0].input == input_width,
                forall|j: int| 0 <= j < k ==> #[trigger] layers@[j].output == layers@[j + 1].input,
            decreases n - k,
        {
            if layers[k].output != layers[k + 1].input {
                return Err(ChainError::AdjacentWidthMismatch(k));
            }
            k = k + 1;
        }
        if layers[n - 1].output != output_width {
            return Err(ChainError::OutputWidthMismatch);
        }
        Ok(Chain { input_width, output_width, layers })
    }

    pub fn input_width(&self) -> (r: usize)
        ensures
            r == self@.0,
    {
        self.input_width
    }

    pub fn output_width(&self) -> (r: usize)
        ensures
            r == self@.1,
    {
        self.output_width
    }

    /// The number of layers.
    pub fn len(&self) -> (r: usize)
        ensures
            r == self@.2.len(),
    {
        self.layers.len()
    }

    /// The widths of the layer at index `i`.
    pub fn layer(&self, i: usize) -> (r: LayerWidths)
        requires
            i < self@.2.len(),
        ensures
            r == self@.2[i as int],
    {
        self.layers[i]
    }

    /// The shape of the output of a forward pass on an input of shape `input`,
    /// found by passing the shape through each layer in order.
    pub fn output_shape(&self, input: Shape) -> (r: Result<Shape, LayerError>)
        requires
            self.wf(),
        ensures
            r == (if input.cols == self@.0 {
                Ok(Shape { rows: input.rows, cols: self@.1 })
            } else {
                Err(LayerError::WidthMismatch)
            }),
    {
        if input.cols != self.input_width {
            return Err(LayerError::WidthMismatch);
        }
        let n = self.layers.len();
        let mut s = input;
        let mut i: usize = 0;
        while i < n
            invariant
                self.wf(),
                n == self@.2.len(),
                i <= n,
                s.rows == input.rows,
                i == 0 ==> s.cols == self@.0,
                i > 0 ==> s.cols == self@.2[i - 1].output,
            decreases n - i,
        {
            let l = self.layers[i];
            if i > 0 {
                assert(self@.2[i - 1].output == self@.2[i as int].input);
            }
            if s.cols != l.input {
                return Err(LayerError::WidthMismatch);
            }
            s = Shape { rows: s.rows, cols: l.output };
            i = i + 1;
        }
        Ok(s)
    }

    /// The shape of `dL/dx` that a backward pass hands back for a gradient of
    /// shape `grad`, found by passing the shape through each layer, last
    /// layer first.
    pub fn input_gradient_shape(&self, grad: Shape) -> (r: Result<Shape, LayerError>)
        requires
            self.wf(),
        ensures
            r == (if grad.cols == self@.1 {
                Ok(Shape { rows: grad.rows, cols: self@.0 })
            } else {
                Err(LayerError::WidthMismatch)
            }),
    {
        if grad.cols != self.output_width {
            return Err(LayerError::WidthMismatch);
        }
        let n = self.layers.len();
        let mut s = grad;
        let mut i: usize = n;
        while i > 0
            invariant
                self.wf(),
                n == self@.2.len(),
                i <= n,
                s.rows == grad.rows,
                i == n ==> s.cols == self@.1,
                i < n ==> s.cols == self@.2[i as int].input,
            decreases i,
        {
            let l = self.layers[i - 1];
            if i < n {
                assert(self@.2[i - 1].output == self@.2[i as int].input);
            }
            if s.cols != l.output {
                return Err(LayerError::WidthMismatch);
            }
            s = Shape { rows: s.rows, cols: l.input };
            i = i - 1;
        }
        Ok(s)
    }
}

} // verus!
