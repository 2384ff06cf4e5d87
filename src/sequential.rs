use vstd::prelude::*;
use crate::chain::{Chain, ChainError, LayerWidths, chain_valid, is_chain_refusal};
use crate::error::LayerError;

verus! {

/// A forward pass went through the first `k` layers: layer `i` took `xs[i]`
/// and handed `xs[i + 1]` on, and went from `before[i]` to `after[i]`.
pub open spec fn forward_trace<L, X, F: Fn(L, X) -> (L, Result<X, LayerError>)>(
    f: F,
    before: Seq<L>,
    after: Seq<L>,
    xs: Seq<X>,
    k: int,
) -> bool {
    &&& xs.len() == k + 1
    &&& forall|i: int|
        0 <= i < k ==> #[trigger] f.ensures((before[i], xs[i]), (after[i], Ok(xs[i + 1])))
}

/// A backward pass went through the layers from the last down to layer `k`:
/// layer `i` took the gradient `gs[i + 1]` and handed `gs[i]` on to the layer
/// before it, and went from `before[i]` to `after[i]`. `gs[n]` is the gradient
/// that entered the chain.
pub open spec fn backward_trace<L, X, F: Fn(L, X) -> (L, Result<X, LayerError>)>(
    f: F,
    before: Seq<L>,
    after: Seq<L>,
    gs: Seq<X>,
    k: int,
    n: int,
) -> bool {
    &&& gs.len() == n + 1
    &&& forall|i: int|
        k <= i < n ==> #[trigger] f.ensures((before[i], gs[i + 1]), (after[i], Ok(gs[i])))
}

/// A model: a fixed chain of layers of type `L`, whose widths were checked
/// when it was made. Forward runs the layers in order, backward runs them
/// last to first, and optimize runs each once; what one layer does to a value
/// is the step function that the caller hands in.
pub struct Sequential<L> {
    chain: Chain,
    layers: Vec<L>,
}

impl<L> Sequential<L> {
    /// The declared widths: input, output, and each layer's.
    pub closed spec fn widths(&self) -> (usize, usize, Seq<LayerWidths>) {
        self.chain@
    }

    pub closed spec fn layers(&self) -> Seq<L> {
        self.layers@
    }

    pub open spec fn wf(&self) -> bool {
        &&& chain_valid(self.widths().0, self.widths().1, self.widths().2)
        &&& self.layers().len() == self.widths().2.len()
    }

    /// Makes a model from `input_width` to `output_width` features through
    /// `layers`, whose declared widths are `widths`, in order. Refused where
    /// the two lists differ in length, and otherwise as [`Chain::new`] refuses
    /// the widths.
    pub fn new(input_width: usize, output_width: usize, widths: Vec<LayerWidths>, layers: Vec<L>) -> (r:
        Result<Sequential<L>, ChainError>)
        ensures
            r is Ok <==> widths@.len() == layers@.len() && chain_valid(
                input_width,
                output_width,
                widths@,
            ),
            widths@.len() != layers@.len() ==> r == Err::<Sequential<L>, ChainError>(
                ChainError::LayerCountMismatch,
            ),
            r is Ok ==> {
                &&& r->Ok_0.wf()
                &&& r->Ok_0.widths() == (input_width, output_width, widths@)
                &&& r->Ok_0.layers() == layers@
            },
            widths@.len() == layers@.len() && r is Err ==> is_chain_refusal(
                input_width,
                output_width,
                widths@,
                r->Err_0,
            ),
    {
        if widths.len() != layers.len() {
            return Err(ChainError::LayerCountMismatch);
        }
        match Chain::new(input_width, output_width, widths) {
            Ok(chain) => Ok(Sequential { chain, layers }),
            Err(e) => Err(e),
        }
    }

    pub fn input_width(&self) -> (r: usize)
        ensures
            r == self.widths().0,
    {
        self.chain.input_width()
    }

    pub fn output_width(&self) -> (r: usize)
        ensures
            r == self.widths().1,
    {
        self.chain.output_width()
    }

    /// The number of layers.
    pub fn len(&self) -> (r: usize)
        ensures
            r == self.layers().len(),
    {
        self.layers.len()
    }

    /// The layer at index `i`.
    pub fn layer(&self, i: usize) -> (r: &L)
        requires
            i < self.layers().len(),
        ensures
            *r == self.layers()[i as int],
    {
        &self.layers[i]
    }

    /// The chain of declared widths.
    pub fn chain(&self) -> (r: &Chain)
        ensures
            r@ == self.widths(),
    {
        &self.chain
    }

    /// Runs `f` on the layer at index `i` and puts the layer back.
    fn run_layer<X, F: Fn(L, X) -> (L, Result<X, LayerError>)>(
        layers: &mut Vec<L>,
        i: usize,
        x: X,
        f: &F,
    ) -> (r: Result<X, LayerError>)
        requires
            i < old(layers)@.len(),
            forall|l: L, x: X| f.requires((l, x)),
        ensures
            final(layers)@.len() == old(layers)@.len(),
            final(layers)@ == old(layers)@.update(i as int, final(layers)@[i as int]),
            f.ensures((old(layers)@[i as int], x), (final(layers)@[i as int], r)),
    {
        let l = layers.remove(i);
        let (l, r) = f(l, x);
        layers.insert(i, l);
        assert(layers@ =~= old(layers)@.update(i as int, layers@[i as int]));
        r
    }

    /// Forward pass: hands `x` to the first layer, each layer's output to the
    /// next, and returns the last layer's output. `layer_forward` is one
    /// layer's forward step. Stops at the first layer that fails and returns
    /// its error; the layers after it are not called.
    pub fn forward<X, F: Fn(L, X) -> (L, Result<X, LayerError>)>(
        &mut self,
        x: X,
        layer_forward: F,
    ) -> (r: Result<X, LayerError>)
        requires
            forall|l: L, x: X| layer_forward.requires((l, x)),
        ensures
            final(self).widths() == old(self).widths(),
            final(self).layers().len() == old(self).layers().len(),
            ({
                let n = old(self).layers().len() as int;
                let before = old(self).layers();
                let after = final(self).layers();
                match r {
                    Ok(y) => exists|xs: Seq<X>|
                        {
                            &&& forward_trace(layer_forward, before, after, xs, n)
                            &&& xs[0] == x
                            &&& xs[n] == y
                        },
                    Err(e) => exists|k: int, xs: Seq<X>|
                        {
                            &&& 0 <= k < n
                            &&& forward_trace(layer_forward, before, after, xs, k)
                            &&& xs[0] == x
                            &&& layer_forward.ensures((before[k], xs[k]), (after[k], Err(e)))
                            &&& forall|i: int| k < i < n ==> after[i] == before[i]
                        },
                }
            }),
    {
        let n = self.layers.len();
        let ghost before = self.layers@;
        let ghost mut xs: Seq<X> = seq![x];
        let mut cur = x;
        let mut i: usize = 0;
        while i < n
            invariant
                self.widths() == old(self).widths(),
                before == old(self).layers(),
                n == before.len(),
                n == self.layers@.len(),
                i <= n,
                forward_trace(layer_forward, before, self.layers@, xs, i as int),
                xs[0] == x,
                xs[i as int] == cur,
                forall|j: int| i <= j < n ==> self.layers@[j] == before[j],
                forall|l: L, x: X| layer_forward.requires((l, x)),
            decreases n - i,
        {
            let ghost pre = self.layers@;
            let ghost cur0 = cur;
            let r = Self::run_layer(&mut self.layers, i, cur, &layer_forward);
            assert(pre[i as int] == before[i as int]);
            match r {
                Ok(y) => {
                    proof {
                        xs = xs.push(y);
                        assert forall|j: int| 0 <= j < i + 1 implies #[trigger] layer_forward.ensures(
                            (before[j], xs[j]),
                            (self.layers@[j], Ok(xs[j + 1])),
                        ) by {
                            if j < i {
                                assert(self.layers@[j] == pre[j]);
                            }
                        }
                    }
                    cur = y;
                },
                Err(e) => {
                    assert(forward_trace(layer_forward, before, self.layers@, xs, i as int)) by {
                        assert forall|j: int| 0 <= j < i implies #[trigger] layer_forward.ensures(
                            (before[j], xs[j]),
                            (self.layers@[j], Ok(xs[j + 1])),
                        ) by {
                            assert(self.layers@[j] == pre[j]);
                        }
                    }
                    assert(layer_forward.ensures((before[i as int], xs[i as int]), (self.layers@[i as int], Err(e))));
                    return Err(e);
                },
            }
            i = i + 1;
        }
        Ok(cur)
    }

    /// Backward pass: hands `grad`, the gradient of the loss with respect to
    /// the model's output, to the last layer, each layer's `dL/dx` to the
    /// layer before it, and returns the first layer's `dL/dx`.
    /// `layer_backward` is one layer's backward step. Stops at the first layer
    /// that fails and returns its error: the layers before it are not called,
    /// so their caches are left as they were.
    pub fn backward<X, F: Fn(L, X) -> (L, Result<X, LayerError>)>(
        &mut self,
        grad: X,
        layer_backward: F,
    ) -> (r: Result<X, LayerError>)
        requires
            forall|l: L, x: X| layer_backward.requires((l, x)),
        ensures
            final(self).widths() == old(self).widths(),
            final(self).layers().len() == old(self).layers().len(),
            ({
                let n = old(self).layers().len() as int;
                let before = old(self).layers();
                let after = final(self).layers();
                match r {
                    Ok(dx) => exists|gs: Seq<X>|
                        {
                            &&& backward_trace(layer_backward, before, after, gs, 0, n)
                            &&& gs[n] == grad
                            &&& gs[0] == dx
                        },
                    Err(e) => exists|k: int, gs: Seq<X>|
                        {
                            &&& 0 <= k < n
                            &&& backward_trace(layer_backward, before, after, gs, k + 1, n)
                            &&& gs[n] == grad
                            &&& layer_backward.ensures((before[k], gs[k + 1]), (after[k], Err(e)))
                            &&& forall|i: int| 0 <= i < k ==> after[i] == before[i]
                        },
                }
            }),
    {
        let n = self.layers.len();
        let ghost before = self.layers@;
        // gs[j] for j >= i are known; the entries below i are placeholders.
        let ghost mut gs: Seq<X> = Seq::new((n + 1) as nat, |j: int| grad);
        let mut cur = grad;
        let mut i: usize = n;
        while i > 0
            invariant
                self.widths() == old(self).widths(),
                before == old(self).layers(),
                n == before.len(),
                n == self.layers@.len(),
                i <= n,
                backward_trace(layer_backward, before, self.layers@, gs, i as int, n as int),
                gs[n as int] == grad,
                gs[i as int] == cur,
                forall|j: int| 0 <= j < i ==> self.layers@[j] == before[j],
                forall|l: L, x: X| layer_backward.requires((l, x)),
            decreases i,
        {
            let k = i - 1;
            let ghost pre = self.layers@;
            let r = Self::run_layer(&mut self.layers, k, cur, &layer_backward);
            assert(pre[k as int] == before[k as int]);
            match r {
                Ok(dx) => {
                    proof {
                        gs = gs.update(k as int, dx);
                        assert forall|j: int| k <= j < n implies #[trigger] layer_backward.ensures(
                            (before[j], gs[j + 1]),
                            (self.layers@[j], Ok(gs[j])),
                        ) by {
                            if j > k {
                                assert(self.layers@[j] == pre[j]);
                            }
                        }
                    }
                    cur = dx;
                },
                Err(e) => {
                    assert(backward_trace(layer_backward, before, self.layers@, gs, i as int, n as int)) by {
                        assert forall|j: int| i <= j < n implies #[trigger] layer_backward.ensures(
                            (before[j], gs[j + 1]),
                            (self.layers@[j], Ok(gs[j])),
                        ) by {
                            assert(self.layers@[j] == pre[j]);
                        }
                    }
                    assert(layer_backward.ensures((before[k as int], gs[k + 1]), (self.layers@[k as int], Err(e))));
                    return Err(e);
                },
            }
            i = k;
        }
        Ok(cur)
    }

    /// Runs `f` on the layer at index `i` and puts the layer back.
    fn optimize_layer<F: Fn(L) -> (L, Result<(), LayerError>)>(layers: &mut Vec<L>, i: usize, f: &F) -> (r:
        Result<(), LayerError>)
        requires
            i < old(layers)@.len(),
            forall|l: L| f.requires((l,)),
        ensures
            final(layers)@.len() == old(layers)@.len(),
            final(layers)@ == old(layers)@.update(i as int, final(layers)@[i as int]),
            f.ensures((old(layers)@[i as int],), (final(layers)@[i as int], r)),
    {
        let l = layers.remove(i);
        let (l, r) = f(l);
        layers.insert(i, l);
        assert(layers@ =~= old(layers)@.update(i as int, layers@[i as int]));
        r
    }

    /// Optimize step: runs `layer_optimize`, one layer's optimize step, on
    /// every layer, first to last. Stops at the first layer that fails and
    /// returns its error; the layers after it are not called, and the layers
    /// before it keep their update.
    pub fn optimize<F: Fn(L) -> (L, Result<(), LayerError>)>(&mut self, layer_optimize: F) -> (r:
        Result<(), LayerError>)
        requires
            forall|l: L| layer_optimize.requires((l,)),
        ensures
            final(self).widths() == old(self).widths(),
            final(self).layers().len() == old(self).layers().len(),
            ({
                let n = old(self).layers().len() as int;
                let before = old(self).layers();
                let after = final(self).layers();
                match r {
                    Ok(_) => forall|i: int|
                        0 <= i < n ==> #[trigger] layer_optimize.ensures(
                            (before[i],),
                            (after[i], Ok::<(), LayerError>(())),
                        ),
                    Err(e) => exists|k: int|
                        {
                            &&& 0 <= k < n
                            &&& forall|i: int|
                                0 <= i < k ==> #[trigger] layer_optimize.ensures(
                                    (before[i],),
                                    (after[i], Ok::<(), LayerError>(())),
                                )
                            &&& layer_optimize.ensures((before[k],), (after[k], Err::<(), LayerError>(e)))
                            &&& forall|i: int| k < i < n ==> after[i] == before[i]
                        },
                }
            }),
    {
        let n = self.layers.len();
        let ghost before = self.layers@;
        let mut i: usize = 0;
        while i < n
            invariant
                self.widths() == old(self).widths(),
                before == old(self).layers(),
                n == before.len(),
                n == self.layers@.len(),
                i <= n,
                forall|j: int|
                    0 <= j < i ==> #[trigger] layer_optimize.ensures(
                        (before[j],),
                        (self.layers@[j], Ok::<(), LayerError>(())),
                    ),
                forall|j: int| i <= j < n ==> self.layers@[j] == before[j],
                forall|l: L| layer_optimize.requires((l,)),
            decreases n - i,
        {
            let ghost pre = self.layers@;
            let r = Self::optimize_layer(&mut self.layers, i, &layer_optimize);
            assert(pre[i as int] == before[i as int]);
            assert forall|j: int| 0 <= j < i implies #[trigger] layer_optimize.ensures(
                (before[j],),
                (self.layers@[j], Ok::<(), LayerError>(())),
            ) by {
                assert(self.layers@[j] == pre[j]);
            }
            match r {
                Ok(v) => {
                    assert(r == Ok::<(), LayerError>(()));
                },
                Err(e) => {
                    return Err(e);
                },
            }
            i = i + 1;
        }
        Ok(())
    }
}

} // verus!
