use nalgebra_mlp::cache::LayerCache;
use nalgebra_mlp::chain::{ChainError, LayerWidths};
use nalgebra_mlp::error::LayerError;
use nalgebra_mlp::sequential::Sequential;
use nalgebra_mlp::shape::Shape;

/// A layer that records each call in the value it hands on.
#[derive(Debug, Clone, PartialEq)]
struct Tracer {
    id: usize,
    calls: usize,
    fail: bool,
}

fn tracer(id: usize) -> Tracer {
    Tracer { id, calls: 0, fail: false }
}

fn step(mut l: Tracer, mut trace: Vec<usize>) -> (Tracer, Result<Vec<usize>, LayerError>) {
    l.calls += 1;
    if l.fail {
        return (l, Err(LayerError::MissingCache));
    }
    trace.push(l.id);
    (l, Ok(trace))
}

fn tracers(n: usize) -> Sequential<Tracer> {
    let widths = (0..n).map(|_| LayerWidths { input: 4, output: 4 }).collect();
    Sequential::new(4, 4, widths, (0..n).map(tracer).collect()).unwrap()
}

#[test]
fn forward_runs_layers_in_declared_order() {
    let mut m = tracers(3);
    assert_eq!(m.forward(vec![], step), Ok(vec![0, 1, 2]));
}

#[test]
fn backward_runs_layers_last_to_first() {
    let mut m = tracers(3);
    assert_eq!(m.backward(vec![], step), Ok(vec![2, 1, 0]));
    assert_eq!(m.len(), 3);
    for i in 0..3 {
        assert_eq!(m.layer(i).calls, 1);
    }
}

#[test]
fn backward_stops_at_first_failure() {
    let widths = (0..3).map(|_| LayerWidths { input: 4, output: 4 }).collect();
    let mut layers: Vec<Tracer> = (0..3).map(tracer).collect();
    layers[1].fail = true;
    let mut m = Sequential::new(4, 4, widths, layers).unwrap();
    assert_eq!(m.backward(vec![], step), Err(LayerError::MissingCache));
    assert_eq!(m.layer(2).calls, 1);
    assert_eq!(m.layer(1).calls, 1);
    assert_eq!(m.layer(0).calls, 0);
}

#[test]
fn forward_stops_at_first_failure() {
    let widths = (0..3).map(|_| LayerWidths { input: 4, output: 4 }).collect();
    let mut layers: Vec<Tracer> = (0..3).map(tracer).collect();
    layers[1].fail = true;
    let mut m = Sequential::new(4, 4, widths, layers).unwrap();
    assert_eq!(m.forward(vec![], step), Err(LayerError::MissingCache));
    assert_eq!(m.layer(0).calls, 1);
    assert_eq!(m.layer(2).calls, 0);
}

#[test]
fn optimize_runs_every_layer_once_and_stops_at_failure() {
    let mut m = tracers(3);
    let opt = |mut l: Tracer| {
        l.calls += 1;
        let r = if l.id == 1 { Err(LayerError::BatchSizeMismatch) } else { Ok(()) };
        (l, r)
    };
    assert_eq!(m.optimize(opt), Err(LayerError::BatchSizeMismatch));
    assert_eq!((m.layer(0).calls, m.layer(1).calls, m.layer(2).calls), (1, 1, 0));
    let mut m = tracers(3);
    assert_eq!(m.optimize(|mut l: Tracer| { l.calls += 1; (l, Ok(())) }), Ok(()));
    assert_eq!((m.layer(0).calls, m.layer(1).calls, m.layer(2).calls), (1, 1, 1));
}

#[test]
fn model_widths_are_checked_when_made() {
    let ws = vec![LayerWidths { input: 2, output: 3 }, LayerWidths { input: 4, output: 1 }];
    let r = Sequential::new(2, 1, ws, vec![tracer(0), tracer(1)]);
    assert_eq!(r.err().map(|_| ()), Some(()));
    let ws = vec![LayerWidths { input: 2, output: 3 }, LayerWidths { input: 4, output: 1 }];
    assert!(matches!(
        Sequential::new(2, 1, ws, vec![tracer(0), tracer(1)]),
        Err(ChainError::AdjacentWidthMismatch(0))
    ));
    let ws = vec![LayerWidths { input: 2, output: 1 }];
    assert!(matches!(
        Sequential::new(2, 1, ws, vec![tracer(0), tracer(1)]),
        Err(ChainError::LayerCountMismatch)
    ));
    let ws = vec![LayerWidths { input: 2, output: 5 }, LayerWidths { input: 5, output: 1 }];
    let m = Sequential::new(2, 1, ws, vec![tracer(0), tracer(1)]).unwrap();
    assert_eq!((m.input_width(), m.output_width()), (2, 1));
    assert_eq!(m.chain().output_shape(Shape::new(7, 2)), Ok(Shape::new(7, 1)));
}

/// A row-major matrix.
#[derive(Debug, Clone, PartialEq)]
struct Mat {
    rows: usize,
    cols: usize,
    data: Vec<f32>,
}

impl Mat {
    fn at(&self, i: usize, j: usize) -> f32 {
        self.data[i * self.cols + j]
    }
}

/// `y = x W + b` on top of the library's cache.
struct Affine {
    w: Mat,
    b: Vec<f32>,
    cache: LayerCache<Mat, (Mat, Vec<f32>)>,
}

impl Affine {
    fn new(w: Mat, b: Vec<f32>) -> Affine {
        let cache = LayerCache::new(w.rows, w.cols);
        Affine { w, b, cache }
    }

    fn widths(&self) -> LayerWidths {
        LayerWidths { input: self.w.rows, output: self.w.cols }
    }

    fn forward(mut self, x: Mat) -> (Affine, Result<Mat, LayerError>) {
        let out = match self.cache.record_forward(Shape::new(x.rows, x.cols), x.clone()) {
            Ok(s) => s,
            Err(e) => return (self, Err(e)),
        };
        let mut data = Vec::new();
        for i in 0..out.rows {
            for j in 0..out.cols {
                let s: f32 = (0..x.cols).map(|k| x.at(i, k) * self.w.at(k, j)).sum();
                data.push(s + self.b[j]);
            }
        }
        (self, Ok(Mat { rows: out.rows, cols: out.cols, data }))
    }

    fn backward(mut self, g: Mat) -> (Affine, Result<Mat, LayerError>) {
        let x = match self.cache.take_input(Shape::new(g.rows, g.cols)) {
            Ok(x) => x,
            Err(e) => return (self, Err(e)),
        };
        let (n_in, n_out) = (self.w.rows, self.w.cols);
        let mut dx = Vec::new();
        for i in 0..g.rows {
            for k in 0..n_in {
                dx.push((0..n_out).map(|j| g.at(i, j) * self.w.at(k, j)).sum());
            }
        }
        let mut dw = Vec::new();
        for k in 0..n_in {
            for j in 0..n_out {
                dw.push((0..g.rows).map(|i| x.at(i, k) * g.at(i, j)).sum());
            }
        }
        let db = (0..n_out).map(|j| (0..g.rows).map(|i| g.at(i, j)).sum()).collect();
        self.cache.store_gradient((Mat { rows: n_in, cols: n_out, data: dw }, db));
        (self, Ok(Mat { rows: g.rows, cols: n_in, data: dx }))
    }

    fn optimize(mut self, lr: f32) -> (Affine, Result<(), LayerError>) {
        if let Some((dw, db)) = self.cache.take_gradient() {
            for (w, d) in self.w.data.iter_mut().zip(dw.data.iter()) {
                *w -= lr * d;
            }
            for (b, d) in self.b.iter_mut().zip(db.iter()) {
                *b -= lr * d;
            }
        }
        (self, Ok(()))
    }
}

fn affine_model(layers: Vec<Affine>, input: usize, output: usize) -> Sequential<Affine> {
    let widths = layers.iter().map(Affine::widths).collect();
    Sequential::new(input, output, widths, layers).unwrap()
}

#[test]
fn affine_forward_sums_weighted_inputs() {
    let l = Affine::new(Mat { rows: 2, cols: 1, data: vec![1.0, 1.0] }, vec![0.0]);
    let mut m = affine_model(vec![l], 2, 1);
    let y = m.forward(Mat { rows: 1, cols: 2, data: vec![1.0, 1.0] }, Affine::forward);
    assert_eq!(y, Ok(Mat { rows: 1, cols: 1, data: vec![2.0] }));
}

#[test]
fn model_backward_twice_is_refused() {
    let l = Affine::new(Mat { rows: 2, cols: 1, data: vec![1.0, 1.0] }, vec![0.0]);
    let mut m = affine_model(vec![l], 2, 1);
    m.forward(Mat { rows: 1, cols: 2, data: vec![1.0, 1.0] }, Affine::forward).unwrap();
    let g = Mat { rows: 1, cols: 1, data: vec![1.0] };
    assert_eq!(m.backward(g.clone(), Affine::backward), Ok(Mat { rows: 1, cols: 2, data: vec![1.0, 1.0] }));
    assert_eq!(m.backward(g, Affine::backward), Err(LayerError::MissingCache));
}

#[test]
fn two_affine_layers_learn_a_linear_function() {
    // 2 -> 2 -> 1 with no nonlinearity, fitted to 3a + 2b by gradient descent.
    let l0 = Affine::new(Mat { rows: 2, cols: 2, data: vec![0.5, -0.2, 0.1, 0.3] }, vec![0.0, 0.0]);
    let l1 = Affine::new(Mat { rows: 2, cols: 1, data: vec![0.4, 0.6] }, vec![0.0]);
    let mut m = affine_model(vec![l0, l1], 2, 1);
    let xs = [(0.1f32, 0.9f32), (0.5, 0.2), (0.8, 0.7), (0.3, 0.4), (0.9, 0.1), (0.2, 0.6)];
    let mut first_loss = None;
    let mut last_loss = 0.0f32;
    for epoch in 0..2000 {
        let mut total = 0.0f32;
        for &(a, b) in xs.iter() {
            let y = m.forward(Mat { rows: 1, cols: 2, data: vec![a, b] }, Affine::forward).unwrap();
            let target = 3.0 * a + 2.0 * b;
            let diff = y.data[0] - target;
            total += diff * diff;
            m.backward(Mat { rows: 1, cols: 1, data: vec![2.0 * diff] }, Affine::backward).unwrap();
            m.optimize(|l: Affine| l.optimize(0.02)).unwrap();
        }
        if epoch == 0 {
            first_loss = Some(total);
        }
        last_loss = total;
    }
    assert!(last_loss < first_loss.unwrap() / 100.0);
    let y = m.forward(Mat { rows: 1, cols: 2, data: vec![0.10, 0.25] }, Affine::forward).unwrap();
    assert!((y.data[0] - 0.8).abs() < 0.05, "{}", y.data[0]);
}
