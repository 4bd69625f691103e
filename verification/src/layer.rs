//! The two layer kinds of the network: the dense (fully connected) layer
//! with its weights, biases and per-cycle gradient caches, and the
//! activation layer that applies a scalar function elementwise and caches
//! its output for the backward step.
//!
//! Each executable layer has a ghost model: the same state over plain
//! sequences, on which the forward, backward and update steps are spec
//! functions. The contracts of the executable steps say that the new state
//! and the returned matrix are exactly what the model functions give.

use vstd::prelude::*;
use crate::activation::{ScalarOp, spec_sigmoid_derivative, sigmoid_derivative};
use crate::matrix::{Matrix, dot_sum, col_sum, transpose_seq, map_seq};
use crate::scalar::{fadd, fmul, fneg, mul_bits, neg_bits, rand_unit_bits, unit_range};

verus! {

/// A nonempty rectangle: at least one row, at least one column, every row
/// of the same length.
pub open spec fn rect(m: Seq<Seq<u32>>) -> bool {
    &&& 1 <= m.len()
    &&& 1 <= m[0].len()
    &&& forall|i: int| 0 <= i < m.len() ==> (#[trigger] m[i]).len() == m[0].len()
}

/// A nonempty rectangle of exactly `r` rows and `c` columns.
pub open spec fn rect_shape(m: Seq<Seq<u32>>, r: int, c: int) -> bool {
    &&& m.len() == r
    &&& 1 <= r
    &&& 1 <= c
    &&& forall|i: int| 0 <= i < m.len() ==> (#[trigger] m[i]).len() == c
}

/// The state of a dense layer, over plain sequences.
pub ghost struct DenseModel {
    pub in_size: int,
    pub out_size: int,
    pub weights: Seq<Seq<u32>>,
    pub biases: Seq<Seq<u32>>,
    pub last_input: Option<Seq<Seq<u32>>>,
    pub grad_weights: Option<Seq<Seq<u32>>>,
    pub grad_biases: Option<Seq<Seq<u32>>>,
}

/// The state of an activation layer, over plain values.
pub ghost struct ActModel {
    pub op: ScalarOp,
    pub last_output: Option<Seq<Seq<u32>>>,
}

/// The state of a layer of either kind.
pub ghost enum LayerModel {
    Dense(DenseModel),
    Activation(ActModel),
}

impl DenseModel {
    /// Weights of shape in by out, biases a row of out entries, caches of
    /// the matching shapes where present.
    pub open spec fn wf(&self) -> bool {
        &&& 1 <= self.in_size
        &&& 1 <= self.out_size
        &&& rect_shape(self.weights, self.in_size, self.out_size)
        &&& rect_shape(self.biases, 1, self.out_size)
        &&& match self.last_input {
            Some(x) => rect(x) && x[0].len() == self.in_size,
            None => true,
        }
        &&& match self.grad_weights {
            Some(g) => rect_shape(g, self.in_size, self.out_size),
            None => true,
        }
        &&& match self.grad_biases {
            Some(g) => rect_shape(g, 1, self.out_size),
            None => true,
        }
    }

    /// The affine map: the product with the weights, then the bias row
    /// added to every row.
    pub open spec fn fwd_out(&self, x: Seq<Seq<u32>>) -> Seq<Seq<u32>> {
        Seq::new(
            x.len(),
            |i: int|
                Seq::new(
                    self.out_size as nat,
                    |j: int| fadd(dot_sum(x, self.weights, i, j, self.in_size), self.biases[0][j]),
                ),
        )
    }

    /// The weight gradient: the transposed input times the output gradient.
    pub open spec fn bwd_grad_weights(&self, x: Seq<Seq<u32>>, g: Seq<Seq<u32>>) -> Seq<Seq<u32>> {
        Seq::new(
            self.in_size as nat,
            |i: int|
                Seq::new(
                    self.out_size as nat,
                    |j: int| dot_sum(transpose_seq(x, self.in_size), g, i, j, x.len() as int),
                ),
        )
    }

    /// The bias gradient: the column sums of the output gradient.
    pub open spec fn bwd_grad_biases(&self, g: Seq<Seq<u32>>) -> Seq<Seq<u32>> {
        Seq::new(
            1,
            |i: int| Seq::new(self.out_size as nat, |j: int| col_sum(g, j, g.len() as int)),
        )
    }

    /// The state after a backward step: the input and both gradients cached,
    /// parameters untouched.
    pub open spec fn bwd_next(&self, x: Seq<Seq<u32>>, g: Seq<Seq<u32>>) -> DenseModel {
        DenseModel {
            in_size: self.in_size,
            out_size: self.out_size,
            weights: self.weights,
            biases: self.biases,
            last_input: Some(x),
            grad_weights: Some(self.bwd_grad_weights(x, g)),
            grad_biases: Some(self.bwd_grad_biases(g)),
        }
    }

    /// The gradient handed to the previous layer: the output gradient times
    /// the transposed weights.
    pub open spec fn bwd_out(&self, g: Seq<Seq<u32>>) -> Seq<Seq<u32>> {
        Seq::new(
            g.len(),
            |i: int|
                Seq::new(
                    self.in_size as nat,
                    |j: int|
                        dot_sum(
                            g,
                            transpose_seq(self.weights, self.out_size),
                            i,
                            j,
                            self.out_size,
                        ),
                ),
        )
    }

    /// An update step needs the gradients a backward step cached; calling
    /// it on a fresh layer is a cache fault.
    pub open spec fn upd_ok(&self) -> bool {
        self.grad_weights is Some && self.grad_biases is Some
    }

    /// The state after an update: each parameter moves by minus the
    /// learning rate times its cached gradient, and the caches are
    /// consumed, returning the layer to fresh.
    pub open spec fn upd_next(&self, lr: u32) -> DenseModel {
        DenseModel {
            in_size: self.in_size,
            out_size: self.out_size,
            weights: Seq::new(
                self.weights.len(),
                |i: int|
                    Seq::new(
                        self.out_size as nat,
                        |j: int| fadd(self.weights[i][j], fmul(fneg(lr), (self.grad_weights->0)[i][j])),
                    ),
            ),
            biases: Seq::new(
                self.biases.len(),
                |i: int|
                    Seq::new(
                        self.out_size as nat,
                        |j: int| fadd(self.biases[i][j], fmul(fneg(lr), (self.grad_biases->0)[i][j])),
                    ),
            ),
            last_input: None,
            grad_weights: None,
            grad_biases: None,
        }
    }
}

impl ActModel {
    pub open spec fn wf(&self) -> bool {
        match self.last_output {
            Some(y) => rect(y),
            None => true,
        }
    }

    /// The stored scalar function applied to every entry.
    pub open spec fn fwd_out(&self, x: Seq<Seq<u32>>) -> Seq<Seq<u32>> {
        map_seq(x, self.op)
    }

    /// The state after a forward step: the output cached.
    pub open spec fn fwd_next(&self, x: Seq<Seq<u32>>) -> ActModel {
        ActModel { op: self.op, last_output: Some(map_seq(x, self.op)) }
    }

    /// A backward step needs a cached output of the same shape as the
    /// incoming gradient, and the stored function must be the sigmoid: its
    /// derivative is the only one this layer can read off the cached
    /// output, the rectifiers' needing the pre-activation input instead.
    pub open spec fn bwd_ok(&self, g: Seq<Seq<u32>>) -> bool {
        &&& self.op is Sigmoid
        &&& match self.last_output {
            Some(y) => rect(y) && rect(g) && y.len() == g.len() && y[0].len() == g[0].len(),
            None => false,
        }
    }

    /// The gradient handed back: the incoming gradient times the sigmoid
    /// derivative of the cached output, entry by entry.
    pub open spec fn bwd_out(&self, g: Seq<Seq<u32>>) -> Seq<Seq<u32>> {
        let y = self.last_output->0;
        Seq::new(
            g.len(),
            |i: int|
                Seq::new(g[0].len(), |j: int| fmul(g[i][j], spec_sigmoid_derivative(y[i][j]))),
        )
    }
}

impl LayerModel {
    pub open spec fn wf(&self) -> bool {
        match self {
            LayerModel::Dense(m) => m.wf(),
            LayerModel::Activation(m) => m.wf(),
        }
    }

    /// Whether the layer accepts inputs of `c` columns.
    pub open spec fn in_ok(&self, c: int) -> bool {
        match self {
            LayerModel::Dense(m) => c == m.in_size,
            LayerModel::Activation(_) => true,
        }
    }

    /// The width of the layer's output given an input of `c` columns.
    pub open spec fn out_cols(&self, c: int) -> int {
        match self {
            LayerModel::Dense(m) => m.out_size,
            LayerModel::Activation(_) => c,
        }
    }

    /// What the forward step returns.
    pub open spec fn fwd_out(&self, x: Seq<Seq<u32>>) -> Seq<Seq<u32>> {
        match self {
            LayerModel::Dense(m) => m.fwd_out(x),
            LayerModel::Activation(m) => m.fwd_out(x),
        }
    }

    /// The state after the forward step: a dense layer is untouched, an
    /// activation layer caches its output.
    pub open spec fn fwd_next(&self, x: Seq<Seq<u32>>) -> LayerModel {
        match self {
            LayerModel::Dense(m) => LayerModel::Dense(*m),
            LayerModel::Activation(m) => LayerModel::Activation(m.fwd_next(x)),
        }
    }

    /// What a backward step needs of the recorded input and the incoming
    /// gradient.
    pub open spec fn bwd_ok(&self, x: Seq<Seq<u32>>, g: Seq<Seq<u32>>) -> bool {
        match self {
            LayerModel::Dense(m) => rect(x) && rect(g) && x[0].len() == m.in_size && g[0].len()
                == m.out_size && g.len() == x.len(),
            LayerModel::Activation(m) => m.bwd_ok(g),
        }
    }

    /// The gradient handed to the previous layer.
    pub open spec fn bwd_out(&self, x: Seq<Seq<u32>>, g: Seq<Seq<u32>>) -> Seq<Seq<u32>> {
        match self {
            LayerModel::Dense(m) => m.bwd_out(g),
            LayerModel::Activation(m) => m.bwd_out(g),
        }
    }

    /// The width of the gradient handed back: a dense layer's input width,
    /// an activation layer's unchanged width.
    pub open spec fn bwd_cols(&self, g: Seq<Seq<u32>>) -> int {
        match self {
            LayerModel::Dense(m) => m.in_size,
            LayerModel::Activation(_) => g[0].len() as int,
        }
    }

    /// The state after the backward step: a dense layer caches its
    /// gradients, an activation layer is untouched.
    pub open spec fn bwd_next(&self, x: Seq<Seq<u32>>, g: Seq<Seq<u32>>) -> LayerModel {
        match self {
            LayerModel::Dense(m) => LayerModel::Dense(m.bwd_next(x, g)),
            LayerModel::Activation(m) => LayerModel::Activation(*m),
        }
    }

    /// Whether an update step may run: a dense layer needs its cached
    /// gradients, an activation layer has nothing to train.
    pub open spec fn upd_ok(&self) -> bool {
        match self {
            LayerModel::Dense(m) => m.upd_ok(),
            LayerModel::Activation(_) => true,
        }
    }

    /// The state after an update step: only a dense layer moves, and its
    /// caches are consumed.
    pub open spec fn upd_next(&self, lr: u32) -> LayerModel {
        match self {
            LayerModel::Dense(m) => LayerModel::Dense(m.upd_next(lr)),
            LayerModel::Activation(m) => LayerModel::Activation(*m),
        }
    }
}

/// A fully connected layer. The caches hold what one forward and backward
/// cycle records for the following update.
pub struct DenseLayer {
    pub input_size: usize,
    pub output_size: usize,
    pub weights: Matrix,
    pub biases: Matrix,
    pub last_input: Option<Matrix>,
    pub grad_weights: Option<Matrix>,
    pub grad_biases: Option<Matrix>,
}

impl View for DenseLayer {
    type V = DenseModel;

    open spec fn view(&self) -> DenseModel {
        DenseModel {
            in_size: self.input_size as int,
            out_size: self.output_size as int,
            weights: self.weights@,
            biases: self.biases@,
            last_input: match self.last_input {
                Some(m) => Some(m@),
                None => None,
            },
            grad_weights: match self.grad_weights {
                Some(m) => Some(m@),
                None => None,
            },
            grad_biases: match self.grad_biases {
                Some(m) => Some(m@),
                None => None,
            },
        }
    }
}

impl DenseLayer {
    /// The model state is well shaped and each stored matrix is internally
    /// consistent.
    pub open spec fn wf(&self) -> bool {
        &&& self@.wf()
        &&& self.weights.wf()
        &&& self.biases.wf()
        &&& match self.last_input {
            Some(m) => m.wf(),
            None => true,
        }
        &&& match self.grad_weights {
            Some(m) => m.wf(),
            None => true,
        }
        &&& match self.grad_biases {
            Some(m) => m.wf(),
            None => true,
        }
    }

    /// A fresh layer: weights drawn uniformly from the unit range, biases
    /// zero, caches empty.
    pub fn new(input_size: usize, output_size: usize) -> (r: DenseLayer)
        requires
            1 <= input_size,
            1 <= output_size,
        ensures
            r.wf(),
            r.input_size == input_size,
            r.output_size == output_size,
            forall|i: int, j: int|
                0 <= i < input_size && 0 <= j < output_size ==> unit_range(
                    #[trigger] r.weights@[i][j],
                ),
            forall|j: int| 0 <= j < output_size ==> r.biases@[0][j] == crate::scalar::F_ZERO,
            r.last_input is None,
            r.grad_weights is None,
            r.grad_biases is None,
    {
        let mut data: Vec<Vec<u32>> = Vec::new();
        let mut i: usize = 0;
        while i < input_size
            invariant
                i <= input_size,
                data@.len() == i as int,
                forall|p: int| 0 <= p < i as int ==> (#[trigger] data@[p])@.len() == output_size,
                forall|p: int, q: int|
                    0 <= p < i as int && 0 <= q < output_size ==> unit_range(
                        #[trigger] data@[p]@[q],
                    ),
            decreases input_size - i,
        {
            let mut row: Vec<u32> = Vec::new();
            let mut j: usize = 0;
            while j < output_size
                invariant
                    j <= output_size,
                    row@.len() == j as int,
                    forall|q: int| 0 <= q < j as int ==> unit_range(#[trigger] row@[q]),
                decreases output_size - j,
            {
                row.push(rand_unit_bits());
                j = j + 1;
            }
            data.push(row);
            i = i + 1;
        }
        let weights = Matrix::from_vec(data);
        let biases = Matrix::new(1, output_size);
        DenseLayer {
            input_size,
            output_size,
            weights,
            biases,
            last_input: None,
            grad_weights: None,
            grad_biases: None,
        }
    }

    /// Replace the weights; the shape must stay in by out.
    pub fn set_weights(&mut self, weights: Matrix)
        requires
            weights.is_shape(old(self).input_size as int, old(self).output_size as int),
        ensures
            *final(self) == (DenseLayer { weights, ..*old(self) }),
    {
        self.weights = weights;
    }

    /// Replace the bias row; it must stay one by out.
    pub fn set_biases(&mut self, biases: Matrix)
        requires
            biases.is_shape(1, old(self).output_size as int),
        ensures
            *final(self) == (DenseLayer { biases, ..*old(self) }),
    {
        self.biases = biases;
    }

    /// The affine map over a batch of rows. The layer itself is untouched.
    pub fn forward(&mut self, input: &Matrix) -> (r: Matrix)
        requires
            old(self).wf(),
            input.wf(),
            input.spec_cols() == old(self).input_size,
        ensures
            *final(self) == *old(self),
            r.is_shape(input@.len() as int, old(self).output_size as int),
            r@ == old(self)@.fwd_out(input@),
    {
        proof {
            assert(self.weights@[0].len() == self@.out_size);
            assert(self.weights@[0].len() == self.weights.spec_cols());
            assert(self.biases@[0].len() == self@.out_size);
            assert(self.biases@[0].len() == self.biases.spec_cols());
        }
        let d = input.dot(&self.weights);
        let m = d.map_rows(&self.biases);
        proof {
            assert forall|p: int| 0 <= p < input@.len() as int implies #[trigger] m@[p] =~= old(
                self,
            )@.fwd_out(input@)[p] by {}
            assert(m@ =~= old(self)@.fwd_out(input@));
        }
        m
    }

    /// One backward step: cache the recorded input, the weight gradient and
    /// the bias gradient, and hand back the gradient for the previous layer.
    pub fn backward(&mut self, input: &Matrix, grad_output: &Matrix) -> (r: Matrix)
        requires
            old(self).wf(),
            input.wf(),
            grad_output.wf(),
            input.spec_cols() == old(self).input_size,
            grad_output.spec_cols() == old(self).output_size,
            grad_output@.len() == input@.len(),
        ensures
            final(self).wf(),
            final(self)@ == old(self)@.bwd_next(input@, grad_output@),
            r.is_shape(grad_output@.len() as int, old(self).input_size as int),
            r@ == old(self)@.bwd_out(grad_output@),
    {
        proof {
            assert(self.weights@[0].len() == self@.out_size);
            assert(self.weights@[0].len() == self.weights.spec_cols());
            assert(input@[0].len() == input.spec_cols());
            assert(grad_output@[0].len() == grad_output.spec_cols());
        }
        self.last_input = Some(input.clone());
        let t = input.transpose();
        let gw = t.dot(grad_output);
        let gb = grad_output.sum_rows();
        proof {
            assert(gw@ =~~= old(self)@.bwd_grad_weights(input@, grad_output@));
            assert(gb@ =~~= old(self)@.bwd_grad_biases(grad_output@));
        }
        self.grad_weights = Some(gw);
        self.grad_biases = Some(gb);
        let wt = self.weights.transpose();
        let r = grad_output.dot(&wt);
        proof {
            assert(r@ =~~= old(self)@.bwd_out(grad_output@));
            assert(final(self)@ == old(self)@.bwd_next(input@, grad_output@));
        }
        r
    }

    /// One gradient-descent step on the gradients the last backward step
    /// cached; the step consumes them, returning the layer to fresh.
    pub fn update(&mut self, learning_rate: u32)
        requires
            old(self).wf(),
            old(self)@.upd_ok(),
        ensures
            final(self).wf(),
            final(self)@ == old(self)@.upd_next(learning_rate),
    {
        let step = neg_bits(learning_rate);
        let gw = self.grad_weights.as_ref().unwrap();
        proof {
            assert(gw@[0].len() == gw.spec_cols());
            assert(gw@[0].len() == self@.out_size);
            assert(self.weights@[0].len() == self.weights.spec_cols());
            assert(self.weights@[0].len() == self@.out_size);
        }
        let delta = gw.map(ScalarOp::Scale(step));
        let w2 = self.weights.add(&delta);
        proof {
            assert(w2@ =~~= old(self)@.upd_next(learning_rate).weights);
        }
        self.weights = w2;
        let gb = self.grad_biases.as_ref().unwrap();
        proof {
            assert(gb@[0].len() == gb.spec_cols());
            assert(gb@[0].len() == self@.out_size);
            assert(self.biases@[0].len() == self.biases.spec_cols());
            assert(self.biases@[0].len() == self@.out_size);
        }
        let delta_b = gb.map(ScalarOp::Scale(step));
        let b2 = self.biases.add(&delta_b);
        proof {
            assert(b2@ =~~= old(self)@.upd_next(learning_rate).biases);
        }
        self.biases = b2;
        self.last_input = None;
        self.grad_weights = None;
        self.grad_biases = None;
    }
}

impl DenseLayer {
    /// Redraw every weight uniformly from the unit range; sizes, biases and
    /// caches stay as they are, and every redrawn weight lies at or above
    /// minus one and strictly below one.
    pub fn randomize_weights(&mut self)
        requires
            old(self).wf(),
        ensures
            final(self).wf(),
            final(self)@.in_size == old(self)@.in_size,
            final(self)@.out_size == old(self)@.out_size,
            final(self)@.biases == old(self)@.biases,
            final(self)@.last_input == old(self)@.last_input,
            final(self)@.grad_weights == old(self)@.grad_weights,
            final(self)@.grad_biases == old(self)@.grad_biases,
            forall|i: int, j: int|
                0 <= i < final(self)@.weights.len() && 0 <= j < final(self)@.weights[i].len()
                    ==> unit_range(#[trigger] final(self)@.weights[i][j]),
    {
        let rows = self.weights.rows();
        let cols = self.weights.cols();
        let mut i: usize = 0;
        while i < rows
            invariant
                self.wf(),
                rows == self.weights@.len(),
                cols == self.weights.spec_cols(),
                i <= rows,
                self.input_size == old(self).input_size,
                self.output_size == old(self).output_size,
                self.biases == old(self).biases,
                self.last_input == old(self).last_input,
                self.grad_weights == old(self).grad_weights,
                self.grad_biases == old(self).grad_biases,
                forall|p: int, q: int|
                    0 <= p < i as int && 0 <= q < cols ==> unit_range(
                        #[trigger] self.weights@[p][q],
                    ),
            decreases rows - i,
        {
            let mut j: usize = 0;
            while j < cols
                invariant
                    self.wf(),
                    rows == self.weights@.len(),
                    cols == self.weights.spec_cols(),
                    i < rows,
                    j <= cols,
                    self.input_size == old(self).input_size,
                    self.output_size == old(self).output_size,
                    self.biases == old(self).biases,
                    self.last_input == old(self).last_input,
                    self.grad_weights == old(self).grad_weights,
                    self.grad_biases == old(self).grad_biases,
                    forall|p: int, q: int|
                        0 <= p < i as int && 0 <= q < cols ==> unit_range(
                            #[trigger] self.weights@[p][q],
                        ),
                    forall|q: int|
                        0 <= q < j as int ==> unit_range(#[trigger] self.weights@[i as int][q]),
                decreases cols - j,
            {
                let v = rand_unit_bits();
                self.weights.set(i, j, v);
                j = j + 1;
            }
            i = i + 1;
        }
    }

    /// Set every weight to zero; sizes, biases and caches stay as they are.
    pub fn zero_weights(&mut self)
        requires
            old(self).wf(),
        ensures
            final(self).wf(),
            final(self)@.in_size == old(self)@.in_size,
            final(self)@.out_size == old(self)@.out_size,
            final(self)@.biases == old(self)@.biases,
            final(self)@.last_input == old(self)@.last_input,
            final(self)@.grad_weights == old(self)@.grad_weights,
            final(self)@.grad_biases == old(self)@.grad_biases,
            forall|i: int, j: int|
                0 <= i < final(self)@.weights.len() && 0 <= j < final(self)@.weights[i].len()
                    ==> #[trigger] final(self)@.weights[i][j] == crate::scalar::F_ZERO,
    {
        let rows = self.weights.rows();
        let cols = self.weights.cols();
        let mut i: usize = 0;
        while i < rows
            invariant
                self.wf(),
                rows == self.weights@.len(),
                cols == self.weights.spec_cols(),
                i <= rows,
                self.input_size == old(self).input_size,
                self.output_size == old(self).output_size,
                self.biases == old(self).biases,
                self.last_input == old(self).last_input,
                self.grad_weights == old(self).grad_weights,
                self.grad_biases == old(self).grad_biases,
                forall|p: int, q: int|
                    0 <= p < i as int && 0 <= q < cols ==> #[trigger] self.weights@[p][q]
                        == crate::scalar::F_ZERO,
            decreases rows - i,
        {
            let mut j: usize = 0;
            while j < cols
                invariant
                    self.wf(),
                    rows == self.weights@.len(),
                    cols == self.weights.spec_cols(),
                    i < rows,
                    j <= cols,
                    self.input_size == old(self).input_size,
                    self.output_size == old(self).output_size,
                    self.biases == old(self).biases,
                    self.last_input == old(self).last_input,
                    self.grad_weights == old(self).grad_weights,
                    self.grad_biases == old(self).grad_biases,
                    forall|p: int, q: int|
                        0 <= p < i as int && 0 <= q < cols ==> #[trigger] self.weights@[p][q]
                            == crate::scalar::F_ZERO,
                    forall|q: int|
                        0 <= q < j as int ==> #[trigger] self.weights@[i as int][q]
                            == crate::scalar::F_ZERO,
                decreases cols - j,
            {
                self.weights.set(i, j, crate::scalar::F_ZERO);
                j = j + 1;
            }
            i = i + 1;
        }
    }
}

/// An elementwise layer: a stored scalar function and the output cache the
/// backward step reads.
pub struct ActivationLayer {
    activation_fn: ScalarOp,
    last_output: Option<Matrix>,
}

impl View for ActivationLayer {
    type V = ActModel;

    closed spec fn view(&self) -> ActModel {
        ActModel {
            op: self.activation_fn,
            last_output: match self.last_output {
                Some(m) => Some(m@),
                None => None,
            },
        }
    }
}

impl ActivationLayer {
    pub open spec fn wf(&self) -> bool {
        &&& self@.wf()
        &&& self.cache_wf()
    }

    /// The cached matrix, where there is one, is internally consistent.
    pub closed spec fn cache_wf(&self) -> bool {
        match self.last_output {
            Some(m) => m.wf(),
            None => true,
        }
    }

    /// A fresh layer with an empty cache.
    pub fn new(activation_fn: ScalarOp) -> (r: ActivationLayer)
        ensures
            r.wf(),
            r@.op == activation_fn,
            r@.last_output is None,
    {
        ActivationLayer { activation_fn, last_output: None }
    }

    /// Apply the stored function to every entry and cache the result.
    pub fn forward(&mut self, input: &Matrix) -> (r: Matrix)
        requires
            input.wf(),
        ensures
            final(self).wf(),
            final(self)@ == old(self)@.fwd_next(input@),
            r.is_shape(input@.len() as int, input.spec_cols() as int),
            r@ == old(self)@.fwd_out(input@),
    {
        let out = input.map(self.activation_fn);
        self.last_output = Some(out.clone());
        out
    }

    /// One backward step, read off the cached output: the incoming gradient
    /// times the sigmoid derivative of that output, entry by entry. The
    /// recorded input plays no part here.
    pub fn backward(&mut self, _input: &Matrix, grad_output: &Matrix) -> (r: Matrix)
        requires
            old(self).wf(),
            grad_output.wf(),
            old(self)@.bwd_ok(grad_output@),
        ensures
            *final(self) == *old(self),
            r.is_shape(grad_output@.len() as int, grad_output.spec_cols() as int),
            r@ == old(self)@.bwd_out(grad_output@),
    {
        let cached = self.last_output.as_ref().unwrap();
        let rows = grad_output.rows();
        let cols = grad_output.cols();
        let mut data: Vec<Vec<u32>> = Vec::new();
        let mut i: usize = 0;
        while i < rows
            invariant
                self.wf(),
                grad_output.wf(),
                self@.bwd_ok(grad_output@),
                self@.last_output == Some(cached@),
                cached.wf(),
                cached@.len() == grad_output@.len(),
                cached.spec_cols() == grad_output.spec_cols(),
                rows == grad_output@.len(),
                cols == grad_output.spec_cols(),
                i <= rows,
                data@.len() == i as int,
                forall|p: int| 0 <= p < i as int ==> (#[trigger] data@[p])@.len() == cols,
                forall|p: int, q: int|
                    0 <= p < i as int && 0 <= q < cols ==> #[trigger] data@[p]@[q] == fmul(
                        grad_output@[p][q],
                        spec_sigmoid_derivative(cached@[p][q]),
                    ),
            decreases rows - i,
        {
            let mut row: Vec<u32> = Vec::new();
            let mut j: usize = 0;
            while j < cols
                invariant
                    self.wf(),
                    grad_output.wf(),
                    cached.wf(),
                    cached@.len() == grad_output@.len(),
                    cached.spec_cols() == grad_output.spec_cols(),
                    rows == grad_output@.len(),
                    cols == grad_output.spec_cols(),
                    i < rows,
                    j <= cols,
                    row@.len() == j as int,
                    forall|q: int|
                        0 <= q < j as int ==> #[trigger] row@[q] == fmul(
                            grad_output@[i as int][q],
                            spec_sigmoid_derivative(cached@[i as int][q]),
                        ),
                decreases cols - j,
            {
                row.push(mul_bits(grad_output.get(i, j), sigmoid_derivative(cached.get(i, j))));
                j = j + 1;
            }
            data.push(row);
            i = i + 1;
        }
        let m = Matrix::from_vec(data);
        proof {
            assert forall|p: int| 0 <= p < rows as int implies #[trigger] m@[p] =~= self@.bwd_out(
                grad_output@,
            )[p] by {}
            assert(m@ =~= self@.bwd_out(grad_output@));
        }
        m
    }

    /// An activation layer has nothing to train.
    pub fn update(&mut self, _learning_rate: u32)
        ensures
            *final(self) == *old(self),
    {
    }
}

/// A layer of either kind, the closed set the model dispatches over.
pub enum LayerEnum {
    Dense(DenseLayer),
    Activation(ActivationLayer),
}

impl View for LayerEnum {
    type V = LayerModel;

    open spec fn view(&self) -> LayerModel {
        match self {
            LayerEnum::Dense(l) => LayerModel::Dense(l@),
            LayerEnum::Activation(l) => LayerModel::Activation(l@),
        }
    }
}

impl LayerEnum {
    pub open spec fn wf(&self) -> bool {
        match self {
            LayerEnum::Dense(l) => l.wf(),
            LayerEnum::Activation(l) => l.wf(),
        }
    }

    /// The forward step of whichever kind this layer is.
    pub fn forward(&mut self, input: &Matrix) -> (r: Matrix)
        requires
            old(self).wf(),
            input.wf(),
            old(self)@.in_ok(input.spec_cols() as int),
        ensures
            final(self).wf(),
            final(self)@ == old(self)@.fwd_next(input@),
            r.is_shape(input@.len() as int, old(self)@.out_cols(input.spec_cols() as int)),
            r@ == old(self)@.fwd_out(input@),
    {
        match self {
            LayerEnum::Dense(layer) => layer.forward(input),
            LayerEnum::Activation(layer) => layer.forward(input),
        }
    }

    /// The backward step of whichever kind this layer is, paired with the
    /// input that was recorded for it.
    pub fn backward(&mut self, input: &Matrix, grad_output: &Matrix) -> (r: Matrix)
        requires
            old(self).wf(),
            input.wf(),
            grad_output.wf(),
            old(self)@.bwd_ok(input@, grad_output@),
        ensures
            final(self).wf(),
            final(self)@ == old(self)@.bwd_next(input@, grad_output@),
            r.is_shape(grad_output@.len() as int, old(self)@.bwd_cols(grad_output@)),
            r@ == old(self)@.bwd_out(input@, grad_output@),
    {
        match self {
            LayerEnum::Dense(layer) => layer.backward(input, grad_output),
            LayerEnum::Activation(layer) => layer.backward(input, grad_output),
        }
    }

    /// The update step of whichever kind this layer is; a dense layer
    /// consumes the gradients its backward step cached.
    pub fn update(&mut self, learning_rate: u32)
        requires
            old(self).wf(),
            old(self)@.upd_ok(),
        ensures
            final(self).wf(),
            final(self)@ == old(self)@.upd_next(learning_rate),
    {
        match self {
            LayerEnum::Dense(layer) => layer.update(learning_rate),
            LayerEnum::Activation(layer) => layer.update(learning_rate),
        }
    }
}

} // verus!
