//! The model: an ordered sequence of layers. The forward sweep folds an
//! input through the layers in index order; the backward sweep walks them
//! in exact reverse order, pairing each layer with the input recorded for
//! it; the update sweep moves every layer's parameters. Each sweep's
//! contract states the new layer states and the returned matrix as spec
//! functions of the old state.

use vstd::prelude::*;
use crate::layer::{LayerEnum, LayerModel, DenseModel, rect, rect_shape};
use crate::matrix::{map_seq, map_row};
use crate::matrix::Matrix;
use crate::scalar::{F_ZERO, unit_range};

verus! {

/// The views of a sequence of matrices.
pub open spec fn mat_views(ms: Seq<Matrix>) -> Seq<Seq<Seq<u32>>> {
    ms.map_values(|m: Matrix| m@)
}

/// Every layer state is well shaped.
pub open spec fn layers_wf(s: Seq<LayerModel>) -> bool {
    forall|k: int| 0 <= k < s.len() ==> (#[trigger] s[k]).wf()
}

/// The width of the pipeline's output, given an input of `c` columns.
pub open spec fn pipe_out_cols(s: Seq<LayerModel>, c: int) -> int
    decreases s.len(),
{
    if s.len() == 0 {
        c
    } else {
        s.last().out_cols(pipe_out_cols(s.drop_last(), c))
    }
}

/// Each layer accepts the width the one before it produces, starting from
/// an input of `c` columns.
pub open spec fn pipe_ok(s: Seq<LayerModel>, c: int) -> bool
    decreases s.len(),
{
    if s.len() == 0 {
        true
    } else {
        pipe_ok(s.drop_last(), c) && s.last().in_ok(pipe_out_cols(s.drop_last(), c))
    }
}

/// The output of the forward sweep: the input folded through every layer
/// in index order.
pub open spec fn fwd_out_seq(s: Seq<LayerModel>, x: Seq<Seq<u32>>) -> Seq<Seq<u32>>
    decreases s.len(),
{
    if s.len() == 0 {
        x
    } else {
        s.last().fwd_out(fwd_out_seq(s.drop_last(), x))
    }
}

/// The layer states after the forward sweep.
pub open spec fn fwd_next_seq(s: Seq<LayerModel>, x: Seq<Seq<u32>>) -> Seq<LayerModel>
    decreases s.len(),
{
    if s.len() == 0 {
        s
    } else {
        fwd_next_seq(s.drop_last(), x).push(s.last().fwd_next(fwd_out_seq(s.drop_last(), x)))
    }
}

/// Whether the backward sweep can run: walking the layers from the last to
/// the first, each accepts its recorded input and the gradient the layer
/// after it handed back.
pub open spec fn bwd_ok_seq(s: Seq<LayerModel>, xs: Seq<Seq<Seq<u32>>>, g: Seq<Seq<u32>>) -> bool
    decreases s.len(),
{
    if s.len() == 0 {
        true
    } else {
        s.last().bwd_ok(xs.last(), g) && bwd_ok_seq(
            s.drop_last(),
            xs.drop_last(),
            s.last().bwd_out(xs.last(), g),
        )
    }
}

/// The gradient that leaves the backward sweep at the front of the model.
pub open spec fn bwd_out_seq(s: Seq<LayerModel>, xs: Seq<Seq<Seq<u32>>>, g: Seq<Seq<u32>>) -> Seq<
    Seq<u32>,
>
    decreases s.len(),
{
    if s.len() == 0 {
        g
    } else {
        bwd_out_seq(s.drop_last(), xs.drop_last(), s.last().bwd_out(xs.last(), g))
    }
}

/// The layer states after the backward sweep.
pub open spec fn bwd_next_seq(s: Seq<LayerModel>, xs: Seq<Seq<Seq<u32>>>, g: Seq<Seq<u32>>) -> Seq<
    LayerModel,
>
    decreases s.len(),
{
    if s.len() == 0 {
        s
    } else {
        bwd_next_seq(s.drop_last(), xs.drop_last(), s.last().bwd_out(xs.last(), g)).push(
            s.last().bwd_next(xs.last(), g),
        )
    }
}

/// The layer states after the update sweep.
pub open spec fn upd_seq(s: Seq<LayerModel>, lr: u32) -> Seq<LayerModel> {
    Seq::new(s.len(), |k: int| s[k].upd_next(lr))
}

/// Every layer is ready for its update step: each dense layer holds the
/// gradients its backward step cached.
pub open spec fn upd_ok_seq(s: Seq<LayerModel>) -> bool {
    forall|k: int| 0 <= k < s.len() ==> (#[trigger] s[k]).upd_ok()
}

/// After the backward sweep every layer is ready for its update step.
pub proof fn lemma_bwd_next_upd_ok(s: Seq<LayerModel>, xs: Seq<Seq<Seq<u32>>>, g: Seq<Seq<u32>>)
    ensures
        upd_ok_seq(bwd_next_seq(s, xs, g)),
    decreases s.len(),
{
    if s.len() > 0 {
        let g2 = s.last().bwd_out(xs.last(), g);
        lemma_bwd_next_upd_ok(s.drop_last(), xs.drop_last(), g2);
        let nxt = bwd_next_seq(s, xs, g);
        lemma_bwd_next_seq_len(s.drop_last(), xs.drop_last(), g2);
        assert forall|k: int| 0 <= k < nxt.len() implies (#[trigger] nxt[k]).upd_ok() by {
            if k < nxt.len() - 1 {
                assert(nxt[k] == bwd_next_seq(s.drop_last(), xs.drop_last(), g2)[k]);
            } else {
                assert(nxt[k] == s.last().bwd_next(xs.last(), g));
            }
        }
    }
}

/// One layer state that reads as a sigmoid activation wherever it is an
/// activation at all.
pub open spec fn act_is_sigmoid(l: LayerModel) -> bool {
    match l {
        LayerModel::Dense(_) => true,
        LayerModel::Activation(m) => m.op is Sigmoid,
    }
}

/// Every activation layer in the sequence stores the sigmoid, the one
/// function whose derivative the backward step can read off the cached
/// output.
pub open spec fn acts_sigmoid(s: Seq<LayerModel>) -> bool {
    forall|k: int| 0 <= k < s.len() ==> act_is_sigmoid(#[trigger] s[k])
}

/// A prefix of a shape-compatible pipeline is shape-compatible.
pub proof fn lemma_pipe_ok_prefix(s: Seq<LayerModel>, c: int, i: int)
    requires
        pipe_ok(s, c),
        0 <= i <= s.len(),
    ensures
        pipe_ok(s.subrange(0, i), c),
    decreases s.len() - i,
{
    if i == s.len() {
        assert(s.subrange(0, i) =~= s);
    } else {
        lemma_pipe_ok_prefix(s, c, i + 1);
        assert(s.subrange(0, i + 1).drop_last() =~= s.subrange(0, i));
    }
}

/// The backward sweep keeps the layer count.
pub proof fn lemma_bwd_next_seq_len(s: Seq<LayerModel>, xs: Seq<Seq<Seq<u32>>>, g: Seq<Seq<u32>>)
    ensures
        bwd_next_seq(s, xs, g).len() == s.len(),
    decreases s.len(),
{
    if s.len() > 0 {
        lemma_bwd_next_seq_len(s.drop_last(), xs.drop_last(), s.last().bwd_out(xs.last(), g));
    }
}

/// The inputs the forward sweep records: entry `k` is the matrix fed into
/// layer `k`.
pub open spec fn fwd_trace(s: Seq<LayerModel>, x: Seq<Seq<u32>>) -> Seq<Seq<Seq<u32>>> {
    Seq::new(s.len(), |k: int| fwd_out_seq(s.subrange(0, k), x))
}

/// The forward sweep keeps the layer count.
pub proof fn lemma_fwd_next_seq_len(s: Seq<LayerModel>, x: Seq<Seq<u32>>)
    ensures
        fwd_next_seq(s, x).len() == s.len(),
    decreases s.len(),
{
    if s.len() > 0 {
        lemma_fwd_next_seq_len(s.drop_last(), x);
    }
}

/// A well-shaped model's layers are well shaped.
pub proof fn lemma_wf_layers(m: &Model)
    requires
        m.wf(),
    ensures
        layers_wf(m@),
{
    assert forall|k: int| 0 <= k < m@.len() implies (#[trigger] m@[k]).wf() by {
        assert(m.layers@[k].wf());
        assert(m@[k] == m.layers@[k]@);
    }
}

/// One forward sweep over a shape-compatible pipeline: the output is a
/// rectangle of the input's row count and the pipeline's output width, the
/// swept layers stay well shaped, and the pipeline's structure is kept.
pub proof fn lemma_fwd_props(s: Seq<LayerModel>, x: Seq<Seq<u32>>, c: int)
    requires
        layers_wf(s),
        pipe_ok(s, c),
        rect(x),
        x[0].len() == c,
    ensures
        rect(fwd_out_seq(s, x)),
        fwd_out_seq(s, x).len() == x.len(),
        fwd_out_seq(s, x)[0].len() == pipe_out_cols(s, c),
        layers_wf(fwd_next_seq(s, x)),
        fwd_next_seq(s, x).len() == s.len(),
        pipe_ok(fwd_next_seq(s, x), c),
        pipe_out_cols(fwd_next_seq(s, x), c) == pipe_out_cols(s, c),
    decreases s.len(),
{
    if s.len() > 0 {
        let s_ = s.drop_last();
        let l = s.last();
        assert(l == s[s.len() - 1]);
        assert(layers_wf(s_)) by {
            assert forall|k: int| 0 <= k < s_.len() implies (#[trigger] s_[k]).wf() by {
                assert(s_[k] == s[k]);
            }
        }
        lemma_fwd_props(s_, x, c);
        let y = fwd_out_seq(s_, x);
        let c2 = pipe_out_cols(s_, c);
        let z = l.fwd_out(y);
        match l {
            LayerModel::Dense(m) => {
                assert(z.len() == y.len());
                assert forall|i: int| 0 <= i < z.len() implies (#[trigger] z[i]).len()
                    == m.out_size by {}
                assert(rect(z));
            },
            LayerModel::Activation(m) => {
                assert(z == map_seq(y, m.op));
                assert(z.len() == y.len());
                assert forall|i: int| 0 <= i < z.len() implies (#[trigger] z[i]).len()
                    == y[i].len() by {
                    assert(z[i] == map_row(y[i], m.op));
                }
                assert(rect(z));
            },
        }
        let nxt = fwd_next_seq(s, x);
        lemma_fwd_next_seq_len(s_, x);
        assert(nxt.drop_last() =~= fwd_next_seq(s_, x));
        assert(nxt.last() == l.fwd_next(y));
        match l {
            LayerModel::Dense(m) => {
                assert(nxt.last().wf());
            },
            LayerModel::Activation(m) => {
                assert(nxt.last() == LayerModel::Activation(m.fwd_next(y)));
                assert(m.fwd_next(y).last_output == Some(map_seq(y, m.op)));
                assert(map_seq(y, m.op).len() == y.len());
                assert forall|i: int| 0 <= i < y.len() implies (#[trigger] map_seq(y, m.op)[i]).len()
                    == y[i].len() by {
                    assert(map_seq(y, m.op)[i] == map_row(y[i], m.op));
                }
                assert(rect(map_seq(y, m.op)));
                assert(nxt.last().wf());
            },
        }
        assert forall|k: int| 0 <= k < nxt.len() implies (#[trigger] nxt[k]).wf() by {
            if k < nxt.len() - 1 {
                assert(nxt[k] == fwd_next_seq(s_, x)[k]);
            } else {
                assert(nxt[k] == nxt.last());
            }
        }
        assert(nxt.last().in_ok(c2) == l.in_ok(c2));
        assert(nxt.last().out_cols(c2) == l.out_cols(c2));
    } else {
        assert(fwd_next_seq(s, x) =~= s);
    }
}

/// After one forward sweep has filled every cache, the backward sweep is
/// ready: walking the swept layers in reverse over the recorded inputs,
/// each accepts its input and the gradient the layer after it hands back,
/// for any gradient of the pipeline's output shape.
pub proof fn lemma_bwd_ready(s: Seq<LayerModel>, x: Seq<Seq<u32>>, g: Seq<Seq<u32>>, c: int)
    requires
        layers_wf(s),
        acts_sigmoid(s),
        pipe_ok(s, c),
        rect(x),
        x[0].len() == c,
        rect(g),
        g.len() == x.len(),
        g[0].len() == pipe_out_cols(s, c),
    ensures
        bwd_ok_seq(fwd_next_seq(s, x), fwd_trace(s, x), g),
    decreases s.len(),
{
    if s.len() > 0 {
        let s_ = s.drop_last();
        let l = s.last();
        assert(l == s[s.len() - 1]);
        assert(layers_wf(s_)) by {
            assert forall|k: int| 0 <= k < s_.len() implies (#[trigger] s_[k]).wf() by {
                assert(s_[k] == s[k]);
            }
        }
        assert(acts_sigmoid(s_)) by {
            assert forall|k: int| 0 <= k < s_.len() implies act_is_sigmoid(#[trigger] s_[k]) by {
                assert(s_[k] == s[k]);
            }
        }
        lemma_fwd_props(s_, x, c);
        let y = fwd_out_seq(s_, x);
        let c2 = pipe_out_cols(s_, c);
        let s2 = fwd_next_seq(s, x);
        let xs = fwd_trace(s, x);
        lemma_fwd_next_seq_len(s_, x);
        assert(s2.last() == l.fwd_next(y));
        assert(s2.drop_last() =~= fwd_next_seq(s_, x));
        assert(s.subrange(0, s.len() - 1) =~= s_);
        assert(xs.last() == y);
        assert(xs.drop_last() =~= fwd_trace(s_, x)) by {
            assert forall|k: int| 0 <= k < s_.len() implies xs.drop_last()[k] == fwd_trace(
                s_,
                x,
            )[k] by {
                assert(xs.drop_last()[k] == xs[k]);
                assert(s.subrange(0, k) =~= s_.subrange(0, k));
            }
        }
        let g2 = s2.last().bwd_out(y, g);
        match l {
            LayerModel::Dense(m) => {
                assert(s2.last() == LayerModel::Dense(m));
                assert(m.in_size == c2);
                assert(g[0].len() == m.out_size);
                assert(s2.last().bwd_ok(y, g));
                assert(g2 == m.bwd_out(g));
                assert(g2.len() == g.len());
                assert forall|i: int| 0 <= i < g2.len() implies (#[trigger] g2[i]).len()
                    == m.in_size by {}
                assert(rect(g2));
                assert(g2[0].len() == c2);
            },
            LayerModel::Activation(m) => {
                let m2 = m.fwd_next(y);
                assert(s2.last() == LayerModel::Activation(m2));
                assert(m2.last_output == Some(map_seq(y, m.op)));
                assert(map_seq(y, m.op).len() == y.len());
                assert forall|i: int| 0 <= i < y.len() implies (#[trigger] map_seq(y, m.op)[i]).len()
                    == y[i].len() by {
                    assert(map_seq(y, m.op)[i] == map_row(y[i], m.op));
                }
                assert(rect(map_seq(y, m.op)));
                assert(pipe_out_cols(s, c) == c2);
                assert(act_is_sigmoid(s[s.len() - 1]));
                assert(m2.op is Sigmoid);
                assert(m2.bwd_ok(g));
                assert(s2.last().bwd_ok(y, g));
                assert(g2 == m2.bwd_out(g));
                assert(g2.len() == g.len());
                assert forall|i: int| 0 <= i < g2.len() implies (#[trigger] g2[i]).len()
                    == g[0].len() by {}
                assert(rect(g2));
                assert(g2[0].len() == c2);
            },
        }
        lemma_bwd_ready(s_, x, g2, c);
        assert(bwd_ok_seq(s2, xs, g));
    }
}

/// Two layer states the pipeline's bookkeeping cannot tell apart: the same
/// kind, for dense layers the same sizes, for activation layers the same
/// stored function.
pub open spec fn struct_eq(a: LayerModel, b: LayerModel) -> bool {
    match a {
        LayerModel::Dense(x) => match b {
            LayerModel::Dense(y) => x.in_size == y.in_size && x.out_size == y.out_size,
            LayerModel::Activation(_) => false,
        },
        LayerModel::Activation(x) => match b {
            LayerModel::Dense(_) => false,
            LayerModel::Activation(y) => x.op == y.op,
        },
    }
}

/// Pipelines of shape-equal layers accept and produce the same widths.
pub proof fn lemma_pipe_struct(a: Seq<LayerModel>, b: Seq<LayerModel>, c: int)
    requires
        a.len() == b.len(),
        forall|k: int| 0 <= k < a.len() ==> struct_eq(#[trigger] a[k], b[k]),
    ensures
        pipe_ok(a, c) == pipe_ok(b, c),
        pipe_out_cols(a, c) == pipe_out_cols(b, c),
    decreases a.len(),
{
    if a.len() > 0 {
        assert(struct_eq(a[a.len() - 1], b[a.len() - 1]));
        assert forall|k: int| 0 <= k < a.drop_last().len() implies struct_eq(
            #[trigger] a.drop_last()[k],
            b.drop_last()[k],
        ) by {
            assert(a.drop_last()[k] == a[k]);
            assert(b.drop_last()[k] == b[k]);
        }
        lemma_pipe_struct(a.drop_last(), b.drop_last(), c);
    }
}

/// The forward sweep changes no layer's kind or sizes.
pub proof fn lemma_fwd_next_struct(s: Seq<LayerModel>, x: Seq<Seq<u32>>)
    ensures
        fwd_next_seq(s, x).len() == s.len(),
        forall|k: int| 0 <= k < s.len() ==> struct_eq(#[trigger] s[k], fwd_next_seq(s, x)[k]),
    decreases s.len(),
{
    if s.len() > 0 {
        lemma_fwd_next_struct(s.drop_last(), x);
        let nxt = fwd_next_seq(s, x);
        assert forall|k: int| 0 <= k < s.len() implies struct_eq(#[trigger] s[k], nxt[k]) by {
            if k < s.len() - 1 {
                assert(nxt[k] == fwd_next_seq(s.drop_last(), x)[k]);
                assert(s.drop_last()[k] == s[k]);
            } else {
                assert(nxt[k] == s.last().fwd_next(fwd_out_seq(s.drop_last(), x)));
            }
        }
    }
}

/// The backward sweep changes no layer's kind or sizes.
pub proof fn lemma_bwd_next_struct(s: Seq<LayerModel>, xs: Seq<Seq<Seq<u32>>>, g: Seq<Seq<u32>>)
    ensures
        bwd_next_seq(s, xs, g).len() == s.len(),
        forall|k: int| 0 <= k < s.len() ==> struct_eq(#[trigger] s[k], bwd_next_seq(s, xs, g)[k]),
    decreases s.len(),
{
    if s.len() > 0 {
        let g2 = s.last().bwd_out(xs.last(), g);
        lemma_bwd_next_struct(s.drop_last(), xs.drop_last(), g2);
        let nxt = bwd_next_seq(s, xs, g);
        assert forall|k: int| 0 <= k < s.len() implies struct_eq(#[trigger] s[k], nxt[k]) by {
            if k < s.len() - 1 {
                assert(nxt[k] == bwd_next_seq(s.drop_last(), xs.drop_last(), g2)[k]);
                assert(s.drop_last()[k] == s[k]);
            } else {
                assert(nxt[k] == s.last().bwd_next(xs.last(), g));
            }
        }
    }
}

/// The update sweep changes no layer's kind or sizes.
pub proof fn lemma_upd_struct(s: Seq<LayerModel>, lr: u32)
    ensures
        upd_seq(s, lr).len() == s.len(),
        forall|k: int| 0 <= k < s.len() ==> struct_eq(#[trigger] s[k], upd_seq(s, lr)[k]),
{
    assert forall|k: int| 0 <= k < s.len() implies struct_eq(#[trigger] s[k], upd_seq(s, lr)[k]) by {
        assert(upd_seq(s, lr)[k] == s[k].upd_next(lr));
    }
}

/// The second state of one layer after a change elsewhere in the sequence:
/// a dense layer keeps everything but its weight values, which keep their
/// shape; an activation layer is untouched.
pub open spec fn same_but_weights(a: LayerModel, b: LayerModel) -> bool {
    match a {
        LayerModel::Dense(x) => match b {
            LayerModel::Dense(y) => {
                &&& y.in_size == x.in_size
                &&& y.out_size == x.out_size
                &&& y.biases == x.biases
                &&& y.last_input == x.last_input
                &&& y.grad_weights == x.grad_weights
                &&& y.grad_biases == x.grad_biases
                &&& rect_shape(y.weights, x.in_size, x.out_size)
            },
            LayerModel::Activation(_) => false,
        },
        LayerModel::Activation(_) => b == a,
    }
}

/// Every weight of a dense layer lies in the half-open unit range; an
/// activation layer holds no weights.
pub open spec fn weights_in_unit_range(l: LayerModel) -> bool {
    match l {
        LayerModel::Dense(y) => forall|i: int, j: int|
            0 <= i < y.weights.len() && 0 <= j < y.weights[i].len() ==> unit_range(
                #[trigger] y.weights[i][j],
            ),
        LayerModel::Activation(_) => true,
    }
}

/// As `same_but_weights`, with every weight of a dense layer zero.
pub open spec fn zeroed_from(a: LayerModel, b: LayerModel) -> bool {
    &&& same_but_weights(a, b)
    &&& match b {
        LayerModel::Dense(y) => forall|i: int, j: int|
            0 <= i < y.weights.len() && 0 <= j < y.weights[i].len()
                ==> #[trigger] y.weights[i][j] == F_ZERO,
        LayerModel::Activation(_) => true,
    }
}

/// Why a single weight cannot be read or written.
#[derive(Clone, Copy, Debug, PartialEq, Eq, Structural)]
pub enum WeightError {
    /// No layer, row or column under that index.
    OutOfRange,
    /// The addressed layer is an activation layer and has no parameters.
    NoParameters,
}

/// What reading one dense weight gives.
pub open spec fn get_weight_spec(s: Seq<LayerModel>, li: int, row: int, col: int) -> Result<
    u32,
    WeightError,
> {
    if !(0 <= li < s.len()) {
        Err(WeightError::OutOfRange)
    } else {
        match s[li] {
            LayerModel::Activation(_) => Err(WeightError::NoParameters),
            LayerModel::Dense(m) => if !(0 <= row < m.in_size && 0 <= col < m.out_size) {
                Err(WeightError::OutOfRange)
            } else {
                Ok(m.weights[row][col])
            },
        }
    }
}

/// What writing one dense weight gives: the new layer states, or the error.
pub open spec fn set_weight_spec(
    s: Seq<LayerModel>,
    li: int,
    row: int,
    col: int,
    v: u32,
) -> Result<Seq<LayerModel>, WeightError> {
    if !(0 <= li < s.len()) {
        Err(WeightError::OutOfRange)
    } else {
        match s[li] {
            LayerModel::Activation(_) => Err(WeightError::NoParameters),
            LayerModel::Dense(m) => if !(0 <= row < m.in_size && 0 <= col < m.out_size) {
                Err(WeightError::OutOfRange)
            } else {
                Ok(
                    s.update(
                        li,
                        LayerModel::Dense(
                            DenseModel {
                                in_size: m.in_size,
                                out_size: m.out_size,
                                weights: m.weights.update(row, m.weights[row].update(col, v)),
                                biases: m.biases,
                                last_input: m.last_input,
                                grad_weights: m.grad_weights,
                                grad_biases: m.grad_biases,
                            },
                        ),
                    ),
                )
            },
        }
    }
}

/// An ordered sequence of layers, the sole owner of each.
pub struct Model {
    layers: Vec<LayerEnum>,
}

impl View for Model {
    type V = Seq<LayerModel>;

    closed spec fn view(&self) -> Seq<LayerModel> {
        Seq::new(self.layers@.len(), |k: int| self.layers@[k]@)
    }
}

impl Model {
    /// Every stored layer is internally consistent.
    pub closed spec fn wf(&self) -> bool {
        forall|k: int| 0 <= k < self.layers@.len() ==> (#[trigger] self.layers@[k]).wf()
    }

    /// An empty model.
    pub fn new() -> (r: Model)
        ensures
            r.wf(),
            r@.len() == 0,
    {
        Model { layers: Vec::new() }
    }

    /// Append a layer at the back.
    pub fn add_layer(&mut self, layer: LayerEnum)
        requires
            old(self).wf(),
            layer.wf(),
        ensures
            final(self).wf(),
            final(self)@ == old(self)@.push(layer@),
    {
        self.layers.push(layer);
        proof {
            assert(self@ =~= old(self)@.push(self.layers@.last()@));
        }
    }

    /// How many layers the model holds.
    pub fn len(&self) -> (r: usize)
        ensures
            r == self@.len(),
    {
        self.layers.len()
    }

    /// Borrow the layers for inspection.
    pub fn layers(&self) -> (r: &Vec<LayerEnum>)
        ensures
            r@.len() == self@.len(),
            forall|k: int| 0 <= k < self@.len() ==> (#[trigger] r@[k])@ == self@[k],
    {
        &self.layers
    }

    /// Walk the layers checking shape compatibility from an input of `cols`
    /// columns; hands back the pipeline's output width where every layer
    /// fits, and nothing where one does not.
    pub fn pipe_width(&self, cols: usize) -> (r: Option<usize>)
        requires
            self.wf(),
        ensures
            match r {
                Some(w) => pipe_ok(self@, cols as int) && w as int == pipe_out_cols(
                    self@,
                    cols as int,
                ),
                None => !pipe_ok(self@, cols as int),
            },
    {
        let n = self.layers.len();
        let mut cur = cols;
        let mut i: usize = 0;
        proof {
            assert(self@.subrange(0, 0) =~= Seq::<LayerModel>::empty());
        }
        while i < n
            invariant
                self.wf(),
                n == self.layers@.len(),
                cols <= usize::MAX,
                i <= n,
                pipe_ok(self@.subrange(0, i as int), cols as int),
                cur as int == pipe_out_cols(self@.subrange(0, i as int), cols as int),
            decreases n - i,
        {
            proof {
                assert(self@.subrange(0, i as int + 1).drop_last() =~= self@.subrange(0, i as int));
                assert(self@.subrange(0, i as int + 1).last() == self@[i as int]);
            }
            let layer = &self.layers[i];
            proof {
                assert(layer@ == self@[i as int]);
            }
            match layer {
                LayerEnum::Dense(d) => {
                    if cur == d.input_size {
                        cur = d.output_size;
                    } else {
                        proof {
                            if pipe_ok(self@, cols as int) {
                                lemma_pipe_ok_prefix(self@, cols as int, i as int + 1);
                            }
                        }
                        return None;
                    }
                },
                LayerEnum::Activation(_) => {},
            }
            i = i + 1;
        }
        proof {
            assert(self@.subrange(0, n as int) =~= self@);
        }
        Some(cur)
    }

    /// Fold the input through every layer in index order.
    pub fn forward(&mut self, input: &Matrix) -> (r: Matrix)
        requires
            old(self).wf(),
            input.wf(),
            pipe_ok(old(self)@, input.spec_cols() as int),
        ensures
            final(self).wf(),
            final(self)@ == fwd_next_seq(old(self)@, input@),
            r.is_shape(
                input@.len() as int,
                pipe_out_cols(old(self)@, input.spec_cols() as int),
            ),
            r@ == fwd_out_seq(old(self)@, input@),
    {
        let n = self.layers.len();
        let mut x = input.clone();
        let mut i: usize = 0;
        proof {
            assert(old(self)@.subrange(0, 0) =~= Seq::<LayerModel>::empty());
            assert(self@.subrange(0, 0) =~= fwd_next_seq(old(self)@.subrange(0, 0), input@));
        }
        while i < n
            invariant
                input.wf(),
                pipe_ok(old(self)@, input.spec_cols() as int),
                n == old(self)@.len(),
                n == self.layers@.len(),
                i <= n,
                forall|k: int| 0 <= k < n ==> (#[trigger] self.layers@[k]).wf(),
                forall|k: int| i as int <= k < n ==> #[trigger] self@[k] == old(self)@[k],
                self@.subrange(0, i as int) == fwd_next_seq(
                    old(self)@.subrange(0, i as int),
                    input@,
                ),
                x.is_shape(
                    input@.len() as int,
                    pipe_out_cols(old(self)@.subrange(0, i as int), input.spec_cols() as int),
                ),
                x@ == fwd_out_seq(old(self)@.subrange(0, i as int), input@),
            decreases n - i,
        {
            proof {
                lemma_pipe_ok_prefix(old(self)@, input.spec_cols() as int, i as int + 1);
                assert(old(self)@.subrange(0, i as int + 1).drop_last() =~= old(self)@.subrange(
                    0,
                    i as int,
                ));
                assert(old(self)@.subrange(0, i as int + 1).last() == old(self)@[i as int]);
            }
            let ghost prev = self.layers@;
            let ghost prev_view = self@;
            let mut layer = self.layers.remove(i);
            proof {
                assert(prev_view[i as int] == prev[i as int]@);
                assert(layer@ == old(self)@[i as int]);
                assert(old(self)@[i as int].in_ok(
                    pipe_out_cols(old(self)@.subrange(0, i as int), input.spec_cols() as int),
                ));
            }
            let y = layer.forward(&x);
            self.layers.insert(i, layer);
            proof {
                assert(self.layers@ =~= prev.update(i as int, self.layers@[i as int]));
                assert forall|k: int| 0 <= k < n && k != i as int implies #[trigger] self@[k]
                    == prev_view[k] by {
                    assert(self.layers@[k] == prev[k]);
                }
                assert(self@[i as int] == self.layers@[i as int]@);
                assert(self@[i as int] == old(self)@[i as int].fwd_next(
                    fwd_out_seq(old(self)@.subrange(0, i as int), input@),
                ));
                assert(self@.subrange(0, i as int) =~= prev_view.subrange(0, i as int));
                assert(self@.subrange(0, i as int + 1) =~= self@.subrange(0, i as int).push(
                    self@[i as int],
                ));
            }
            x = y;
            i = i + 1;
        }
        proof {
            assert(old(self)@.subrange(0, n as int) =~= old(self)@);
            assert(self@.subrange(0, n as int) =~= self@);
        }
        x
    }

    /// The forward sweep, also handing back every intermediate: entry `k` of
    /// the trace is the matrix fed into layer `k`, and the last entry is the
    /// final output.
    pub fn forward_verbose(&mut self, input: &Matrix) -> (r: (Matrix, Vec<Matrix>))
        requires
            old(self).wf(),
            input.wf(),
            pipe_ok(old(self)@, input.spec_cols() as int),
        ensures
            final(self).wf(),
            final(self)@ == fwd_next_seq(old(self)@, input@),
            r.0.is_shape(
                input@.len() as int,
                pipe_out_cols(old(self)@, input.spec_cols() as int),
            ),
            r.0@ == fwd_out_seq(old(self)@, input@),
            r.1@.len() == old(self)@.len() + 1,
            forall|k: int|
                0 <= k <= old(self)@.len() ==> (#[trigger] r.1@[k]).is_shape(
                    input@.len() as int,
                    pipe_out_cols(old(self)@.subrange(0, k), input.spec_cols() as int),
                ),
            forall|k: int|
                0 <= k <= old(self)@.len() ==> (#[trigger] r.1@[k])@ == fwd_out_seq(
                    old(self)@.subrange(0, k),
                    input@,
                ),
    {
        let n = self.layers.len();
        let mut x = input.clone();
        let mut trace: Vec<Matrix> = Vec::new();
        let mut i: usize = 0;
        proof {
            assert(old(self)@.subrange(0, 0) =~= Seq::<LayerModel>::empty());
            assert(self@.subrange(0, 0) =~= fwd_next_seq(old(self)@.subrange(0, 0), input@));
        }
        while i < n
            invariant
                input.wf(),
                pipe_ok(old(self)@, input.spec_cols() as int),
                n == old(self)@.len(),
                n == self.layers@.len(),
                i <= n,
                forall|k: int| 0 <= k < n ==> (#[trigger] self.layers@[k]).wf(),
                forall|k: int| i as int <= k < n ==> #[trigger] self@[k] == old(self)@[k],
                self@.subrange(0, i as int) == fwd_next_seq(
                    old(self)@.subrange(0, i as int),
                    input@,
                ),
                x.is_shape(
                    input@.len() as int,
                    pipe_out_cols(old(self)@.subrange(0, i as int), input.spec_cols() as int),
                ),
                x@ == fwd_out_seq(old(self)@.subrange(0, i as int), input@),
                trace@.len() == i as int,
                forall|k: int|
                    0 <= k < i as int ==> (#[trigger] trace@[k]).is_shape(
                        input@.len() as int,
                        pipe_out_cols(old(self)@.subrange(0, k), input.spec_cols() as int),
                    ),
                forall|k: int|
                    0 <= k < i as int ==> (#[trigger] trace@[k])@ == fwd_out_seq(
                        old(self)@.subrange(0, k),
                        input@,
                    ),
            decreases n - i,
        {
            proof {
                lemma_pipe_ok_prefix(old(self)@, input.spec_cols() as int, i as int + 1);
                assert(old(self)@.subrange(0, i as int + 1).drop_last() =~= old(self)@.subrange(
                    0,
                    i as int,
                ));
                assert(old(self)@.subrange(0, i as int + 1).last() == old(self)@[i as int]);
            }
            trace.push(x.clone());
            let ghost prev = self.layers@;
            let ghost prev_view = self@;
            let mut layer = self.layers.remove(i);
            proof {
                assert(prev_view[i as int] == prev[i as int]@);
                assert(layer@ == old(self)@[i as int]);
                assert(old(self)@[i as int].in_ok(
                    pipe_out_cols(old(self)@.subrange(0, i as int), input.spec_cols() as int),
                ));
            }
            let y = layer.forward(&x);
            self.layers.insert(i, layer);
            proof {
                assert(self.layers@ =~= prev.update(i as int, self.layers@[i as int]));
                assert forall|k: int| 0 <= k < n && k != i as int implies #[trigger] self@[k]
                    == prev_view[k] by {
                    assert(self.layers@[k] == prev[k]);
                }
                assert(self@[i as int] == self.layers@[i as int]@);
                assert(self@[i as int] == old(self)@[i as int].fwd_next(
                    fwd_out_seq(old(self)@.subrange(0, i as int), input@),
                ));
                assert(self@.subrange(0, i as int) =~= prev_view.subrange(0, i as int));
                assert(self@.subrange(0, i as int + 1) =~= self@.subrange(0, i as int).push(
                    self@[i as int],
                ));
            }
            x = y;
            i = i + 1;
        }
        trace.push(x.clone());
        proof {
            assert(old(self)@.subrange(0, n as int) =~= old(self)@);
            assert(self@.subrange(0, n as int) =~= self@);
        }
        (x, trace)
    }

    /// The backward sweep: walk the layers in exact reverse order, handing
    /// each its recorded input and the gradient the layer after it produced,
    /// and return the gradient that leaves the front of the model.
    pub fn backward_sweep(&mut self, inters: &Vec<Matrix>, grad: &Matrix) -> (r: Matrix)
        requires
            old(self).wf(),
            grad.wf(),
            inters@.len() == old(self)@.len(),
            forall|k: int| 0 <= k < inters@.len() ==> (#[trigger] inters@[k]).wf(),
            bwd_ok_seq(old(self)@, mat_views(inters@), grad@),
        ensures
            final(self).wf(),
            final(self)@ == bwd_next_seq(old(self)@, mat_views(inters@), grad@),
            r.wf(),
            r@ == bwd_out_seq(old(self)@, mat_views(inters@), grad@),
    {
        let ghost xs = mat_views(inters@);
        let ghost full_next = bwd_next_seq(old(self)@, xs, grad@);
        let ghost full_out = bwd_out_seq(old(self)@, xs, grad@);
        let n = self.layers.len();
        let mut g = grad.clone();
        let mut idx: usize = n;
        proof {
            lemma_bwd_next_seq_len(old(self)@, xs, grad@);
            assert(old(self)@.subrange(0, n as int) =~= old(self)@);
            assert(xs.subrange(0, n as int) =~= xs);
            assert(full_next.subrange(0, n as int) =~= full_next);
        }
        while 0 < idx
            invariant
                grad.wf(),
                n == old(self)@.len(),
                n == self.layers@.len(),
                n == inters@.len(),
                xs == mat_views(inters@),
                full_next == bwd_next_seq(old(self)@, xs, grad@),
                full_next.len() == n,
                full_out == bwd_out_seq(old(self)@, xs, grad@),
                idx <= n,
                forall|k: int| 0 <= k < inters@.len() ==> (#[trigger] inters@[k]).wf(),
                forall|k: int| 0 <= k < n ==> (#[trigger] self.layers@[k]).wf(),
                forall|k: int| 0 <= k < idx as int ==> #[trigger] self@[k] == old(self)@[k],
                forall|k: int| idx as int <= k < n ==> #[trigger] self@[k] == full_next[k],
                g.wf(),
                bwd_ok_seq(old(self)@.subrange(0, idx as int), xs.subrange(0, idx as int), g@),
                bwd_out_seq(old(self)@.subrange(0, idx as int), xs.subrange(0, idx as int), g@)
                    == full_out,
                bwd_next_seq(old(self)@.subrange(0, idx as int), xs.subrange(0, idx as int), g@)
                    == full_next.subrange(0, idx as int),
            decreases idx,
        {
            let i = idx - 1;
            proof {
                assert(old(self)@.subrange(0, idx as int).drop_last() =~= old(self)@.subrange(
                    0,
                    i as int,
                ));
                assert(xs.subrange(0, idx as int).drop_last() =~= xs.subrange(0, i as int));
                assert(old(self)@.subrange(0, idx as int).last() == old(self)@[i as int]);
                assert(xs.subrange(0, idx as int).last() == xs[i as int]);
                assert(xs[i as int] == inters@[i as int]@);
                assert(full_next.subrange(0, idx as int).last() == full_next[i as int]);
                assert(full_next.subrange(0, idx as int).drop_last() =~= full_next.subrange(
                    0,
                    i as int,
                ));
            }
            let ghost prev = self.layers@;
            let ghost prev_view = self@;
            let mut layer = self.layers.remove(i);
            proof {
                assert(prev_view[i as int] == prev[i as int]@);
                assert(layer@ == old(self)@[i as int]);
            }
            let xm = &inters[i];
            let g2 = layer.backward(xm, &g);
            self.layers.insert(i, layer);
            proof {
                assert(self.layers@ =~= prev.update(i as int, self.layers@[i as int]));
                assert forall|k: int| 0 <= k < n && k != i as int implies #[trigger] self@[k]
                    == prev_view[k] by {
                    assert(self.layers@[k] == prev[k]);
                }
                assert(self@[i as int] == self.layers@[i as int]@);
                assert(self@[i as int] == old(self)@[i as int].bwd_next(xs[i as int], g@));
                assert(self@[i as int] == full_next[i as int]);
                assert(g2@ == old(self)@[i as int].bwd_out(xs[i as int], g@));
            }
            g = g2;
            idx = i;
        }
        proof {
            assert(old(self)@.subrange(0, 0) =~= Seq::<LayerModel>::empty());
            assert(xs.subrange(0, 0) =~= Seq::<Seq<Seq<u32>>>::empty());
            assert(self@ =~= full_next);
        }
        g
    }

    /// Call the update step on every layer, in index order; each dense
    /// layer consumes its cached gradients.
    pub fn update_all(&mut self, learning_rate: u32)
        requires
            old(self).wf(),
            upd_ok_seq(old(self)@),
        ensures
            final(self).wf(),
            final(self)@ == upd_seq(old(self)@, learning_rate),
    {
        let n = self.layers.len();
        let mut i: usize = 0;
        while i < n
            invariant
                n == old(self)@.len(),
                n == self.layers@.len(),
                upd_ok_seq(old(self)@),
                i <= n,
                forall|k: int| 0 <= k < n ==> (#[trigger] self.layers@[k]).wf(),
                forall|k: int| i as int <= k < n ==> #[trigger] self@[k] == old(self)@[k],
                forall|k: int|
                    0 <= k < i as int ==> #[trigger] self@[k] == old(self)@[k].upd_next(
                        learning_rate,
                    ),
            decreases n - i,
        {
            let ghost prev = self.layers@;
            let ghost prev_view = self@;
            let mut layer = self.layers.remove(i);
            proof {
                assert(prev_view[i as int] == prev[i as int]@);
                assert(layer@ == old(self)@[i as int]);
                assert(old(self)@[i as int].upd_ok());
            }
            layer.update(learning_rate);
            self.layers.insert(i, layer);
            proof {
                assert(self.layers@ =~= prev.update(i as int, self.layers@[i as int]));
                assert forall|k: int| 0 <= k < n && k != i as int implies #[trigger] self@[k]
                    == prev_view[k] by {
                    assert(self.layers@[k] == prev[k]);
                }
                assert(self@[i as int] == self.layers@[i as int]@);
            }
            i = i + 1;
        }
        proof {
            assert(self@ =~= upd_seq(old(self)@, learning_rate));
        }
    }

    /// Read one dense weight by layer, row and column.
    pub fn get_weight(&self, layer_index: usize, row: usize, col: usize) -> (r: Result<
        u32,
        WeightError,
    >)
        requires
            self.wf(),
        ensures
            r == get_weight_spec(self@, layer_index as int, row as int, col as int),
    {
        if layer_index >= self.layers.len() {
            return Err(WeightError::OutOfRange);
        }
        let layer = &self.layers[layer_index];
        proof {
            assert(self.layers@[layer_index as int].wf());
            assert(layer@ == self@[layer_index as int]);
        }
        match layer {
            LayerEnum::Dense(d) => {
                proof {
                    assert(d.weights@[0].len() == d.weights.spec_cols());
                    assert(d.weights@[0].len() == d@.out_size);
                }
                if row < d.weights.rows() && col < d.weights.cols() {
                    Ok(d.weights.get(row, col))
                } else {
                    Err(WeightError::OutOfRange)
                }
            },
            LayerEnum::Activation(_) => Err(WeightError::NoParameters),
        }
    }

    /// Write one dense weight by layer, row and column; anything out of
    /// range, or a layer without parameters, is reported and nothing moves.
    pub fn set_weight(&mut self, layer_index: usize, row: usize, col: usize, value: u32) -> (r:
        Result<(), WeightError>)
        requires
            old(self).wf(),
        ensures
            final(self).wf(),
            (match set_weight_spec(old(self)@, layer_index as int, row as int, col as int, value) {
                Ok(s2) => r is Ok && final(self)@ == s2,
                Err(e) => r == Err::<(), WeightError>(e) && final(self)@ == old(self)@,
            }),
    {
        if layer_index >= self.layers.len() {
            return Err(WeightError::OutOfRange);
        }
        let ghost prev = self.layers@;
        let ghost prev_view = self@;
        let mut layer = self.layers.remove(layer_index);
        proof {
            assert(prev_view[layer_index as int] == prev[layer_index as int]@);
            assert(layer@ == old(self)@[layer_index as int]);
            assert(layer.wf());
        }
        let r: Result<(), WeightError> = match &mut layer {
            LayerEnum::Dense(d) => {
                proof {
                    assert(d.weights@[0].len() == d.weights.spec_cols());
                    assert(d.weights@[0].len() == d@.out_size);
                }
                if row < d.weights.rows() && col < d.weights.cols() {
                    d.weights.set(row, col, value);
                    Ok(())
                } else {
                    Err(WeightError::OutOfRange)
                }
            },
            LayerEnum::Activation(_) => Err(WeightError::NoParameters),
        };
        self.layers.insert(layer_index, layer);
        proof {
            let ghost li = layer_index as int;
            assert(self.layers@ =~= prev.update(li, self.layers@[li]));
            assert forall|k: int| 0 <= k < prev.len() && k != layer_index as int implies
                #[trigger] self@[k] == prev_view[k] by {
                assert(self.layers@[k] == prev[k]);
            }
            assert(self@[layer_index as int] == self.layers@[layer_index as int]@);
            if r is Ok {
                match set_weight_spec(
                    old(self)@,
                    layer_index as int,
                    row as int,
                    col as int,
                    value,
                ) {
                    Ok(s2) => {
                        assert(self@ =~= s2);
                    },
                    Err(_) => {},
                }
            } else {
                assert(self@ =~= old(self)@);
            }
        }
        r
    }

    /// Redraw every dense layer's weights from the unit range; shapes,
    /// biases and caches stay as they are, and every redrawn weight lies at
    /// or above minus one and strictly below one.
    pub fn randomize_all_weights(&mut self)
        requires
            old(self).wf(),
        ensures
            final(self).wf(),
            final(self)@.len() == old(self)@.len(),
            forall|k: int|
                0 <= k < old(self)@.len() ==> same_but_weights(
                    old(self)@[k],
                    #[trigger] final(self)@[k],
                ),
            forall|k: int|
                0 <= k < old(self)@.len() ==> weights_in_unit_range(#[trigger] final(self)@[k]),
    {
        let n = self.layers.len();
        let mut i: usize = 0;
        while i < n
            invariant
                n == old(self)@.len(),
                n == self.layers@.len(),
                i <= n,
                forall|k: int| 0 <= k < n ==> (#[trigger] self.layers@[k]).wf(),
                forall|k: int| i as int <= k < n ==> #[trigger] self@[k] == old(self)@[k],
                forall|k: int|
                    0 <= k < i as int ==> same_but_weights(old(self)@[k], #[trigger] self@[k]),
                forall|k: int|
                    0 <= k < i as int ==> weights_in_unit_range(#[trigger] self@[k]),
            decreases n - i,
        {
            let ghost prev = self.layers@;
            let ghost prev_view = self@;
            let mut layer = self.layers.remove(i);
            proof {
                assert(prev_view[i as int] == prev[i as int]@);
                assert(layer@ == old(self)@[i as int]);
            }
            match &mut layer {
                LayerEnum::Dense(d) => {
                    d.randomize_weights();
                },
                LayerEnum::Activation(_) => {},
            }
            self.layers.insert(i, layer);
            proof {
                assert(self.layers@ =~= prev.update(i as int, self.layers@[i as int]));
                assert forall|k: int| 0 <= k < n && k != i as int implies #[trigger] self@[k]
                    == prev_view[k] by {
                    assert(self.layers@[k] == prev[k]);
                }
                assert(self@[i as int] == self.layers@[i as int]@);
                assert(same_but_weights(old(self)@[i as int], self@[i as int]));
                assert(weights_in_unit_range(self@[i as int]));
            }
            i = i + 1;
        }
    }

    /// Set every dense layer's weights to zero; shapes, biases and caches
    /// stay as they are.
    pub fn zero_all_weights(&mut self)
        requires
            old(self).wf(),
        ensures
            final(self).wf(),
            final(self)@.len() == old(self)@.len(),
            forall|k: int|
                0 <= k < old(self)@.len() ==> zeroed_from(
                    old(self)@[k],
                    #[trigger] final(self)@[k],
                ),
    {
        let n = self.layers.len();
        let mut i: usize = 0;
        while i < n
            invariant
                n == old(self)@.len(),
                n == self.layers@.len(),
                i <= n,
                forall|k: int| 0 <= k < n ==> (#[trigger] self.layers@[k]).wf(),
                forall|k: int| i as int <= k < n ==> #[trigger] self@[k] == old(self)@[k],
                forall|k: int|
                    0 <= k < i as int ==> zeroed_from(old(self)@[k], #[trigger] self@[k]),
            decreases n - i,
        {
            let ghost prev = self.layers@;
            let ghost prev_view = self@;
            let mut layer = self.layers.remove(i);
            proof {
                assert(prev_view[i as int] == prev[i as int]@);
                assert(layer@ == old(self)@[i as int]);
            }
            match &mut layer {
                LayerEnum::Dense(d) => {
                    d.zero_weights();
                },
                LayerEnum::Activation(_) => {},
            }
            self.layers.insert(i, layer);
            proof {
                assert(self.layers@ =~= prev.update(i as int, self.layers@[i as int]));
                assert forall|k: int| 0 <= k < n && k != i as int implies #[trigger] self@[k]
                    == prev_view[k] by {
                    assert(self.layers@[k] == prev[k]);
                }
                assert(self@[i as int] == self.layers@[i as int]@);
                assert(zeroed_from(old(self)@[i as int], self@[i as int]));
            }
            i = i + 1;
        }
    }
}

} // verus!
