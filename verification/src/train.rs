//! One training step and its loops: forward pass, mean-squared-error loss,
//! initial output gradient, the backward sweep in exact reverse order over
//! the recorded inputs, and the update sweep.

use vstd::prelude::*;
use crate::activation::ScalarOp;
use crate::layer::{LayerModel, rect};
use crate::loss::{spec_mse, mean_squared_error};
use crate::matrix::Matrix;
use crate::model::{
    Model,
    pipe_ok,
    pipe_out_cols,
    fwd_out_seq,
    fwd_next_seq,
    fwd_trace,
    bwd_next_seq,
    upd_seq,
    mat_views,
    struct_eq,
    act_is_sigmoid,
    acts_sigmoid,
    upd_ok_seq,
    lemma_bwd_next_upd_ok,
    lemma_wf_layers,
    lemma_fwd_props,
    lemma_fwd_next_seq_len,
    lemma_bwd_ready,
    lemma_pipe_struct,
    lemma_fwd_next_struct,
    lemma_bwd_next_struct,
    lemma_upd_struct,
};
use crate::scalar::{F_ZERO, F_ONE, F_TWO, F_HALF, fadd, fneg, fmul, fge, fgt, add_bits, ge_bits, gt_bits};

verus! {

/// The gradient fed into the backward sweep: twice the difference between
/// the output and the target, cell by cell, not divided by the cell count.
pub open spec fn grad0(out: Seq<Seq<u32>>, tgt: Seq<Seq<u32>>, c: int) -> Seq<Seq<u32>> {
    Seq::new(
        out.len(),
        |i: int| Seq::new(c as nat, |j: int| fmul(F_TWO, fadd(out[i][j], fneg(tgt[i][j])))),
    )
}

/// What one training step does to the layer states: a forward pass for the
/// loss, a second forward pass that records each layer's input, the
/// backward sweep in exact reverse order over those recordings, then the
/// update sweep.
pub open spec fn train_step_next(
    s: Seq<LayerModel>,
    x: Seq<Seq<u32>>,
    tgt: Seq<Seq<u32>>,
    lr: u32,
    c: int,
) -> Seq<LayerModel> {
    let s1 = fwd_next_seq(s, x);
    let s2 = fwd_next_seq(s1, x);
    let g = grad0(fwd_out_seq(s, x), tgt, pipe_out_cols(s, c));
    let s3 = bwd_next_seq(s2, fwd_trace(s1, x), g);
    upd_seq(s3, lr)
}

/// The loss one training step reports: the mean squared error between the
/// forward output and the target.
pub open spec fn train_step_loss(
    s: Seq<LayerModel>,
    x: Seq<Seq<u32>>,
    tgt: Seq<Seq<u32>>,
    c: int,
) -> u32 {
    spec_mse(fwd_out_seq(s, x), tgt, x.len() as int, pipe_out_cols(s, c))
}

/// One atomic training step on one sample; returns the scalar loss.
pub fn train_step(model: &mut Model, input: &Matrix, target: &Matrix, learning_rate: u32) -> (r:
    u32)
    requires
        old(model).wf(),
        input.wf(),
        target.wf(),
        pipe_ok(old(model)@, input.spec_cols() as int),
        acts_sigmoid(old(model)@),
        target@.len() == input@.len(),
        target.spec_cols() as int == pipe_out_cols(old(model)@, input.spec_cols() as int),
    ensures
        final(model).wf(),
        r == train_step_loss(old(model)@, input@, target@, input.spec_cols() as int),
        final(model)@ == train_step_next(
            old(model)@,
            input@,
            target@,
            learning_rate,
            input.spec_cols() as int,
        ),
{
    let ghost s0 = old(model)@;
    let ghost c = input.spec_cols() as int;
    proof {
        lemma_wf_layers(model);
        assert(input@[0].len() == input.spec_cols());
        assert(rect(input@));
        lemma_fwd_props(s0, input@, c);
    }
    let output = model.forward(input);
    let ghost s1 = fwd_next_seq(s0, input@);
    let loss = mean_squared_error(&output, target);
    proof {
        lemma_fwd_props(s1, input@, c);
        lemma_fwd_next_seq_len(s0, input@);
        lemma_fwd_next_struct(s0, input@);
        assert(acts_sigmoid(s1)) by {
            assert forall|k: int| 0 <= k < s1.len() implies act_is_sigmoid(#[trigger] s1[k]) by {
                assert(struct_eq(s0[k], s1[k]));
                assert(act_is_sigmoid(s0[k]));
            }
        }
    }
    let pair = model.forward_verbose(input);
    let mut trace = pair.1;
    let ghost s2 = fwd_next_seq(s1, input@);
    let n = model.len();
    trace.truncate(n);
    let negt = target.map(ScalarOp::Neg);
    let diff = output.add(&negt);
    let grad = diff.map(ScalarOp::Scale(F_TWO));
    proof {
        assert(grad@ =~~= grad0(fwd_out_seq(s0, input@), target@, pipe_out_cols(s0, c))) by {
            assert forall|i: int| 0 <= i < grad@.len() implies #[trigger] grad@[i] =~= grad0(
                fwd_out_seq(s0, input@),
                target@,
                pipe_out_cols(s0, c),
            )[i] by {
                assert(grad@[i] == crate::matrix::map_row(diff@[i], ScalarOp::Scale(F_TWO)));
            }
        }
        assert(rect(grad@));
        assert(mat_views(trace@) =~= fwd_trace(s1, input@)) by {
            assert forall|k: int| 0 <= k < trace@.len() implies mat_views(trace@)[k] == fwd_trace(
                s1,
                input@,
            )[k] by {
                assert(mat_views(trace@)[k] == trace@[k]@);
            }
        }
        lemma_bwd_ready(s1, input@, grad@, c);
    }
    let _front_grad = model.backward_sweep(&trace, &grad);
    proof {
        lemma_bwd_next_upd_ok(s2, mat_views(trace@), grad@);
    }
    model.update_all(learning_rate);
    loss
}

/// A training step changes no layer's kind or sizes.
pub proof fn lemma_train_step_struct(
    s: Seq<LayerModel>,
    x: Seq<Seq<u32>>,
    tgt: Seq<Seq<u32>>,
    lr: u32,
    c: int,
)
    ensures
        train_step_next(s, x, tgt, lr, c).len() == s.len(),
        forall|k: int|
            0 <= k < s.len() ==> struct_eq(#[trigger] s[k], train_step_next(s, x, tgt, lr, c)[k]),
{
    let s1 = fwd_next_seq(s, x);
    let s2 = fwd_next_seq(s1, x);
    let g = grad0(fwd_out_seq(s, x), tgt, pipe_out_cols(s, c));
    let s3 = bwd_next_seq(s2, fwd_trace(s1, x), g);
    lemma_fwd_next_struct(s, x);
    lemma_fwd_next_struct(s1, x);
    lemma_bwd_next_struct(s2, fwd_trace(s1, x), g);
    lemma_upd_struct(s3, lr);
    assert forall|k: int| 0 <= k < s.len() implies struct_eq(
        #[trigger] s[k],
        train_step_next(s, x, tgt, lr, c)[k],
    ) by {
        assert(struct_eq(s[k], s1[k]));
        assert(struct_eq(s1[k], s2[k]));
        assert(struct_eq(s2[k], s3[k]));
        assert(struct_eq(s3[k], upd_seq(s3, lr)[k]));
    }
}

/// The single a 0/1 feature or label becomes: one for one, zero otherwise.
pub open spec fn bit_bits(b: u8) -> u32 {
    if b == 1 {
        F_ONE
    } else {
        F_ZERO
    }
}

/// A sample's feature vector as a one-row matrix of singles.
pub open spec fn sample_input(v: Seq<u8>) -> Seq<Seq<u32>> {
    seq![v.map_values(|b: u8| bit_bits(b))]
}

/// A sample's label as a one-by-one matrix of singles.
pub open spec fn sample_target(y: u8) -> Seq<Seq<u32>> {
    seq![seq![bit_bits(y)]]
}

/// Turn a 0/1 feature vector into the one-row matrix the model takes.
pub fn input_from_bits(v: &Vec<u8>) -> (r: Matrix)
    requires
        1 <= v@.len(),
        forall|i: int| 0 <= i < v@.len() ==> #[trigger] v@[i] <= 1,
    ensures
        r.is_shape(1, v@.len() as int),
        r@ == sample_input(v@),
{
    let n = v.len();
    let mut row: Vec<u32> = Vec::new();
    let mut i: usize = 0;
    while i < n
        invariant
            n == v@.len(),
            i <= n,
            row@.len() == i as int,
            forall|q: int| 0 <= q < i as int ==> #[trigger] row@[q] == bit_bits(v@[q]),
        decreases n - i,
    {
        let b = v[i];
        row.push(if b == 1 {
            F_ONE
        } else {
            F_ZERO
        });
        i = i + 1;
    }
    let mut data: Vec<Vec<u32>> = Vec::new();
    data.push(row);
    let m = Matrix::from_vec(data);
    proof {
        assert(m@[0] =~= sample_input(v@)[0]);
        assert(m@ =~= sample_input(v@));
    }
    m
}

/// Turn a 0/1 label into the one-by-one target matrix.
pub fn target_from_label(y: u8) -> (r: Matrix)
    requires
        y <= 1,
    ensures
        r.is_shape(1, 1),
        r@ == sample_target(y),
{
    let mut row: Vec<u32> = Vec::new();
    row.push(
        if y == 1 {
            F_ONE
        } else {
            F_ZERO
        },
    );
    let mut data: Vec<Vec<u32>> = Vec::new();
    data.push(row);
    let m = Matrix::from_vec(data);
    proof {
        assert(m@[0] =~= sample_target(y)[0]);
        assert(m@ =~= sample_target(y));
    }
    m
}

/// Every sample holds ten 0/1 features and a 0/1 label.
pub open spec fn samples_wf(data: Seq<(Vec<u8>, u8)>) -> bool {
    &&& forall|k: int| 0 <= k < data.len() ==> (#[trigger] data[k]).0@.len() == 10
    &&& forall|k: int, i: int|
        0 <= k < data.len() && 0 <= i < 10 ==> #[trigger] data[k].0@[i] <= 1
    &&& forall|k: int| 0 <= k < data.len() ==> (#[trigger] data[k]).1 <= 1
}

/// The layer states after training on the first `k` samples in order.
pub open spec fn epoch_next(s: Seq<LayerModel>, data: Seq<(Vec<u8>, u8)>, k: int, lr: u32) -> Seq<
    LayerModel,
>
    decreases k,
{
    if k <= 0 {
        s
    } else {
        train_step_next(
            epoch_next(s, data, k - 1, lr),
            sample_input(data[k - 1].0@),
            sample_target(data[k - 1].1),
            lr,
            10,
        )
    }
}

/// The per-step losses over the first `k` samples, summed in order from
/// zero.
pub open spec fn epoch_loss(s: Seq<LayerModel>, data: Seq<(Vec<u8>, u8)>, k: int, lr: u32) -> u32
    decreases k,
{
    if k <= 0 {
        F_ZERO
    } else {
        fadd(
            epoch_loss(s, data, k - 1, lr),
            train_step_loss(
                epoch_next(s, data, k - 1, lr),
                sample_input(data[k - 1].0@),
                sample_target(data[k - 1].1),
                10,
            ),
        )
    }
}

/// Train on the first `count` samples, one step each in order; returns the
/// summed loss.
pub fn train_epoch(
    model: &mut Model,
    data: &Vec<(Vec<u8>, u8)>,
    count: usize,
    learning_rate: u32,
) -> (r: u32)
    requires
        old(model).wf(),
        pipe_ok(old(model)@, 10),
        pipe_out_cols(old(model)@, 10) == 1,
        acts_sigmoid(old(model)@),
        count as int <= data@.len(),
        samples_wf(data@),
    ensures
        final(model).wf(),
        final(model)@ == epoch_next(old(model)@, data@, count as int, learning_rate),
        r == epoch_loss(old(model)@, data@, count as int, learning_rate),
{
    let ghost s0 = old(model)@;
    let mut total: u32 = F_ZERO;
    let mut k: usize = 0;
    while k < count
        invariant
            model.wf(),
            pipe_ok(s0, 10),
            pipe_out_cols(s0, 10) == 1,
            acts_sigmoid(s0),
            count as int <= data@.len(),
            samples_wf(data@),
            k <= count,
            model@ == epoch_next(s0, data@, k as int, learning_rate),
            model@.len() == s0.len(),
            forall|j: int| 0 <= j < s0.len() ==> struct_eq(#[trigger] s0[j], model@[j]),
            total == epoch_loss(s0, data@, k as int, learning_rate),
        decreases count - k,
    {
        proof {
            lemma_pipe_struct(s0, model@, 10);
            assert(acts_sigmoid(model@)) by {
                assert forall|j: int| 0 <= j < model@.len() implies act_is_sigmoid(
                    #[trigger] model@[j],
                ) by {
                    assert(struct_eq(s0[j], model@[j]));
                    assert(act_is_sigmoid(s0[j]));
                }
            }
        }
        let sample = &data[k];
        let input = input_from_bits(&sample.0);
        let target = target_from_label(sample.1);
        let ghost before = model@;
        let step_loss = train_step(model, &input, &target, learning_rate);
        total = add_bits(total, step_loss);
        proof {
            lemma_train_step_struct(
                before,
                sample_input(data@[k as int].0@),
                sample_target(data@[k as int].1),
                learning_rate,
                10,
            );
            assert forall|j: int| 0 <= j < s0.len() implies struct_eq(
                #[trigger] s0[j],
                model@[j],
            ) by {
                assert(struct_eq(s0[j], before[j]));
                assert(struct_eq(before[j], model@[j]));
            }
        }
        k = k + 1;
    }
    total
}

/// The layer states after running inference over the first `k` samples.
pub open spec fn eval_next(s: Seq<LayerModel>, data: Seq<(Vec<u8>, u8)>, k: int) -> Seq<LayerModel>
    decreases k,
{
    if k <= 0 {
        s
    } else {
        fwd_next_seq(eval_next(s, data, k - 1), sample_input(data[k - 1].0@))
    }
}

/// Whether sample `k` is read as prime: its prediction compares at or above
/// one half.
pub open spec fn eval_pred(s: Seq<LayerModel>, data: Seq<(Vec<u8>, u8)>, k: int) -> bool {
    fge(
        fwd_out_seq(eval_next(s, data, k), sample_input(data[k].0@))[0][0],
        F_HALF,
    )
}

/// Whether a prediction and a label agree: at or above one half with label
/// one, or strictly below one half with label zero.
pub open spec fn sample_correct(p: u32, y: u8) -> bool {
    (fge(p, F_HALF) && y == 1) || (fgt(F_HALF, p) && y == 0)
}

/// How many of the first `k` samples the model classifies correctly.
pub open spec fn eval_count(s: Seq<LayerModel>, data: Seq<(Vec<u8>, u8)>, k: int) -> int
    decreases k,
{
    if k <= 0 {
        0
    } else {
        eval_count(s, data, k - 1) + if sample_correct(
            fwd_out_seq(eval_next(s, data, k - 1), sample_input(data[k - 1].0@))[0][0],
            data[k - 1].1,
        ) {
            1int
        } else {
            0int
        }
    }
}

/// Run inference over the whole dataset: the count of correct
/// classifications, and each sample's prediction read as prime or not.
pub fn evaluate(model: &mut Model, data: &Vec<(Vec<u8>, u8)>) -> (r: (usize, Vec<bool>))
    requires
        old(model).wf(),
        pipe_ok(old(model)@, 10),
        pipe_out_cols(old(model)@, 10) == 1,
        samples_wf(data@),
    ensures
        final(model).wf(),
        final(model)@ == eval_next(old(model)@, data@, data@.len() as int),
        r.0 as int == eval_count(old(model)@, data@, data@.len() as int),
        r.1@.len() == data@.len(),
        forall|k: int| 0 <= k < data@.len() ==> #[trigger] r.1@[k] == eval_pred(old(model)@, data@, k),
{
    let ghost s0 = old(model)@;
    let n = data.len();
    let mut correct: usize = 0;
    let mut preds: Vec<bool> = Vec::new();
    let mut k: usize = 0;
    while k < n
        invariant
            model.wf(),
            pipe_ok(s0, 10),
            pipe_out_cols(s0, 10) == 1,
            n == data@.len(),
            samples_wf(data@),
            k <= n,
            model@ == eval_next(s0, data@, k as int),
            model@.len() == s0.len(),
            forall|j: int| 0 <= j < s0.len() ==> struct_eq(#[trigger] s0[j], model@[j]),
            correct as int == eval_count(s0, data@, k as int),
            correct <= k,
            preds@.len() == k as int,
            forall|j: int| 0 <= j < k as int ==> #[trigger] preds@[j] == eval_pred(s0, data@, j),
        decreases n - k,
    {
        proof {
            lemma_pipe_struct(s0, model@, 10);
        }
        let sample = &data[k];
        let input = input_from_bits(&sample.0);
        let ghost before = model@;
        let out = model.forward(&input);
        let p = out.get(0, 0);
        let pred = ge_bits(p, F_HALF);
        let y = sample.1;
        if (pred && y == 1) || (gt_bits(F_HALF, p) && y == 0) {
            correct = correct + 1;
        }
        preds.push(pred);
        proof {
            lemma_fwd_next_struct(before, sample_input(data@[k as int].0@));
            assert forall|j: int| 0 <= j < s0.len() implies struct_eq(
                #[trigger] s0[j],
                model@[j],
            ) by {
                assert(struct_eq(s0[j], before[j]));
                assert(struct_eq(before[j], model@[j]));
            }
        }
        k = k + 1;
    }
    (correct, preds)
}

/// Whether a scalar prediction in the unit range reads as "prime": it
/// compares at or above one half.
pub fn predicts_prime(prediction: u32) -> (r: bool)
    ensures
        r == fge(prediction, F_HALF),
{
    ge_bits(prediction, F_HALF)
}

} // verus!
