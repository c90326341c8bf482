use vstd::prelude::*;
use vstd::arithmetic::div_mod::{lemma_div_nonincreasing, lemma_div_pos_is_pos, lemma_multiply_divide_le};
use crate::data::{copy_samples, dataset_model, dataset_ok, labels_ok, lemma_ok_from_multiset, Sample};
use crate::errors::NetError;
use crate::fixed::{
    add_model, bce_model, div_model, fx_abs, fx_add, fx_bce_loss, fx_div, fx_mul, fx_ok,
    fx_sigmoid, fx_sub, fx_tanh, mul_model, sigmoid_model, sub_model, tanh_model, tdiv, FX_HALF,
    FX_LIMIT, FX_ONE,
};
use crate::random::{gen_unit, shuffle_samples};

verus! {

/// A two-layer feed-forward network for binary classification: 14 inputs, a
/// configurable hidden layer, one output unit. All scalars are fixed-point.
pub struct NeuralNetwork {
    pub input_size: usize,
    pub hidden_size: usize,
    pub output_size: usize,
    pub weights1: Vec<Vec<i64>>,
    pub weights2: Vec<Vec<i64>>,
    pub bias1: Vec<i64>,
    pub bias2: Vec<i64>,
}

impl NeuralNetwork {
    /// Well-formed parameters: the dataset-fixed sizes, matching matrix
    /// dimensions, and representable scalars everywhere.
    pub open spec fn wf(self) -> bool {
        &&& self.input_size == 14
        &&& self.output_size == 1
        &&& self.weights1@.len() == 14
        &&& forall|i: int| 0 <= i < 14 ==> (#[trigger] self.weights1@[i])@.len() == self.hidden_size
        &&& forall|i: int, j: int|
            0 <= i < 14 && 0 <= j < self.hidden_size ==> fx_ok(
                (#[trigger] self.weights1@[i]@[j]) as int,
            )
        &&& self.weights2@.len() == self.hidden_size
        &&& forall|i: int|
            0 <= i < self.hidden_size ==> (#[trigger] self.weights2@[i])@.len() == 1
        &&& forall|i: int|
            0 <= i < self.hidden_size ==> fx_ok((#[trigger] self.weights2@[i]@[0]) as int)
        &&& self.bias1@.len() == self.hidden_size
        &&& forall|j: int| 0 <= j < self.hidden_size ==> fx_ok((#[trigger] self.bias1@[j]) as int)
        &&& self.bias2@.len() == 1
        &&& fx_ok(self.bias2@[0] as int)
    }
}

pub open spec fn to_ints(s: Seq<i64>) -> Seq<int> {
    s.map_values(|v: i64| v as int)
}

/// Partial weighted sum of the first `i` inputs into hidden unit `j`,
/// accumulated with the saturating fixed-point operations.
pub open spec fn hidden_pre(nn: NeuralNetwork, x: Seq<i64>, j: int, i: int) -> int
    decreases i,
{
    if i <= 0 {
        0
    } else {
        add_model(
            hidden_pre(nn, x, j, i - 1),
            mul_model(x[i - 1] as int, nn.weights1@[i - 1]@[j] as int),
        )
    }
}

/// Activation of hidden unit `j` on input `x`.
pub open spec fn hidden_model(nn: NeuralNetwork, x: Seq<i64>, j: int) -> int {
    tanh_model(add_model(hidden_pre(nn, x, j, 14), nn.bias1@[j] as int))
}

/// All hidden activations on input `x`, in unit order.
pub open spec fn hidden_vals(nn: NeuralNetwork, x: Seq<i64>) -> Seq<int> {
    Seq::new(nn.hidden_size as nat, |j: int| hidden_model(nn, x, j))
}

/// Partial weighted sum of the first `i` hidden activations into the output
/// unit.
pub open spec fn out_pre(nn: NeuralNetwork, h: Seq<int>, i: int) -> int
    decreases i,
{
    if i <= 0 {
        0
    } else {
        add_model(out_pre(nn, h, i - 1), mul_model(h[i - 1], nn.weights2@[i - 1]@[0] as int))
    }
}

/// Output probability computed from given hidden activations.
pub open spec fn output_from_hidden(nn: NeuralNetwork, h: Seq<int>) -> int {
    sigmoid_model(add_model(out_pre(nn, h, nn.hidden_size as int), nn.bias2@[0] as int))
}

/// Output probability of the whole forward pass on input `x`: a function of
/// the parameters and the input alone.
pub open spec fn output_model(nn: NeuralNetwork, x: Seq<i64>) -> int {
    output_from_hidden(nn, hidden_vals(nn, x))
}

/// Freshly drawn parameters: every weight and bias lies in [-FX_ONE, FX_ONE).
pub open spec fn params_in_unit_range(nn: NeuralNetwork) -> bool {
    &&& forall|i: int, j: int|
        0 <= i < 14 && 0 <= j < nn.hidden_size ==> -FX_ONE <= (#[trigger] nn.weights1@[i]@[j])
            < FX_ONE
    &&& forall|i: int| 0 <= i < nn.hidden_size ==> -FX_ONE <= #[trigger] nn.weights2@[i]@[0] < FX_ONE
    &&& forall|j: int| 0 <= j < nn.hidden_size ==> -FX_ONE <= #[trigger] nn.bias1@[j] < FX_ONE
    &&& -FX_ONE <= nn.bias2@[0] < FX_ONE
}

impl NeuralNetwork {
    /// Hidden activations for a shape-checked input.
    fn hidden_layer(&self, inputs: &Vec<i64>) -> (h: Vec<i64>)
        requires
            self.wf(),
            inputs@.len() == 14,
            forall|i: int| 0 <= i < 14 ==> fx_ok((#[trigger] inputs@[i]) as int),
        ensures
            h@.len() == self.hidden_size,
            forall|j: int|
                0 <= j < h@.len() ==> (#[trigger] h@[j]) as int == hidden_model(
                    *self,
                    inputs@,
                    j,
                ),
            forall|j: int| 0 <= j < h@.len() ==> -FX_ONE < #[trigger] h@[j] < FX_ONE,
    {
        let hs = self.hidden_size;
        let mut h: Vec<i64> = Vec::new();
        let mut j: usize = 0;
        while j < hs
            invariant
                self.wf(),
                inputs@.len() == 14,
                forall|i: int| 0 <= i < 14 ==> fx_ok((#[trigger] inputs@[i]) as int),
                hs == self.hidden_size,
                j <= hs,
                h@.len() == j,
                forall|t: int|
                    0 <= t < j ==> (#[trigger] h@[t]) as int == hidden_model(*self, inputs@, t),
                forall|t: int| 0 <= t < j ==> -FX_ONE < #[trigger] h@[t] < FX_ONE,
            decreases hs - j,
        {
            let mut acc: i64 = 0;
            let mut i: usize = 0;
            while i < 14
                invariant
                    self.wf(),
                    inputs@.len() == 14,
                    forall|t: int| 0 <= t < 14 ==> fx_ok((#[trigger] inputs@[t]) as int),
                    hs == self.hidden_size,
                    j < hs,
                    i <= 14,
                    fx_ok(acc as int),
                    acc as int == hidden_pre(*self, inputs@, j as int, i as int),
                decreases 14 - i,
            {
                let wrow = &self.weights1[i];
                acc = fx_add(acc, fx_mul(inputs[i], wrow[j]));
                i += 1;
            }
            let z = fx_add(acc, self.bias1[j]);
            h.push(fx_tanh(z));
            j += 1;
        }
        h
    }

    /// Output probability for hidden activations of the right length.
    fn output_layer(&self, hidden: &Vec<i64>) -> (p: i64)
        requires
            self.wf(),
            hidden@.len() == self.hidden_size,
            forall|i: int| 0 <= i < hidden@.len() ==> fx_ok((#[trigger] hidden@[i]) as int),
        ensures
            p as int == output_from_hidden(*self, to_ints(hidden@)),
            0 < p < FX_ONE,
    {
        let hs = self.hidden_size;
        let mut acc: i64 = 0;
        let mut i: usize = 0;
        while i < hs
            invariant
                self.wf(),
                hidden@.len() == self.hidden_size,
                forall|t: int| 0 <= t < hidden@.len() ==> fx_ok((#[trigger] hidden@[t]) as int),
                hs == self.hidden_size,
                i <= hs,
                fx_ok(acc as int),
                acc as int == out_pre(*self, to_ints(hidden@), i as int),
            decreases hs - i,
        {
            let wrow = &self.weights2[i];
            acc = fx_add(acc, fx_mul(hidden[i], wrow[0]));
            i += 1;
        }
        fx_sigmoid(fx_add(acc, self.bias2[0]))
    }

    /// Hidden activations of the forward pass; fails with a shape error
    /// exactly when the input length is not the fixed input size.
    pub fn forward(&self, inputs: &Vec<i64>) -> (r: Result<Vec<i64>, NetError>)
        requires
            self.wf(),
            forall|i: int| 0 <= i < inputs@.len() ==> fx_ok((#[trigger] inputs@[i]) as int),
        ensures
            match r {
                Ok(h) => {
                    &&& inputs@.len() == 14
                    &&& h@.len() == self.hidden_size
                    &&& forall|j: int|
                        0 <= j < h@.len() ==> (#[trigger] h@[j]) as int == hidden_model(
                            *self,
                            inputs@,
                            j,
                        )
                    &&& forall|j: int| 0 <= j < h@.len() ==> -FX_ONE < #[trigger] h@[j] < FX_ONE
                },
                Err(e) => e == NetError::ShapeError && inputs@.len() != 14,
            },
    {
        if inputs.len() != 14 {
            return Err(NetError::ShapeError);
        }
        Ok(self.hidden_layer(inputs))
    }

    /// Output probability of the forward pass from hidden activations; fails
    /// with a shape error exactly when the length is not the hidden size.
    pub fn forward_output(&self, hidden: &Vec<i64>) -> (r: Result<i64, NetError>)
        requires
            self.wf(),
            forall|i: int| 0 <= i < hidden@.len() ==> fx_ok((#[trigger] hidden@[i]) as int),
        ensures
            match r {
                Ok(p) => {
                    &&& hidden@.len() == self.hidden_size
                    &&& p as int == output_from_hidden(*self, to_ints(hidden@))
                    &&& 0 < p < FX_ONE
                },
                Err(e) => e == NetError::ShapeError && hidden@.len() != self.hidden_size,
            },
    {
        if hidden.len() != self.hidden_size {
            return Err(NetError::ShapeError);
        }
        Ok(self.output_layer(hidden))
    }

    /// Inference on an already-scaled input: the output probability and the
    /// class, 1 exactly when the probability exceeds one half. Fails with a
    /// shape error exactly when the input length is not the fixed input size.
    pub fn predict_with_probability(&self, inputs: &Vec<i64>) -> (r: Result<(i64, i32), NetError>)
        requires
            self.wf(),
            forall|i: int| 0 <= i < inputs@.len() ==> fx_ok((#[trigger] inputs@[i]) as int),
        ensures
            match r {
                Ok(pc) => {
                    &&& inputs@.len() == 14
                    &&& pc.0 as int == output_model(*self, inputs@)
                    &&& 0 < pc.0 < FX_ONE
                    &&& pc.1 == (if output_model(*self, inputs@) > FX_HALF {
                        1i32
                    } else {
                        0i32
                    })
                },
                Err(e) => e == NetError::ShapeError && inputs@.len() != 14,
            },
    {
        if inputs.len() != 14 {
            return Err(NetError::ShapeError);
        }
        let h = self.hidden_layer(inputs);
        let p = self.output_layer(&h);
        proof {
            assert(to_ints(h@) =~= hidden_vals(*self, inputs@));
        }
        let c: i32 = if p > FX_HALF {
            1
        } else {
            0
        };
        Ok((p, c))
    }

    /// Fresh parameters with every weight and bias drawn independently and
    /// uniformly from [-FX_ONE, FX_ONE); fails with a shape error exactly
    /// when the sizes are not the dataset-fixed ones.
    pub fn new(
        input_size: usize,
        hidden_size: usize,
        output_size: usize,
        rng: &mut rand::rngs::StdRng,
    ) -> (r: Result<NeuralNetwork, NetError>)
        ensures
            match r {
                Ok(nn) => {
                    &&& input_size == 14
                    &&& output_size == 1
                    &&& nn.wf()
                    &&& nn.hidden_size == hidden_size
                    &&& params_in_unit_range(nn)
                },
                Err(e) => e == NetError::ShapeError && (input_size != 14 || output_size != 1),
            },
    {
        if input_size != 14 || output_size != 1 {
            return Err(NetError::ShapeError);
        }
        let mut weights1: Vec<Vec<i64>> = Vec::new();
        let mut i: usize = 0;
        while i < 14
            invariant
                i <= 14,
                weights1@.len() == i,
                forall|t: int| 0 <= t < i ==> (#[trigger] weights1@[t])@.len() == hidden_size,
                forall|t: int, j: int|
                    0 <= t < i && 0 <= j < hidden_size ==> -FX_ONE <= (
                    #[trigger] weights1@[t]@[j]) < FX_ONE,
            decreases 14 - i,
        {
            let mut row: Vec<i64> = Vec::new();
            let mut j: usize = 0;
            while j < hidden_size
                invariant
                    j <= hidden_size,
                    row@.len() == j,
                    forall|t: int| 0 <= t < j ==> -FX_ONE <= #[trigger] row@[t] < FX_ONE,
                decreases hidden_size - j,
            {
                row.push(gen_unit(rng));
                j += 1;
            }
            weights1.push(row);
            i += 1;
        }
        let mut weights2: Vec<Vec<i64>> = Vec::new();
        let mut k: usize = 0;
        while k < hidden_size
            invariant
                k <= hidden_size,
                weights2@.len() == k,
                forall|t: int| 0 <= t < k ==> (#[trigger] weights2@[t])@.len() == 1,
                forall|t: int| 0 <= t < k ==> -FX_ONE <= #[trigger] weights2@[t]@[0] < FX_ONE,
            decreases hidden_size - k,
        {
            let mut cell: Vec<i64> = Vec::new();
            cell.push(gen_unit(rng));
            weights2.push(cell);
            k += 1;
        }
        let mut bias1: Vec<i64> = Vec::new();
        let mut m: usize = 0;
        while m < hidden_size
            invariant
                m <= hidden_size,
                bias1@.len() == m,
                forall|t: int| 0 <= t < m ==> -FX_ONE <= #[trigger] bias1@[t] < FX_ONE,
            decreases hidden_size - m,
        {
            bias1.push(gen_unit(rng));
            m += 1;
        }
        let mut bias2: Vec<i64> = Vec::new();
        bias2.push(gen_unit(rng));
        Ok(NeuralNetwork { input_size, hidden_size, output_size, weights1, weights2, bias1, bias2 })
    }
}

/// Tolerance of the correctness test, about one tenth: for the binary labels
/// 0 and FX_ONE it makes the test exact class agreement.
pub const FX_TOLERANCE: i64 = 6554;

/// Classification of an output probability: FX_ONE above one half, else 0.
pub open spec fn class_of(p: int) -> int {
    if p > FX_HALF {
        FX_ONE as int
    } else {
        0
    }
}

/// A sample counts as correct when its class lies within the tolerance of its
/// label.
pub open spec fn is_correct(nn: NeuralNetwork, s: Sample) -> bool {
    fx_abs(class_of(output_model(nn, s.features@)) - s.label) < FX_TOLERANCE
}

/// Number of correct samples among the first `n` of a dataset.
pub open spec fn correct_count(nn: NeuralNetwork, d: Seq<Sample>, n: int) -> int
    decreases n,
{
    if n <= 0 {
        0
    } else {
        correct_count(nn, d, n - 1) + if is_correct(nn, d[n - 1]) {
            1int
        } else {
            0int
        }
    }
}

/// Accuracy as a fixed-point fraction: correct count over total.
pub open spec fn accuracy_model(nn: NeuralNetwork, d: Seq<Sample>) -> int {
    div_model(correct_count(nn, d, d.len() as int), d.len() as int)
}

proof fn lemma_correct_count_bounds(nn: NeuralNetwork, d: Seq<Sample>, n: int)
    requires
        0 <= n <= d.len(),
    ensures
        0 <= correct_count(nn, d, n) <= n,
    decreases n,
{
    if n > 0 {
        lemma_correct_count_bounds(nn, d, n - 1);
    }
}

/// The output error of one training step.
pub open spec fn bp_err(p: int, t: int) -> int {
    sub_model(p, t)
}

/// The updated output weight of hidden unit `i`.
pub open spec fn bp_w2(old_w2: int, h_i: int, p: int, t: int, lr: int) -> int {
    sub_model(old_w2, mul_model(mul_model(bp_err(p, t), lr), h_i))
}

/// The updated output bias.
pub open spec fn bp_b2(old_b2: int, p: int, t: int, lr: int) -> int {
    sub_model(old_b2, mul_model(bp_err(p, t), lr))
}

/// The hidden error of a unit, computed from the already-updated output
/// weight, with the h * (1 - h) derivative shape applied to the hidden
/// activation.
pub open spec fn bp_hidden_err(new_w2: int, h: int, p: int, t: int) -> int {
    mul_model(mul_model(mul_model(bp_err(p, t), new_w2), h), sub_model(FX_ONE as int, h))
}

/// The hidden error of unit `j` for a whole old parameter set.
pub open spec fn bp_he_j(nn: NeuralNetwork, h: Seq<i64>, p: int, t: int, lr: int, j: int) -> int {
    bp_hidden_err(bp_w2(nn.weights2@[j]@[0] as int, h[j] as int, p, t, lr), h[j] as int, p, t)
}

/// The updated input-layer weight.
pub open spec fn bp_w1(old_w1: int, he: int, x: int, lr: int) -> int {
    sub_model(old_w1, mul_model(mul_model(lr, he), x))
}

/// The updated hidden bias.
pub open spec fn bp_b1(old_b1: int, he: int, lr: int) -> int {
    sub_model(old_b1, mul_model(lr, he))
}

/// One online training step as a relation on parameter states: `post` is
/// exactly what the backpropagation update on sample `s` with learning rate
/// `lr` makes of `pre`. The output layer is updated first; the hidden error
/// is taken from the already-updated output weights and uses the h * (1 - h)
/// derivative shape on the hidden activation.
pub open spec fn step_rel(pre: NeuralNetwork, s: Sample, lr: int, post: NeuralNetwork) -> bool {
    let x = s.features@;
    let p = output_model(pre, x);
    let t = s.label as int;
    &&& post.input_size == pre.input_size
    &&& post.hidden_size == pre.hidden_size
    &&& post.output_size == pre.output_size
    &&& post.weights1@.len() == pre.weights1@.len()
    &&& post.weights2@.len() == pre.weights2@.len()
    &&& post.bias1@.len() == pre.bias1@.len()
    &&& post.bias2@.len() == pre.bias2@.len()
    &&& forall|i: int| 0 <= i < 14 ==> (#[trigger] post.weights1@[i])@.len() == pre.hidden_size
    &&& forall|j: int| 0 <= j < pre.hidden_size ==> (#[trigger] post.weights2@[j])@.len() == 1
    &&& forall|j: int|
        0 <= j < pre.hidden_size ==> (#[trigger] post.weights2@[j]@[0]) as int == bp_w2(
            pre.weights2@[j]@[0] as int,
            hidden_model(pre, x, j),
            p,
            t,
            lr,
        )
    &&& post.bias2@[0] as int == bp_b2(pre.bias2@[0] as int, p, t, lr)
    &&& forall|i: int, j: int|
        0 <= i < 14 && 0 <= j < pre.hidden_size ==> (#[trigger] post.weights1@[i]@[j]) as int
            == bp_w1(
            pre.weights1@[i]@[j] as int,
            bp_hidden_err(
                bp_w2(pre.weights2@[j]@[0] as int, hidden_model(pre, x, j), p, t, lr),
                hidden_model(pre, x, j),
                p,
                t,
            ),
            x[i] as int,
            lr,
        )
    &&& forall|j: int|
        0 <= j < pre.hidden_size ==> (#[trigger] post.bias1@[j]) as int == bp_b1(
            pre.bias1@[j] as int,
            bp_hidden_err(
                bp_w2(pre.weights2@[j]@[0] as int, hidden_model(pre, x, j), p, t, lr),
                hidden_model(pre, x, j),
                p,
                t,
            ),
            lr,
        )
}

/// A chain of per-sample steps across one epoch: `states[k]` holds the
/// parameters before the `k`-th sample of the visiting order, `corrects[k]`
/// and `losses[k]` the running tallies before it, accumulated exactly as the
/// loop accumulates them.
pub open spec fn sample_chain(
    states: Seq<NeuralNetwork>,
    order: Seq<Sample>,
    lr: int,
    corrects: Seq<int>,
    losses: Seq<int>,
) -> bool {
    &&& states.len() == order.len() + 1
    &&& corrects.len() == order.len() + 1
    &&& losses.len() == order.len() + 1
    &&& corrects[0] == 0
    &&& losses[0] == 0
    &&& forall|k: int|
        0 <= k < order.len() ==> step_rel(#[trigger] states[k], order[k], lr, states[k + 1])
    &&& forall|k: int|
        0 <= k < order.len() ==> corrects[k + 1] == corrects[k] + (if is_correct(
            #[trigger] states[k],
            order[k],
        ) {
            1int
        } else {
            0int
        })
    &&& forall|k: int|
        0 <= k < order.len() ==> losses[k + 1] == add_model(
            losses[k],
            bce_model(
                output_model(#[trigger] states[k], order[k].features@),
                order[k].label as int,
            ),
        )
}

/// One whole epoch: some chain of per-sample steps over the visiting order
/// leads from `start` to `post`, with `correct` samples classified in
/// agreement with their labels at visit time and `loss_sum` the accumulated
/// loss.
pub open spec fn epoch_rel(
    start: NeuralNetwork,
    order: Seq<Sample>,
    lr: int,
    post: NeuralNetwork,
    correct: int,
    loss_sum: int,
) -> bool {
    exists|states: Seq<NeuralNetwork>, corrects: Seq<int>, losses: Seq<int>|
        {
            &&& #[trigger] sample_chain(states, order, lr, corrects, losses)
            &&& states[0] == start
            &&& states.last() == post
            &&& correct == corrects.last()
            &&& loss_sum == losses.last()
        }
}

/// The epoch-by-epoch links of a whole training run: `states[e]` holds the
/// parameters entering epoch `e`; each epoch visits a permutation of the
/// training set, and the recorded entries are the epoch's correct count over
/// the total, its accumulated loss over the total, and the accuracy of the
/// epoch's final parameters on the held-out set.
pub open spec fn run_links(
    states: Seq<NeuralNetwork>,
    orders: Seq<Seq<Sample>>,
    cs: Seq<int>,
    ls: Seq<int>,
    start: NeuralNetwork,
    data: Seq<Sample>,
    lr: int,
    e: int,
    post: NeuralNetwork,
    accs: Seq<i64>,
    losses: Seq<i64>,
    vals: Seq<i64>,
    val_data: Seq<Sample>,
) -> bool {
    &&& e >= 0
    &&& states.len() == e + 1
    &&& orders.len() == e
    &&& cs.len() == e
    &&& ls.len() == e
    &&& accs.len() == e
    &&& losses.len() == e
    &&& vals.len() == e
    &&& states[0] == start
    &&& states[e] == post
    &&& forall|k: int| 0 <= k < e ==> (#[trigger] orders[k]).len() == data.len()
    &&& forall|k: int|
        0 <= k < e ==> dataset_model(#[trigger] orders[k]).to_multiset() == dataset_model(
            data,
        ).to_multiset()
    &&& forall|k: int|
        0 <= k < e ==> epoch_rel(#[trigger] states[k], orders[k], lr, states[k + 1], cs[k], ls[k])
    &&& forall|k: int| 0 <= k < e ==> 0 <= #[trigger] cs[k] <= data.len()
    &&& forall|k: int| 0 <= k < e ==> 0 <= #[trigger] ls[k]
    &&& forall|k: int| 0 <= k < e ==> (#[trigger] accs[k]) as int == div_model(cs[k], data.len() as int)
    &&& forall|k: int|
        0 <= k < e ==> (#[trigger] losses[k]) as int == tdiv(ls[k], data.len() as int)
    &&& forall|k: int|
        0 <= k < e ==> (#[trigger] vals[k]) as int == accuracy_model(states[k + 1], val_data)
}

/// The whole training run: `e` epochs of online per-sample updates lead from
/// `start` to `post`, each epoch over a fresh permutation of the training
/// set, with the three histories recording each epoch's accuracy (a correct
/// count over the total), average accumulated loss, and held-out accuracy.
/// Zero epochs leave the parameters unchanged and the histories empty.
pub open spec fn training_run(
    start: NeuralNetwork,
    data: Seq<Sample>,
    lr: int,
    e: int,
    post: NeuralNetwork,
    accs: Seq<i64>,
    losses: Seq<i64>,
    vals: Seq<i64>,
    val_data: Seq<Sample>,
) -> bool {
    exists|states: Seq<NeuralNetwork>, orders: Seq<Seq<Sample>>, cs: Seq<int>, ls: Seq<int>|
        #[trigger] run_links(
            states,
            orders,
            cs,
            ls,
            start,
            data,
            lr,
            e,
            post,
            accs,
            losses,
            vals,
            val_data,
        )
}

impl NeuralNetwork {
    /// One backpropagation step on a single sample, in place: the output
    /// layer is updated first, the hidden error is then computed from the
    /// already-updated output weights, and the input layer is updated last.
    pub fn update_from_sample(
        &mut self,
        inputs: &Vec<i64>,
        hidden: &Vec<i64>,
        p: i64,
        target: i64,
        learning_rate: i64,
    )
        requires
            old(self).wf(),
            inputs@.len() == 14,
            forall|i: int| 0 <= i < 14 ==> fx_ok((#[trigger] inputs@[i]) as int),
            hidden@.len() == old(self).hidden_size,
            forall|i: int| 0 <= i < hidden@.len() ==> fx_ok((#[trigger] hidden@[i]) as int),
            fx_ok(p as int),
            fx_ok(target as int),
            fx_ok(learning_rate as int),
        ensures
            final(self).wf(),
            final(self).hidden_size == old(self).hidden_size,
            final(self).input_size == old(self).input_size,
            final(self).output_size == old(self).output_size,
            forall|i: int|
                0 <= i < old(self).hidden_size ==> (#[trigger] final(self).weights2@[i]@[0]) as int
                    == bp_w2(
                    old(self).weights2@[i]@[0] as int,
                    hidden@[i] as int,
                    p as int,
                    target as int,
                    learning_rate as int,
                ),
            final(self).bias2@[0] as int == bp_b2(
                old(self).bias2@[0] as int,
                p as int,
                target as int,
                learning_rate as int,
            ),
            forall|i: int, j: int|
                0 <= i < 14 && 0 <= j < old(self).hidden_size ==> (
                #[trigger] final(self).weights1@[i]@[j]) as int == bp_w1(
                    old(self).weights1@[i]@[j] as int,
                    bp_he_j(
                        *old(self),
                        hidden@,
                        p as int,
                        target as int,
                        learning_rate as int,
                        j,
                    ),
                    inputs@[i] as int,
                    learning_rate as int,
                ),
            forall|j: int|
                0 <= j < old(self).hidden_size ==> (#[trigger] final(self).bias1@[j]) as int
                    == bp_b1(
                    old(self).bias1@[j] as int,
                    bp_he_j(
                        *old(self),
                        hidden@,
                        p as int,
                        target as int,
                        learning_rate as int,
                        j,
                    ),
                    learning_rate as int,
                ),
    {
        let hs = self.hidden_size;
        let err = fx_sub(p, target);
        let mut new_w2: Vec<Vec<i64>> = Vec::new();
        let mut i: usize = 0;
        while i < hs
            invariant
                self == old(self),
                self.wf(),
                hs == self.hidden_size,
                hidden@.len() == hs,
                forall|t: int| 0 <= t < hidden@.len() ==> fx_ok((#[trigger] hidden@[t]) as int),
                fx_ok(p as int),
                fx_ok(target as int),
                fx_ok(learning_rate as int),
                err as int == bp_err(p as int, target as int),
                fx_ok(err as int),
                i <= hs,
                new_w2@.len() == i,
                forall|t: int| 0 <= t < i ==> (#[trigger] new_w2@[t])@.len() == 1,
                forall|t: int|
                    0 <= t < i ==> (#[trigger] new_w2@[t]@[0]) as int == bp_w2(
                        self.weights2@[t]@[0] as int,
                        hidden@[t] as int,
                        p as int,
                        target as int,
                        learning_rate as int,
                    ),
                forall|t: int| 0 <= t < i ==> fx_ok((#[trigger] new_w2@[t]@[0]) as int),
            decreases hs - i,
        {
            let wrow = &self.weights2[i];
            let d = fx_mul(fx_mul(err, learning_rate), hidden[i]);
            let w = fx_sub(wrow[0], d);
            let mut cell: Vec<i64> = Vec::new();
            cell.push(w);
            new_w2.push(cell);
            i += 1;
        }
        self.weights2 = new_w2;
        let nb2 = fx_sub(self.bias2[0], fx_mul(err, learning_rate));
        let mut b2v: Vec<i64> = Vec::new();
        b2v.push(nb2);
        self.bias2 = b2v;
        let mut he: Vec<i64> = Vec::new();
        let mut j: usize = 0;
        while j < hs
            invariant
                self.input_size == old(self).input_size,
                self.output_size == old(self).output_size,
                self.hidden_size == old(self).hidden_size,
                self.weights1 == old(self).weights1,
                self.bias1 == old(self).bias1,
                old(self).wf(),
                hs == self.hidden_size,
                hidden@.len() == hs,
                forall|t: int| 0 <= t < hidden@.len() ==> fx_ok((#[trigger] hidden@[t]) as int),
                fx_ok(p as int),
                fx_ok(target as int),
                fx_ok(learning_rate as int),
                err as int == bp_err(p as int, target as int),
                fx_ok(err as int),
                self.weights2@.len() == hs,
                forall|t: int| 0 <= t < hs ==> (#[trigger] self.weights2@[t])@.len() == 1,
                forall|t: int|
                    0 <= t < hs ==> (#[trigger] self.weights2@[t]@[0]) as int == bp_w2(
                        old(self).weights2@[t]@[0] as int,
                        hidden@[t] as int,
                        p as int,
                        target as int,
                        learning_rate as int,
                    ),
                forall|t: int| 0 <= t < hs ==> fx_ok((#[trigger] self.weights2@[t]@[0]) as int),
                self.bias2@.len() == 1,
                fx_ok(self.bias2@[0] as int),
                self.bias2@[0] as int == bp_b2(
                    old(self).bias2@[0] as int,
                    p as int,
                    target as int,
                    learning_rate as int,
                ),
                j <= hs,
                he@.len() == j,
                forall|t: int|
                    0 <= t < j ==> (#[trigger] he@[t]) as int == bp_he_j(
                        *old(self),
                        hidden@,
                        p as int,
                        target as int,
                        learning_rate as int,
                        t,
                    ),
                forall|t: int| 0 <= t < j ==> fx_ok((#[trigger] he@[t]) as int),
            decreases hs - j,
        {
            let wrow = &self.weights2[j];
            let e1 = fx_mul(err, wrow[0]);
            let e2 = fx_mul(e1, hidden[j]);
            let e3 = fx_mul(e2, fx_sub(FX_ONE, hidden[j]));
            he.push(e3);
            j += 1;
        }
        let ghost w2_done = self.weights2;
        let ghost b2_done = self.bias2;
        let mut new_w1: Vec<Vec<i64>> = Vec::new();
        let mut a: usize = 0;
        while a < 14
            invariant
                self.input_size == old(self).input_size,
                self.output_size == old(self).output_size,
                self.hidden_size == old(self).hidden_size,
                self.weights1 == old(self).weights1,
                self.bias1 == old(self).bias1,
                self.weights2 == w2_done,
                self.bias2 == b2_done,
                old(self).wf(),
                hs == self.hidden_size,
                inputs@.len() == 14,
                forall|t: int| 0 <= t < 14 ==> fx_ok((#[trigger] inputs@[t]) as int),
                fx_ok(learning_rate as int),
                he@.len() == hs,
                forall|t: int|
                    0 <= t < hs ==> (#[trigger] he@[t]) as int == bp_he_j(
                        *old(self),
                        hidden@,
                        p as int,
                        target as int,
                        learning_rate as int,
                        t,
                    ),
                forall|t: int| 0 <= t < hs ==> fx_ok((#[trigger] he@[t]) as int),
                a <= 14,
                new_w1@.len() == a,
                forall|t: int| 0 <= t < a ==> (#[trigger] new_w1@[t])@.len() == hs,
                forall|t: int, u: int|
                    0 <= t < a && 0 <= u < hs ==> (#[trigger] new_w1@[t]@[u]) as int == bp_w1(
                        old(self).weights1@[t]@[u] as int,
                        he@[u] as int,
                        inputs@[t] as int,
                        learning_rate as int,
                    ),
                forall|t: int, u: int|
                    0 <= t < a && 0 <= u < hs ==> fx_ok((#[trigger] new_w1@[t]@[u]) as int),
            decreases 14 - a,
        {
            let w1row = &self.weights1[a];
            let mut row: Vec<i64> = Vec::new();
            let mut b: usize = 0;
            while b < hs
                invariant
                    self.weights1 == old(self).weights1,
                    old(self).wf(),
                    hs == old(self).hidden_size,
                    inputs@.len() == 14,
                    forall|t: int| 0 <= t < 14 ==> fx_ok((#[trigger] inputs@[t]) as int),
                    fx_ok(learning_rate as int),
                    he@.len() == hs,
                    forall|t: int| 0 <= t < hs ==> fx_ok((#[trigger] he@[t]) as int),
                    a < 14,
                    w1row == &self.weights1@[a as int],
                    b <= hs,
                    row@.len() == b,
                    forall|u: int|
                        0 <= u < b ==> (#[trigger] row@[u]) as int == bp_w1(
                            old(self).weights1@[a as int]@[u] as int,
                            he@[u] as int,
                            inputs@[a as int] as int,
                            learning_rate as int,
                        ),
                    forall|u: int| 0 <= u < b ==> fx_ok((#[trigger] row@[u]) as int),
                decreases hs - b,
            {
                let d = fx_mul(fx_mul(learning_rate, he[b]), inputs[a]);
                row.push(fx_sub(w1row[b], d));
                b += 1;
            }
            new_w1.push(row);
            a += 1;
        }
        self.weights1 = new_w1;
        let mut new_b1: Vec<i64> = Vec::new();
        let mut c: usize = 0;
        while c < hs
            invariant
                self.input_size == old(self).input_size,
                self.output_size == old(self).output_size,
                self.hidden_size == old(self).hidden_size,
                self.bias1 == old(self).bias1,
                self.weights2 == w2_done,
                self.bias2 == b2_done,
                old(self).wf(),
                hs == self.hidden_size,
                fx_ok(learning_rate as int),
                he@.len() == hs,
                forall|t: int|
                    0 <= t < hs ==> (#[trigger] he@[t]) as int == bp_he_j(
                        *old(self),
                        hidden@,
                        p as int,
                        target as int,
                        learning_rate as int,
                        t,
                    ),
                forall|t: int| 0 <= t < hs ==> fx_ok((#[trigger] he@[t]) as int),
                c <= hs,
                new_b1@.len() == c,
                forall|t: int|
                    0 <= t < c ==> (#[trigger] new_b1@[t]) as int == bp_b1(
                        old(self).bias1@[t] as int,
                        he@[t] as int,
                        learning_rate as int,
                    ),
                forall|t: int| 0 <= t < c ==> fx_ok((#[trigger] new_b1@[t]) as int),
            decreases hs - c,
        {
            new_b1.push(fx_sub(self.bias1[c], fx_mul(learning_rate, he[c])));
            c += 1;
        }
        self.bias1 = new_b1;
    }

    /// Read-only accuracy over a dataset: the fraction of samples whose class
    /// agrees with the label, as a fixed-point value in [0, FX_ONE].
    pub fn evaluate(&self, data: &Vec<Sample>) -> (r: i64)
        requires
            self.wf(),
            dataset_ok(data@),
            0 < data@.len() <= FX_LIMIT,
        ensures
            r as int == accuracy_model(*self, data@),
            0 <= r <= FX_ONE,
    {
        let n = data.len();
        let mut correct: usize = 0;
        let mut k: usize = 0;
        while k < n
            invariant
                self.wf(),
                dataset_ok(data@),
                n == data@.len(),
                0 < n <= FX_LIMIT,
                k <= n,
                correct <= k,
                correct as int == correct_count(*self, data@, k as int),
            decreases n - k,
        {
            let s = &data[k];
            let h = self.hidden_layer(&s.features);
            let p = self.output_layer(&h);
            proof {
                assert(to_ints(h@) =~= hidden_vals(*self, s.features@));
            }
            let cls: i64 = if p > FX_HALF {
                FX_ONE
            } else {
                0
            };
            let diff: i64 = if cls >= s.label {
                cls - s.label
            } else {
                s.label - cls
            };
            if diff < FX_TOLERANCE {
                correct += 1;
            }
            k += 1;
        }
        proof {
            lemma_correct_count_bounds(*self, data@, n as int);
            lemma_div_pos_is_pos(correct as int * (FX_ONE as int), n as int);
            lemma_multiply_divide_le(correct as int * (FX_ONE as int), n as int, FX_ONE as int);
            assert(correct as int * (FX_ONE as int) <= n as int * (FX_ONE as int))
                by (nonlinear_arith)
                requires
                    0 <= correct as int <= n as int,
            ;
        }
        fx_div(correct as i64, n as i64)
    }

    /// Drive `epochs` rounds of online stochastic gradient descent: each
    /// epoch shuffles a fresh copy of the training set, runs the forward pass
    /// and the backpropagation update one sample at a time in that order, and
    /// records the epoch's accuracy and average loss; the held-out set is
    /// evaluated read-only after each epoch. Returns the accuracy history,
    /// the loss history, and the held-out accuracy history, one entry per
    /// epoch each; the whole run is a chain of the per-sample updates over
    /// some permutation of the training set in every epoch.
    pub fn train(
        &mut self,
        data: &Vec<Sample>,
        epochs: usize,
        learning_rate: i64,
        val_data: &Vec<Sample>,
        rng: &mut rand::rngs::StdRng,
    ) -> (hist: (Vec<i64>, Vec<i64>, Vec<i64>))
        requires
            old(self).wf(),
            dataset_ok(data@),
            labels_ok(data@),
            0 < data@.len() <= FX_LIMIT,
            dataset_ok(val_data@),
            0 < val_data@.len() <= FX_LIMIT,
            fx_ok(learning_rate as int),
        ensures
            final(self).wf(),
            final(self).hidden_size == old(self).hidden_size,
            hist.0@.len() == epochs,
            hist.1@.len() == epochs,
            hist.2@.len() == epochs,
            forall|e: int| 0 <= e < epochs ==> 0 <= #[trigger] hist.0@[e] <= FX_ONE,
            forall|e: int| 0 <= e < epochs ==> 0 <= #[trigger] hist.1@[e] <= FX_LIMIT,
            forall|e: int| 0 <= e < epochs ==> 0 <= #[trigger] hist.2@[e] <= FX_ONE,
            training_run(
                *old(self),
                data@,
                learning_rate as int,
                epochs as int,
                *final(self),
                hist.0@,
                hist.1@,
                hist.2@,
                val_data@,
            ),
    {
        let ghost start_nn = *self;
        let ghost mut gstates: Seq<NeuralNetwork> = seq![*self];
        let ghost mut gorders: Seq<Seq<Sample>> = Seq::empty();
        let ghost mut gcs: Seq<int> = Seq::empty();
        let ghost mut gls: Seq<int> = Seq::empty();
        let mut acc_hist: Vec<i64> = Vec::new();
        let mut loss_hist: Vec<i64> = Vec::new();
        let mut val_hist: Vec<i64> = Vec::new();
        let mut epoch: usize = 0;
        while epoch < epochs
            invariant
                self.wf(),
                self.hidden_size == old(self).hidden_size,
                dataset_ok(data@),
                labels_ok(data@),
                0 < data@.len() <= FX_LIMIT,
                dataset_ok(val_data@),
                0 < val_data@.len() <= FX_LIMIT,
                fx_ok(learning_rate as int),
                epoch <= epochs,
                acc_hist@.len() == epoch,
                loss_hist@.len() == epoch,
                val_hist@.len() == epoch,
                forall|e: int| 0 <= e < epoch ==> 0 <= #[trigger] acc_hist@[e] <= FX_ONE,
                forall|e: int| 0 <= e < epoch ==> 0 <= #[trigger] loss_hist@[e] <= FX_LIMIT,
                forall|e: int| 0 <= e < epoch ==> 0 <= #[trigger] val_hist@[e] <= FX_ONE,
                start_nn == *old(self),
                gstates.len() == epoch + 1,
                gorders.len() == epoch,
                gcs.len() == epoch,
                gls.len() == epoch,
                gstates[0] == start_nn,
                gstates[epoch as int] == *self,
                forall|k: int| 0 <= k < epoch ==> (#[trigger] gorders[k]).len() == data@.len(),
                forall|k: int|
                    0 <= k < epoch ==> dataset_model(#[trigger] gorders[k]).to_multiset()
                        == dataset_model(data@).to_multiset(),
                forall|k: int|
                    0 <= k < epoch ==> epoch_rel(
                        #[trigger] gstates[k],
                        gorders[k],
                        learning_rate as int,
                        gstates[k + 1],
                        gcs[k],
                        gls[k],
                    ),
                forall|k: int| 0 <= k < epoch ==> 0 <= #[trigger] gcs[k] <= data@.len(),
                forall|k: int| 0 <= k < epoch ==> 0 <= #[trigger] gls[k],
                forall|k: int|
                    0 <= k < epoch ==> (#[trigger] acc_hist@[k]) as int == div_model(
                        gcs[k],
                        data@.len() as int,
                    ),
                forall|k: int|
                    0 <= k < epoch ==> (#[trigger] loss_hist@[k]) as int == tdiv(
                        gls[k],
                        data@.len() as int,
                    ),
                forall|k: int|
                    0 <= k < epoch ==> (#[trigger] val_hist@[k]) as int == accuracy_model(
                        gstates[k + 1],
                        val_data@,
                    ),
            decreases epochs - epoch,
        {
            let ghost nn0 = *self;
            let mut shuffled = copy_samples(data);
            shuffle_samples(rng, &mut shuffled);
            proof {
                lemma_ok_from_multiset(data@, shuffled@);
            }
            let total = shuffled.len();
            let ghost mut sstates: Seq<NeuralNetwork> = seq![*self];
            let ghost mut scorrects: Seq<int> = seq![0int];
            let ghost mut slosses: Seq<int> = seq![0int];
            let mut total_loss: i64 = 0;
            let mut correct: usize = 0;
            let mut k: usize = 0;
            while k < total
                invariant
                    self.wf(),
                    self.hidden_size == old(self).hidden_size,
                    dataset_ok(shuffled@),
                    labels_ok(shuffled@),
                    total == shuffled@.len(),
                    0 < total <= FX_LIMIT,
                    fx_ok(learning_rate as int),
                    k <= total,
                    correct <= k,
                    fx_ok(total_loss as int),
                    total_loss >= 0,
                    sstates.len() == k + 1,
                    scorrects.len() == k + 1,
                    slosses.len() == k + 1,
                    sstates[0] == nn0,
                    scorrects[0] == 0,
                    slosses[0] == 0,
                    sstates[k as int] == *self,
                    scorrects[k as int] == correct as int,
                    slosses[k as int] == total_loss as int,
                    forall|t: int|
                        0 <= t < k ==> step_rel(
                            #[trigger] sstates[t],
                            shuffled@[t],
                            learning_rate as int,
                            sstates[t + 1],
                        ),
                    forall|t: int|
                        0 <= t < k ==> scorrects[t + 1] == scorrects[t] + (if is_correct(
                            #[trigger] sstates[t],
                            shuffled@[t],
                        ) {
                            1int
                        } else {
                            0int
                        }),
                    forall|t: int|
                        0 <= t < k ==> slosses[t + 1] == add_model(
                            slosses[t],
                            bce_model(
                                output_model(#[trigger] sstates[t], shuffled@[t].features@),
                                shuffled@[t].label as int,
                            ),
                        ),
                decreases total - k,
            {
                let ghost pre_step = *self;
                let ghost samp = shuffled@[k as int];
                let s = &shuffled[k];
                let h = self.hidden_layer(&s.features);
                let p = self.output_layer(&h);
                proof {
                    assert(to_ints(h@) =~= hidden_vals(pre_step, samp.features@));
                }
                let loss = fx_bce_loss(p, s.label);
                let new_total = fx_add(total_loss, loss);
                self.update_from_sample(&s.features, &h, p, s.label, learning_rate);
                proof {
                    assert(step_rel(pre_step, samp, learning_rate as int, *self));
                }
                let cls: i64 = if p > FX_HALF {
                    FX_ONE
                } else {
                    0
                };
                let diff: i64 = if cls >= s.label {
                    cls - s.label
                } else {
                    s.label - cls
                };
                proof {
                    assert((diff < FX_TOLERANCE) == is_correct(pre_step, samp));
                    sstates = sstates.push(*self);
                }
                if diff < FX_TOLERANCE {
                    correct += 1;
                }
                total_loss = new_total;
                proof {
                    scorrects = scorrects.push(correct as int);
                    slosses = slosses.push(total_loss as int);
                }
                k += 1;
            }
            proof {
                assert(sample_chain(
                    sstates,
                    shuffled@,
                    learning_rate as int,
                    scorrects,
                    slosses,
                ));
                assert(epoch_rel(
                    nn0,
                    shuffled@,
                    learning_rate as int,
                    *self,
                    correct as int,
                    total_loss as int,
                ));
                lemma_div_pos_is_pos(correct as int * (FX_ONE as int), total as int);
                lemma_multiply_divide_le(
                    correct as int * (FX_ONE as int),
                    total as int,
                    FX_ONE as int,
                );
                assert(correct as int * (FX_ONE as int) <= total as int * (FX_ONE as int))
                    by (nonlinear_arith)
                    requires
                        0 <= correct as int <= total as int,
                ;
                lemma_div_pos_is_pos(total_loss as int, total as int);
                lemma_div_nonincreasing(total_loss as int, total as int);
            }
            let acc = fx_div(correct as i64, total as i64);
            // the loss sum is already a fixed-point value, so its average over
            // the raw sample count is plain integer division
            let avg: i64 = total_loss / (total as i64);
            let va = self.evaluate(val_data);
            acc_hist.push(acc);
            loss_hist.push(avg);
            val_hist.push(va);
            proof {
                gstates = gstates.push(*self);
                gorders = gorders.push(shuffled@);
                gcs = gcs.push(correct as int);
                gls = gls.push(total_loss as int);
            }
            epoch += 1;
        }
        proof {
            assert(run_links(
                gstates,
                gorders,
                gcs,
                gls,
                start_nn,
                data@,
                learning_rate as int,
                epochs as int,
                *self,
                acc_hist@,
                loss_hist@,
                val_hist@,
                val_data@,
            ));
            assert(training_run(
                start_nn,
                data@,
                learning_rate as int,
                epochs as int,
                *self,
                acc_hist@,
                loss_hist@,
                val_hist@,
                val_data@,
            ));
        }
        (acc_hist, loss_hist, val_hist)
    }
}

/// The persisted form of the parameters: the same fields, all public, so that
/// outer code can write them out and read them back unchanged.
pub struct ModelRecord {
    pub input_size: usize,
    pub hidden_size: usize,
    pub output_size: usize,
    pub weights1: Vec<Vec<i64>>,
    pub weights2: Vec<Vec<i64>>,
    pub bias1: Vec<i64>,
    pub bias2: Vec<i64>,
}

/// The view of a weight matrix: a sequence of row sequences.
pub open spec fn mat_view(m: Seq<Vec<i64>>) -> Seq<Seq<i64>> {
    m.map_values(|v: Vec<i64>| v@)
}

/// Two parameter sets with the same sizes, weights and biases.
pub open spec fn same_params(a: NeuralNetwork, b: NeuralNetwork) -> bool {
    &&& a.input_size == b.input_size
    &&& a.hidden_size == b.hidden_size
    &&& a.output_size == b.output_size
    &&& mat_view(a.weights1@) == mat_view(b.weights1@)
    &&& mat_view(a.weights2@) == mat_view(b.weights2@)
    &&& a.bias1@ == b.bias1@
    &&& a.bias2@ == b.bias2@
}

/// A record and a network that carry the same parameters.
pub open spec fn record_matches(r: ModelRecord, nn: NeuralNetwork) -> bool {
    &&& r.input_size == nn.input_size
    &&& r.hidden_size == nn.hidden_size
    &&& r.output_size == nn.output_size
    &&& mat_view(r.weights1@) == mat_view(nn.weights1@)
    &&& mat_view(r.weights2@) == mat_view(nn.weights2@)
    &&& r.bias1@ == nn.bias1@
    &&& r.bias2@ == nn.bias2@
}

/// A record with the dataset-fixed sizes, matching dimensions and
/// representable scalars: exactly the records that load back into a network.
pub open spec fn record_wf(r: ModelRecord) -> bool {
    &&& r.input_size == 14
    &&& r.output_size == 1
    &&& r.weights1@.len() == 14
    &&& forall|i: int| 0 <= i < 14 ==> (#[trigger] r.weights1@[i])@.len() == r.hidden_size
    &&& forall|i: int, j: int|
        0 <= i < 14 && 0 <= j < r.hidden_size ==> fx_ok((#[trigger] r.weights1@[i]@[j]) as int)
    &&& r.weights2@.len() == r.hidden_size
    &&& forall|i: int| 0 <= i < r.hidden_size ==> (#[trigger] r.weights2@[i])@.len() == 1
    &&& forall|i: int| 0 <= i < r.hidden_size ==> fx_ok((#[trigger] r.weights2@[i]@[0]) as int)
    &&& r.bias1@.len() == r.hidden_size
    &&& forall|j: int| 0 <= j < r.hidden_size ==> fx_ok((#[trigger] r.bias1@[j]) as int)
    &&& r.bias2@.len() == 1
    &&& fx_ok(r.bias2@[0] as int)
}

fn copy_matrix(m: &Vec<Vec<i64>>) -> (r: Vec<Vec<i64>>)
    ensures
        mat_view(r@) == mat_view(m@),
{
    let mut out: Vec<Vec<i64>> = Vec::new();
    let n = m.len();
    let mut k: usize = 0;
    while k < n
        invariant
            n == m@.len(),
            k <= n,
            out@.len() == k,
            forall|t: int| 0 <= t < k ==> (#[trigger] out@[t])@ == m@[t]@,
        decreases n - k,
    {
        let row = &m[k];
        out.push(row.clone());
        k += 1;
    }
    proof {
        assert(mat_view(out@) =~= mat_view(m@));
    }
    out
}

impl NeuralNetwork {
    /// The persisted record of the current parameters.
    pub fn to_record(&self) -> (r: ModelRecord)
        ensures
            record_matches(r, *self),
    {
        ModelRecord {
            input_size: self.input_size,
            hidden_size: self.hidden_size,
            output_size: self.output_size,
            weights1: copy_matrix(&self.weights1),
            weights2: copy_matrix(&self.weights2),
            bias1: self.bias1.clone(),
            bias2: self.bias2.clone(),
        }
    }

    /// Load a network back from a persisted record; fails with a shape error
    /// exactly when the record does not form well-formed parameters.
    pub fn from_record(rec: ModelRecord) -> (m: Result<NeuralNetwork, NetError>)
        ensures
            match m {
                Ok(nn) => record_wf(rec) && record_matches(rec, nn) && nn.wf(),
                Err(e) => e == NetError::ShapeError && !record_wf(rec),
            },
    {
        if rec.input_size != 14 || rec.output_size != 1 {
            return Err(NetError::ShapeError);
        }
        let hs = rec.hidden_size;
        if rec.weights1.len() != 14 {
            return Err(NetError::ShapeError);
        }
        let mut i: usize = 0;
        while i < 14
            invariant
                rec.weights1@.len() == 14,
                hs == rec.hidden_size,
                i <= 14,
                forall|t: int| 0 <= t < i ==> (#[trigger] rec.weights1@[t])@.len() == hs,
                forall|t: int, u: int|
                    0 <= t < i && 0 <= u < hs ==> fx_ok((#[trigger] rec.weights1@[t]@[u]) as int),
            decreases 14 - i,
        {
            let row = &rec.weights1[i];
            if row.len() != hs {
                return Err(NetError::ShapeError);
            }
            let mut j: usize = 0;
            while j < hs
                invariant
                    hs == rec.hidden_size,
                    rec.weights1@.len() == 14,
                    i < 14,
                    row == &rec.weights1@[i as int],
                    row@.len() == hs,
                    j <= hs,
                    forall|u: int| 0 <= u < j ==> fx_ok((#[trigger] row@[u]) as int),
                decreases hs - j,
            {
                let v = row[j];
                if v < -FX_LIMIT || v > FX_LIMIT {
                    proof {
                        assert(rec.weights1@[i as int]@[j as int] == v);
                        assert(!record_wf(rec));
                    }
                    return Err(NetError::ShapeError);
                }
                j += 1;
            }
            i += 1;
        }
        if rec.weights2.len() != hs {
            return Err(NetError::ShapeError);
        }
        let mut k: usize = 0;
        while k < hs
            invariant
                hs == rec.hidden_size,
                rec.weights2@.len() == hs,
                k <= hs,
                forall|t: int| 0 <= t < k ==> (#[trigger] rec.weights2@[t])@.len() == 1,
                forall|t: int| 0 <= t < k ==> fx_ok((#[trigger] rec.weights2@[t]@[0]) as int),
            decreases hs - k,
        {
            let row = &rec.weights2[k];
            if row.len() != 1 {
                return Err(NetError::ShapeError);
            }
            let v = row[0];
            if v < -FX_LIMIT || v > FX_LIMIT {
                return Err(NetError::ShapeError);
            }
            k += 1;
        }
        if rec.bias1.len() != hs {
            return Err(NetError::ShapeError);
        }
        let mut b: usize = 0;
        while b < hs
            invariant
                hs == rec.hidden_size,
                rec.bias1@.len() == hs,
                b <= hs,
                forall|t: int| 0 <= t < b ==> fx_ok((#[trigger] rec.bias1@[t]) as int),
            decreases hs - b,
        {
            let v = rec.bias1[b];
            if v < -FX_LIMIT || v > FX_LIMIT {
                return Err(NetError::ShapeError);
            }
            b += 1;
        }
        if rec.bias2.len() != 1 {
            return Err(NetError::ShapeError);
        }
        let v2 = rec.bias2[0];
        if v2 < -FX_LIMIT || v2 > FX_LIMIT {
            return Err(NetError::ShapeError);
        }
        Ok(
            NeuralNetwork {
                input_size: rec.input_size,
                hidden_size: rec.hidden_size,
                output_size: rec.output_size,
                weights1: rec.weights1,
                weights2: rec.weights2,
                bias1: rec.bias1,
                bias2: rec.bias2,
            },
        )
    }
}

proof fn lemma_hidden_pre_same(a: NeuralNetwork, b: NeuralNetwork, x: Seq<i64>, j: int, i: int)
    requires
        same_params(a, b),
        0 <= i <= a.weights1@.len(),
    ensures
        hidden_pre(a, x, j, i) == hidden_pre(b, x, j, i),
    decreases i,
{
    if i > 0 {
        lemma_hidden_pre_same(a, b, x, j, i - 1);
        assert(mat_view(a.weights1@).len() == a.weights1@.len());
        assert(mat_view(b.weights1@).len() == b.weights1@.len());
        assert(mat_view(a.weights1@)[i - 1] == a.weights1@[i - 1]@);
        assert(mat_view(b.weights1@)[i - 1] == b.weights1@[i - 1]@);
        assert(a.weights1@[i - 1]@ == b.weights1@[i - 1]@);
    }
}

proof fn lemma_out_pre_same(a: NeuralNetwork, b: NeuralNetwork, h: Seq<int>, i: int)
    requires
        same_params(a, b),
        0 <= i <= a.weights2@.len(),
    ensures
        out_pre(a, h, i) == out_pre(b, h, i),
    decreases i,
{
    if i > 0 {
        lemma_out_pre_same(a, b, h, i - 1);
        assert(mat_view(a.weights2@).len() == a.weights2@.len());
        assert(mat_view(b.weights2@).len() == b.weights2@.len());
        assert(mat_view(a.weights2@)[i - 1] == a.weights2@[i - 1]@);
        assert(mat_view(b.weights2@)[i - 1] == b.weights2@[i - 1]@);
        assert(a.weights2@[i - 1]@ == b.weights2@[i - 1]@);
    }
}

/// Parameters determine predictions: two well-formed networks with equal
/// parameters give the same hidden activations and the same output
/// probability on every input. Since the forward pass is itself a function of
/// the parameters and the input, this is at once the round-trip law for
/// persisted parameters and the determinism law for repeated forward passes.
pub proof fn lemma_same_params_same_outputs(a: NeuralNetwork, b: NeuralNetwork, x: Seq<i64>)
    requires
        same_params(a, b),
        a.wf(),
    ensures
        forall|j: int| hidden_model(a, x, j) == hidden_model(b, x, j),
        output_model(a, x) == output_model(b, x),
{
    assert forall|j: int| hidden_model(a, x, j) == hidden_model(b, x, j) by {
        lemma_hidden_pre_same(a, b, x, j, 14);
    }
    assert(hidden_vals(a, x) =~= hidden_vals(b, x));
    lemma_out_pre_same(a, b, hidden_vals(a, x), a.hidden_size as int);
}

}
