use vstd::prelude::*;
use crate::chain::{chain_ok, count_layers, first_mismatch, layer_inputs, mismatch_at, outputs_before, width_after};
use crate::step::{LinearLayer, Step};

verus! {

/// Why a sequence of steps does not form a model.
#[derive(Debug, Clone, Copy, PartialEq, Eq, Structural)]
pub enum BuildError {
    /// The layer at `layer_index` declares `actual_inputs` inputs where the
    /// layers before it produce `expected_inputs` values.
    ShapeMismatch { layer_index: usize, expected_inputs: usize, actual_inputs: usize },
}

/// Why a training or inference call on a model was refused.
#[derive(Debug, Clone, Copy, PartialEq, Eq, Structural)]
pub enum ModelError {
    /// The class index does not name one of the model's outputs.
    LabelOutOfRange { label: usize, outputs: usize },
    /// A backward pass was asked for while the step at `step_index` holds no
    /// input from a forward pass.
    InvalidStepState { step_index: usize },
    /// The layer at `layer_index` would be handed `expected_inputs` values
    /// where it declares `actual_inputs` inputs.
    ShapeMismatch { layer_index: usize, expected_inputs: usize, actual_inputs: usize },
    /// A batch was finalized with a size of zero.
    InvalidBatchSize,
}

/// The one-hot vector of the given width with a one at `label`.
pub open spec fn one_hot(width: nat, label: nat) -> Seq<u8> {
    Seq::new(width, |i: int| if i == label { 1u8 } else { 0u8 })
}

/// Cache flags of steps none of which holds a forward input.
pub open spec fn idle_flags(n: nat) -> Seq<bool> {
    Seq::new(n, |i: int| false)
}

fn new_idle_flags(n: usize) -> (r: Vec<bool>)
    ensures
        r@ == idle_flags(n as nat),
{
    let mut flags: Vec<bool> = Vec::new();
    let mut i: usize = 0;
    while i < n
        invariant
            i <= n,
            flags@ == idle_flags(i as nat),
        decreases n - i,
    {
        flags.push(false);
        i = i + 1;
        assert(flags@ =~= idle_flags(i as nat));
    }
    flags
}

proof fn lemma_width_after_stays_none(steps: Seq<Step>, width: nat, k: int, n: int)
    requires
        0 <= k <= n,
        width_after(steps, width, k) is None,
    ensures
        width_after(steps, width, n) is None,
    decreases n - k,
{
    if k < n {
        lemma_width_after_stays_none(steps, width, k + 1, n);
    }
}

/// Collects steps in order; `build` checks that their widths chain.
pub struct ModelBuilder {
    steps: Vec<Step>,
}

impl View for ModelBuilder {
    type V = Seq<Step>;

    closed spec fn view(&self) -> Seq<Step> {
        self.steps@
    }
}

impl Default for ModelBuilder {
    fn default() -> (r: ModelBuilder)
        ensures
            r@ == Seq::<Step>::empty(),
    {
        ModelBuilder::new()
    }
}

impl ModelBuilder {
    pub fn new() -> (r: ModelBuilder)
        ensures
            r@ == Seq::<Step>::empty(),
    {
        ModelBuilder { steps: Vec::new() }
    }

    fn push_step(self, step: Step) -> (r: ModelBuilder)
        ensures
            r@ == self@.push(step),
    {
        let mut steps = self.steps;
        steps.push(step);
        ModelBuilder { steps }
    }

    /// Appends an affine layer taking `inputs` values to `outputs` values.
    pub fn add_linear_layer(self, inputs: usize, outputs: usize) -> (r: ModelBuilder)
        ensures
            r@ == self@.push(Step::layer(inputs, outputs)),
    {
        self.push_step(Step::LinearLayer(LinearLayer::new(inputs, outputs)))
    }

    pub fn add_sigmoid(self) -> (r: ModelBuilder)
        ensures
            r@ == self@.push(Step::Sigmoid),
    {
        self.push_step(Step::Sigmoid)
    }

    pub fn add_softmax(self) -> (r: ModelBuilder)
        ensures
            r@ == self@.push(Step::Softmax),
    {
        self.push_step(Step::Softmax)
    }

    /// Appends a step that hands its input on unchanged.
    pub fn add_passthrough(self) -> (r: ModelBuilder)
        ensures
            r@ == self@.push(Step::Passthrough),
    {
        self.push_step(Step::Passthrough)
    }

    /// Scans the steps once, left to right, and either produces a model over
    /// exactly these steps or names the first layer whose input width breaks
    /// the chain.
    pub fn build(self) -> (r: Result<Model, BuildError>)
        ensures
            r is Ok <==> chain_ok(self@),
            (match r {
                Ok(m) => {
                    &&& m.wf()
                    &&& m@.steps == self@
                    &&& m@.outputs == outputs_before(self@, self@.len() as int)
                    &&& m@.primed == idle_flags(self@.len())
                    &&& !m@.accumulating
                },
                Err(BuildError::ShapeMismatch { layer_index, expected_inputs, actual_inputs }) => {
                    &&& first_mismatch(self@, layer_index as int)
                    &&& expected_inputs == outputs_before(self@, layer_index as int)
                    &&& actual_inputs == layer_inputs(self@[layer_index as int])
                },
            }),
    {
        let steps = self.steps;
        let mut current_outputs: usize = 0;
        let mut num_lin_layers: usize = 0;
        let mut key: usize = 0;
        while key < steps.len()
            invariant
                key <= steps@.len(),
                steps@ == self@,
                num_lin_layers <= key,
                current_outputs == outputs_before(steps@, key as int),
                num_lin_layers == count_layers(steps@, key as int),
                forall|k: int| 0 <= k < key ==> !#[trigger] mismatch_at(steps@, k),
            decreases steps@.len() - key,
        {
            match steps[key] {
                Step::LinearLayer(l) => {
                    if current_outputs != 0 && current_outputs != l.number_of_inputs {
                        assert(mismatch_at(steps@, key as int));
                        return Err(
                            BuildError::ShapeMismatch {
                                layer_index: key,
                                expected_inputs: current_outputs,
                                actual_inputs: l.number_of_inputs,
                            },
                        );
                    }
                    current_outputs = l.number_of_outputs;
                    num_lin_layers = num_lin_layers + 1;
                },
                _ => {},
            }
            key = key + 1;
        }
        let primed = new_idle_flags(steps.len());
        Ok(Model { outputs: current_outputs, steps, num_lin_layers, primed, accumulating: false })
    }
}

/// What a model is, as seen by its contracts.
pub ghost struct ModelView {
    /// Width of the model's output: that of its last layer.
    pub outputs: usize,
    pub steps: Seq<Step>,
    pub num_lin_layers: usize,
    /// For each step, whether it holds the input of a forward pass that no
    /// backward pass has consumed yet.
    pub primed: Seq<bool>,
    /// Whether gradients have been accumulated since the last finalized batch.
    pub accumulating: bool,
}

/// A validated pipeline of steps, with the state of its forward/backward
/// protocol and of its batch.
pub struct Model {
    outputs: usize,
    steps: Vec<Step>,
    num_lin_layers: usize,
    primed: Vec<bool>,
    accumulating: bool,
}

impl View for Model {
    type V = ModelView;

    closed spec fn view(&self) -> ModelView {
        ModelView {
            outputs: self.outputs,
            steps: self.steps@,
            num_lin_layers: self.num_lin_layers,
            primed: self.primed@,
            accumulating: self.accumulating,
        }
    }
}

impl Model {
    /// The widths of the steps chain, and the recorded widths are those of
    /// the steps.
    pub open spec fn wf(&self) -> bool {
        &&& chain_ok(self@.steps)
        &&& self@.outputs == outputs_before(self@.steps, self@.steps.len() as int)
        &&& self@.num_lin_layers == count_layers(self@.steps, self@.steps.len() as int)
        &&& self@.primed.len() == self@.steps.len()
    }

    pub fn outputs(&self) -> (r: usize)
        ensures
            r == self@.outputs,
    {
        self.outputs
    }

    pub fn num_lin_layers(&self) -> (r: usize)
        ensures
            r == self@.num_lin_layers,
    {
        self.num_lin_layers
    }

    pub fn num_steps(&self) -> (r: usize)
        ensures
            r == self@.steps.len(),
    {
        self.steps.len()
    }

    pub fn step(&self, index: usize) -> (r: Step)
        requires
            index < self@.steps.len(),
        ensures
            r == self@.steps[index as int],
    {
        self.steps[index]
    }

    pub fn is_primed(&self, index: usize) -> (r: bool)
        requires
            self.wf(),
            index < self@.steps.len(),
        ensures
            r == self@.primed[index as int],
    {
        self.primed[index]
    }

    /// Follows an input of `input_width` values through the steps and
    /// returns the width of the output, or names the first layer that would
    /// be handed a width other than the one it declares.
    pub fn check_input(&self, input_width: usize) -> (r: Result<usize, ModelError>)
        requires
            self.wf(),
        ensures
            r matches Ok(w) ==> (self@.outputs > 0 ==> w == self@.outputs),
            (match r {
                Ok(w) => width_after(self@.steps, input_width as nat, self@.steps.len() as int)
                    == Some(w as nat),
                Err(ModelError::ShapeMismatch { layer_index, expected_inputs, actual_inputs }) => {
                    &&& layer_index < self@.steps.len()
                    &&& self@.steps[layer_index as int] is LinearLayer
                    &&& width_after(self@.steps, input_width as nat, layer_index as int) == Some(
                        expected_inputs as nat,
                    )
                    &&& actual_inputs == layer_inputs(self@.steps[layer_index as int])
                    &&& actual_inputs != expected_inputs
                    &&& width_after(self@.steps, input_width as nat, self@.steps.len() as int)
                        is None
                },
                Err(_) => false,
            }),
    {
        let mut width: usize = input_width;
        let mut k: usize = 0;
        while k < self.steps.len()
            invariant
                k <= self@.steps.len(),
                width_after(self@.steps, input_width as nat, k as int) == Some(width as nat),
                count_layers(self@.steps, k as int) > 0 ==> width == outputs_before(
                    self@.steps,
                    k as int,
                ),
                count_layers(self@.steps, k as int) == 0 ==> outputs_before(self@.steps, k as int)
                    == 0,
            decreases self@.steps.len() - k,
        {
            match self.steps[k] {
                Step::LinearLayer(l) => {
                    if width != l.number_of_inputs {
                        proof {
                            lemma_width_after_stays_none(
                                self@.steps,
                                input_width as nat,
                                k as int + 1,
                                self@.steps.len() as int,
                            );
                        }
                        return Err(
                            ModelError::ShapeMismatch {
                                layer_index: k,
                                expected_inputs: width,
                                actual_inputs: l.number_of_inputs,
                            },
                        );
                    }
                    width = l.number_of_outputs;
                },
                _ => {},
            }
            k = k + 1;
        }
        Ok(width)
    }

    /// The one-hot training target for class `label`, one entry per output.
    pub fn one_hot_target(&self, label: usize) -> (r: Result<Vec<u8>, ModelError>)
        ensures
            r is Ok <==> label < self@.outputs,
            r matches Ok(v) ==> v@ == one_hot(self@.outputs as nat, label as nat),
            r matches Err(e) ==> e == (ModelError::LabelOutOfRange {
                label: label,
                outputs: self@.outputs,
            }),
    {
        if label >= self.outputs {
            return Err(ModelError::LabelOutOfRange { label, outputs: self.outputs });
        }
        let mut v: Vec<u8> = Vec::new();
        let mut i: usize = 0;
        while i < self.outputs
            invariant
                i <= self.outputs,
                v@ == one_hot(i as nat, label as nat),
            decreases self.outputs - i,
        {
            if i == label {
                v.push(1u8);
            } else {
                v.push(0u8);
            }
            i = i + 1;
            assert(v@ =~= one_hot(i as nat, label as nat));
        }
        Ok(v)
    }

    /// Records that the step at `index` has received an input in a forward
    /// pass; it replaces any input it held before.
    pub fn record_forward(&mut self, index: usize)
        requires
            old(self).wf(),
            index < old(self)@.steps.len(),
        ensures
            final(self).wf(),
            final(self)@.steps == old(self)@.steps,
            final(self)@.outputs == old(self)@.outputs,
            final(self)@.num_lin_layers == old(self)@.num_lin_layers,
            final(self)@.accumulating == old(self)@.accumulating,
            final(self)@.primed == old(self)@.primed.update(index as int, true),
    {
        self.primed.set(index, true);
    }

    /// Starts a backward pass, which consumes the input held by every step.
    /// It is refused, with nothing changed, when some step holds none; the
    /// step named is the first one that the pass, going from the last step to
    /// the first, would reach.
    pub fn begin_backward(&mut self) -> (r: Result<(), ModelError>)
        requires
            old(self).wf(),
        ensures
            final(self).wf(),
            final(self)@.steps == old(self)@.steps,
            final(self)@.outputs == old(self)@.outputs,
            final(self)@.num_lin_layers == old(self)@.num_lin_layers,
            r is Ok <==> forall|i: int| 0 <= i < old(self)@.primed.len() ==> old(self)@.primed[i],
            (match r {
                Ok(_) => {
                    &&& final(self)@.primed == idle_flags(old(self)@.steps.len())
                    &&& final(self)@.accumulating
                },
                Err(e) => {
                    &&& final(self)@ == old(self)@
                    &&& match e {
                        ModelError::InvalidStepState { step_index } => {
                            &&& step_index < old(self)@.steps.len()
                            &&& !old(self)@.primed[step_index as int]
                            &&& forall|i: int|
                                step_index < i < old(self)@.steps.len() ==> old(self)@.primed[i]
                        },
                        _ => false,
                    }
                },
            }),
    {
        let n = self.primed.len();
        let mut i: usize = n;
        while i > 0
            invariant
                i <= n,
                self.wf(),
                self@ == old(self)@,
                n == self.primed@.len(),
                forall|j: int| i <= j < n ==> self.primed@[j],
            decreases i,
        {
            if !self.primed[i - 1] {
                return Err(ModelError::InvalidStepState { step_index: i - 1 });
            }
            i = i - 1;
        }
        self.primed = new_idle_flags(n);
        self.accumulating = true;
        Ok(())
    }

    /// Ends a batch: the accumulated gradients are applied and cleared. A
    /// batch size of zero is refused, with nothing changed.
    pub fn finalize_batch(&mut self, batch_size: usize) -> (r: Result<(), ModelError>)
        requires
            old(self).wf(),
        ensures
            final(self).wf(),
            final(self)@.steps == old(self)@.steps,
            final(self)@.outputs == old(self)@.outputs,
            final(self)@.num_lin_layers == old(self)@.num_lin_layers,
            final(self)@.primed == old(self)@.primed,
            r is Ok <==> batch_size > 0,
            r is Ok ==> !final(self)@.accumulating,
            r is Err ==> r == Err::<(), ModelError>(ModelError::InvalidBatchSize) && final(self)@
                == old(self)@,
    {
        if batch_size == 0 {
            return Err(ModelError::InvalidBatchSize);
        }
        self.accumulating = false;
        Ok(())
    }
}

} // verus!
