use vstd::prelude::*;

verus! {

/// Whether a step carries trainable parameters.
#[derive(Debug, Clone, Copy, PartialEq, Eq, Structural)]
pub enum StepType {
    Activation,
    Layer,
}

/// The declared shape of an affine layer: its weights are
/// `number_of_outputs` rows by `number_of_inputs` columns.
#[derive(Debug, Clone, Copy, PartialEq, Eq, Structural)]
pub struct LinearLayer {
    pub number_of_inputs: usize,
    pub number_of_outputs: usize,
}

impl LinearLayer {
    pub fn new(inputs: usize, outputs: usize) -> (r: LinearLayer)
        ensures
            r.number_of_inputs == inputs,
            r.number_of_outputs == outputs,
    {
        LinearLayer { number_of_inputs: inputs, number_of_outputs: outputs }
    }
}

/// One stage of the pipeline. Activations keep the width of their input;
/// only affine layers declare widths.
#[derive(Debug, Clone, Copy, PartialEq, Eq, Structural)]
pub enum Step {
    LinearLayer(LinearLayer),
    Sigmoid,
    Softmax,
    Passthrough,
}

impl Step {
    /// The step of an affine layer with the given widths.
    pub open spec fn layer(inputs: usize, outputs: usize) -> Step {
        Step::LinearLayer(LinearLayer { number_of_inputs: inputs, number_of_outputs: outputs })
    }

    /// Declared `(inputs, outputs)` of an affine layer, `None` for an activation.
    pub open spec fn dims(self) -> Option<(usize, usize)> {
        match self {
            Step::LinearLayer(l) => Some((l.number_of_inputs, l.number_of_outputs)),
            _ => None,
        }
    }

    pub fn is_layer(&self) -> (r: bool)
        ensures
            r == (*self is LinearLayer),
    {
        match self {
            Step::LinearLayer(_) => true,
            _ => false,
        }
    }

    pub fn step_type(&self) -> (r: StepType)
        ensures
            r == (if *self is LinearLayer { StepType::Layer } else { StepType::Activation }),
    {
        match self {
            Step::LinearLayer(_) => StepType::Layer,
            _ => StepType::Activation,
        }
    }

    pub fn get_number_of_inputs_and_outputs(&self) -> (r: Option<(usize, usize)>)
        ensures
            r == self.dims(),
    {
        match self {
            Step::LinearLayer(l) => Some((l.number_of_inputs, l.number_of_outputs)),
            _ => None,
        }
    }
}

} // verus!
