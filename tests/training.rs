use rosehip::model::{Model, ModelBuilder, ModelError};

fn classifier() -> Model {
    ModelBuilder::new()
        .add_linear_layer(2, 3)
        .add_sigmoid()
        .add_linear_layer(3, 3)
        .add_softmax()
        .build()
        .expect("builds")
}

#[test]
fn one_hot_target_marks_the_label() {
    let model = classifier();
    assert_eq!(model.one_hot_target(1), Ok(vec![0u8, 1, 0]));
    assert_eq!(model.one_hot_target(0), Ok(vec![1u8, 0, 0]));
    assert_eq!(model.one_hot_target(2), Ok(vec![0u8, 0, 1]));
}

#[test]
fn label_at_output_width_is_out_of_range() {
    let model = classifier();
    assert_eq!(
        model.one_hot_target(3),
        Err(ModelError::LabelOutOfRange { label: 3, outputs: 3 })
    );
}

#[test]
fn single_unit_model_with_passthrough() {
    let mut model = ModelBuilder::new()
        .add_linear_layer(1, 1)
        .add_passthrough()
        .build()
        .expect("builds");
    assert_eq!(model.outputs(), 1);
    assert_eq!(model.check_input(1), Ok(1));
    assert_eq!(model.one_hot_target(0), Ok(vec![1u8]));
    model.record_forward(0);
    model.record_forward(1);
    assert_eq!(model.begin_backward(), Ok(()));
    assert_eq!(model.finalize_batch(1), Ok(()));
}

#[test]
fn zero_batch_size_is_refused() {
    let mut model = classifier();
    assert_eq!(model.finalize_batch(0), Err(ModelError::InvalidBatchSize));
    assert_eq!(model.finalize_batch(4), Ok(()));
}

#[test]
fn backward_without_forward_is_refused() {
    let mut model = classifier();
    assert_eq!(model.begin_backward(), Err(ModelError::InvalidStepState { step_index: 3 }));
    for i in 0..model.num_steps() {
        assert!(!model.is_primed(i));
    }
}

#[test]
fn backward_consumes_the_forward_inputs() {
    let mut model = classifier();
    for i in 0..model.num_steps() {
        model.record_forward(i);
        assert!(model.is_primed(i));
    }
    assert_eq!(model.begin_backward(), Ok(()));
    for i in 0..model.num_steps() {
        assert!(!model.is_primed(i));
    }
    assert_eq!(model.begin_backward(), Err(ModelError::InvalidStepState { step_index: 3 }));
}

#[test]
fn backward_names_the_last_step_without_input() {
    let mut model = classifier();
    model.record_forward(0);
    model.record_forward(2);
    model.record_forward(3);
    assert_eq!(model.begin_backward(), Err(ModelError::InvalidStepState { step_index: 1 }));
    assert!(model.is_primed(0));
    assert!(model.is_primed(3));
}

#[test]
fn input_width_is_followed_through_the_steps() {
    let model = classifier();
    assert_eq!(model.check_input(2), Ok(3));
    assert_eq!(
        model.check_input(5),
        Err(ModelError::ShapeMismatch { layer_index: 0, expected_inputs: 5, actual_inputs: 2 })
    );
}

#[test]
fn input_check_catches_what_a_zero_width_hides() {
    let model = ModelBuilder::new()
        .add_linear_layer(2, 0)
        .add_sigmoid()
        .add_linear_layer(3, 1)
        .build()
        .expect("builds");
    assert_eq!(
        model.check_input(2),
        Err(ModelError::ShapeMismatch { layer_index: 2, expected_inputs: 0, actual_inputs: 3 })
    );
}

#[test]
fn activations_keep_the_input_width() {
    let model = ModelBuilder::new().add_sigmoid().add_softmax().build().expect("builds");
    assert_eq!(model.check_input(7), Ok(7));
    assert_eq!(model.check_input(0), Ok(0));
}
