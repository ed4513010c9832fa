use rosehip::model::{BuildError, ModelBuilder};
use rosehip::step::{LinearLayer, Step, StepType};

#[test]
fn linear_then_softmax_builds() {
    let model = ModelBuilder::new()
        .add_linear_layer(2, 2)
        .add_softmax()
        .build()
        .expect("matching widths build");
    assert_eq!(model.outputs(), 2);
    assert_eq!(model.num_lin_layers(), 1);
    assert_eq!(model.num_steps(), 2);
    assert_eq!(model.step(0), Step::LinearLayer(LinearLayer::new(2, 2)));
    assert_eq!(model.step(1), Step::Softmax);
}

#[test]
fn mismatched_second_layer_is_named() {
    let r = ModelBuilder::new().add_linear_layer(2, 2).add_linear_layer(3, 1).build();
    match r {
        Err(e) => assert_eq!(
            e,
            BuildError::ShapeMismatch { layer_index: 1, expected_inputs: 2, actual_inputs: 3 }
        ),
        Ok(_) => panic!("widths 2 and 3 do not chain"),
    }
}

#[test]
fn two_layer_classifier_builds_with_last_width() {
    let model = ModelBuilder::default()
        .add_linear_layer(784, 128)
        .add_sigmoid()
        .add_linear_layer(128, 10)
        .add_softmax()
        .build()
        .expect("matching widths build");
    assert_eq!(model.outputs(), 10);
    assert_eq!(model.num_lin_layers(), 2);
    assert_eq!(model.num_steps(), 4);
}

#[test]
fn first_mismatch_after_activations_is_named() {
    let r = ModelBuilder::new()
        .add_linear_layer(4, 3)
        .add_sigmoid()
        .add_linear_layer(3, 2)
        .add_softmax()
        .add_linear_layer(5, 1)
        .add_linear_layer(7, 7)
        .build();
    match r {
        Err(e) => assert_eq!(
            e,
            BuildError::ShapeMismatch { layer_index: 4, expected_inputs: 2, actual_inputs: 5 }
        ),
        Ok(_) => panic!("widths 2 and 5 do not chain"),
    }
}

#[test]
fn zero_output_width_leaves_the_next_layer_unchecked() {
    let model = ModelBuilder::new()
        .add_linear_layer(2, 0)
        .add_linear_layer(3, 1)
        .build()
        .expect("a zero width establishes nothing");
    assert_eq!(model.outputs(), 1);
}

#[test]
fn empty_builder_builds_with_no_outputs() {
    let model = ModelBuilder::new().build().expect("no layers, no mismatch");
    assert_eq!(model.outputs(), 0);
    assert_eq!(model.num_lin_layers(), 0);
    assert_eq!(model.num_steps(), 0);
}

#[test]
fn activations_only_build_with_no_outputs() {
    let model = ModelBuilder::new().add_sigmoid().add_passthrough().build().expect("builds");
    assert_eq!(model.outputs(), 0);
    assert_eq!(model.num_steps(), 2);
}

#[test]
fn step_reports_kind_and_widths() {
    let layer = Step::LinearLayer(LinearLayer::new(5, 3));
    assert!(layer.is_layer());
    assert_eq!(layer.step_type(), StepType::Layer);
    assert_eq!(layer.get_number_of_inputs_and_outputs(), Some((5, 3)));
    for s in [Step::Sigmoid, Step::Softmax, Step::Passthrough] {
        assert!(!s.is_layer());
        assert_eq!(s.step_type(), StepType::Activation);
        assert_eq!(s.get_number_of_inputs_and_outputs(), None);
    }
}
