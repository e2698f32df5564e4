use mlbridge::coreml::{InputTensor, MLModel, NewMLModelError, PredictError};
use mlbridge::runtime::{Float32, ModelDef, NativeRuntime, Op};

fn bits(values: &[f32]) -> Vec<Float32> {
    values.iter().map(|v| Float32 { bits: v.to_bits() }).collect()
}

fn upsample_model(names: &[&str], present: &[bool]) -> ModelDef {
    ModelDef {
        output_names: names.iter().map(|s| s.to_string()).collect(),
        outputs_present: present.to_vec(),
        op: Op::Upsample2,
        open_fails: false,
        run_fails: false,
        name_fail_at: None,
    }
}

const MODEL_PATH: &str = "src/coreml/testdata/upsample.mlmodel";

fn runtime_with_model(def: ModelDef) -> NativeRuntime {
    let mut rt = NativeRuntime::new(0);
    assert!(rt.install_model(MODEL_PATH, def));
    rt
}

#[test]
fn mod_test_upsample() {
    let mut rt = runtime_with_model(upsample_model(&["Identity"], &[true]));
    let model = MLModel::new(&mut rt, MODEL_PATH).unwrap();
    assert_eq!(model.output_names(), &vec!["Identity".to_string()]);

    let input_data = bits(&[1., 2., 3., 3., 4., 5.]);
    let input_shape = [1, 1, 2, 3];
    let input = InputTensor { data: &input_data, shape: &input_shape };
    let inputs = vec![("up_sampling2d_input".to_string(), input)];
    let outputs = model.predict(&mut rt, &inputs).unwrap();
    assert_eq!(outputs.len(), 1);
    let (name, output) = &outputs[0];
    assert_eq!(name.as_str(), "Identity");
    assert_eq!(output.shape(), &vec![1, 2, 4, 3]);
    assert_eq!(
        output.as_slice(&rt),
        bits(&[
            1., 2., 3., 1., 2., 3., 3., 4., 5., 3., 4., 5., 1., 2., 3., 1., 2., 3., 3., 4., 5.,
            3., 4., 5.
        ])
        .as_slice()
    );
}

#[test]
fn absent_outputs_are_skipped() {
    let mut rt = runtime_with_model(upsample_model(&["hidden", "Identity"], &[false, true]));
    let model = MLModel::new(&mut rt, MODEL_PATH).unwrap();
    assert_eq!(model.output_names().len(), 2);
    let input_data = bits(&[1., 2., 3., 3., 4., 5.]);
    let input_shape = [1, 1, 2, 3];
    let input = InputTensor { data: &input_data, shape: &input_shape };
    let inputs = vec![("in".to_string(), input)];
    let outputs = model.predict(&mut rt, &inputs).unwrap();
    // The absent output is passed over; the present one keeps table order.
    assert_eq!(outputs.len(), 1);
    assert_eq!(outputs[0].0.as_str(), "Identity");
}

#[test]
fn predict_output_len_is_shape_product() {
    let mut rt = runtime_with_model(upsample_model(&["Identity"], &[true]));
    let model = MLModel::new(&mut rt, MODEL_PATH).unwrap();
    let input_data = bits(&[1., 2., 3., 3., 4., 5.]);
    let input_shape = [1, 1, 2, 3];
    let input = InputTensor { data: &input_data, shape: &input_shape };
    let inputs = vec![("in".to_string(), input)];
    let outputs = model.predict(&mut rt, &inputs).unwrap();
    let (_, output) = &outputs[0];
    let product: usize = output.shape().iter().product();
    assert_eq!(product, output.as_slice(&rt).len());
}

#[test]
fn predict_handles_released_exactly_once() {
    let mut rt = runtime_with_model(upsample_model(&["Identity"], &[true]));
    let model = MLModel::new(&mut rt, MODEL_PATH).unwrap();
    let input_data = bits(&[1., 2., 3., 3., 4., 5.]);
    let input_shape = [1, 1, 2, 3];
    let input = InputTensor { data: &input_data, shape: &input_shape };
    let inputs = vec![("in".to_string(), input)];
    let outputs = model.predict(&mut rt, &inputs).unwrap();
    for (_, t) in outputs {
        t.close(&mut rt);
    }
    model.close(&mut rt);
    assert_eq!(rt.live_count(), 0);
    assert_eq!(rt.release_count(), rt.opened_count());
}

#[test]
fn predict_nul_name_makes_no_native_call() {
    let mut rt = runtime_with_model(upsample_model(&["Identity"], &[true]));
    let model = MLModel::new(&mut rt, MODEL_PATH).unwrap();
    let input_data = bits(&[1., 2., 3., 3., 4., 5.]);
    let input_shape = [1, 1, 2, 3];
    let input = InputTensor { data: &input_data, shape: &input_shape };
    let inputs = vec![("a\0b".to_string(), input)];
    let opened = rt.opened_count();
    let released = rt.release_count();
    let r = model.predict(&mut rt, &inputs);
    assert!(matches!(r, Err(PredictError::MalformedInputName)));
    assert_eq!(rt.opened_count(), opened);
    assert_eq!(rt.release_count(), released);
}

#[test]
fn model_path_nul_fails_fast() {
    let mut rt = NativeRuntime::new(0);
    let opened = rt.opened_count();
    let r = MLModel::new(&mut rt, "bad\0path.mlmodel");
    assert!(matches!(r, Err(NewMLModelError::MalformedPath)));
    assert_eq!(rt.opened_count(), opened);
}

#[test]
fn open_failure_leaves_nothing_allocated() {
    let mut def = upsample_model(&["Identity"], &[true]);
    def.open_fails = true;
    let mut rt = runtime_with_model(def);
    let r = MLModel::new(&mut rt, MODEL_PATH);
    assert!(matches!(r, Err(NewMLModelError::OpenError)));
    assert_eq!(rt.opened_count(), 0);
}

#[test]
fn predict_failure_leaves_no_output_handles() {
    let mut def = upsample_model(&["Identity"], &[true]);
    def.run_fails = true;
    let mut rt = runtime_with_model(def);
    let model = MLModel::new(&mut rt, MODEL_PATH).unwrap();
    let input_data = bits(&[1., 2., 3., 3., 4., 5.]);
    let input_shape = [1, 1, 2, 3];
    let input = InputTensor { data: &input_data, shape: &input_shape };
    let inputs = vec![("in".to_string(), input)];
    let live_before = rt.live_count();
    let r = model.predict(&mut rt, &inputs);
    assert!(matches!(r, Err(PredictError::PredictError)));
    assert_eq!(rt.live_count(), live_before);
}

#[test]
fn model_output_names_stable_across_reads() {
    let mut rt = runtime_with_model(upsample_model(&["Identity"], &[true]));
    let model = MLModel::new(&mut rt, MODEL_PATH).unwrap();
    let first = model.output_names().clone();
    let second = model.output_names().clone();
    assert_eq!(first, second);
}
