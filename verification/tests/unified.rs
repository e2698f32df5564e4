use mlbridge::runtime::{
    checked_product, str_has_nul, Float32, ModelDef, NativeRuntime, Op,
};
use mlbridge::{Environment, InputTensor, NewSessionError, SessionRunError};

fn bits(values: &[f32]) -> Vec<Float32> {
    values.iter().map(|v| Float32 { bits: v.to_bits() }).collect()
}

fn upsample_model(names: &[&str], present: &[bool]) -> ModelDef {
    ModelDef {
        output_names: names.iter().map(|s| s.to_string()).collect(),
        outputs_present: present.to_vec(),
        op: Op::Upsample2,
        open_fails: false,
        run_fails: false,
        name_fail_at: None,
    }
}

const EXPECTED: [f32; 24] = [
    1., 2., 3., 1., 2., 3., 3., 4., 5., 3., 4., 5., 1., 2., 3., 1., 2., 3., 3., 4., 5., 3., 4.,
    5.,
];

#[test]
fn round_trip_identical_for_both_backends() {
    let cases = [
        ("upsample.onnx", "Identity:0", "up_sampling2d_input:0"),
        ("upsample.mlmodel", "Identity", "up_sampling2d_input"),
    ];
    for (path, output_name, input_name) in cases {
        let mut rt = NativeRuntime::new(mlbridge::onnx::ORT_API_VERSION);
        assert!(rt.install_model(path, upsample_model(&[output_name], &[true])));
        let env = Environment::new(&mut rt).unwrap();
        let sess = env.new_session(&mut rt, path).unwrap();
        assert_eq!(sess.output_names(), &vec![output_name.to_string()]);
        let input_data = bits(&[1., 2., 3., 3., 4., 5.]);
        let input_shape = [1, 1, 2, 3];
        let inputs = vec![(
            input_name.to_string(),
            InputTensor { data: &input_data, shape: &input_shape },
        )];
        let outputs = sess.run(&mut rt, &inputs).unwrap();
        assert_eq!(outputs.len(), 1);
        let (name, output) = &outputs[0];
        assert_eq!(name.as_str(), output_name);
        assert_eq!(output.shape(), &vec![1, 2, 4, 3]);
        assert_eq!(output.as_slice(&rt).unwrap(), bits(&EXPECTED).as_slice());
    }
}

#[test]
fn unrecognized_extension_attempts_no_backend() {
    let mut rt = NativeRuntime::new(mlbridge::onnx::ORT_API_VERSION);
    assert!(rt.install_model("model.tflite", upsample_model(&["y"], &[true])));
    let env = Environment::new(&mut rt).unwrap();
    let opened = rt.opened_count();
    let r = env.new_session(&mut rt, "model.tflite");
    assert!(matches!(r, Err(NewSessionError::UnsupportedFormat)));
    assert_eq!(rt.opened_count(), opened);
}

#[test]
fn unified_nul_name_makes_no_native_call() {
    let mut rt = NativeRuntime::new(mlbridge::onnx::ORT_API_VERSION);
    assert!(rt.install_model("m.onnx", upsample_model(&["y"], &[true])));
    let env = Environment::new(&mut rt).unwrap();
    let sess = env.new_session(&mut rt, "m.onnx").unwrap();
    let input_data = bits(&[1., 2., 3., 3., 4., 5.]);
    let input_shape = [1, 1, 2, 3];
    let inputs = vec![(
        "a\0b".to_string(),
        InputTensor { data: &input_data, shape: &input_shape },
    )];
    let opened = rt.opened_count();
    let r = sess.run(&mut rt, &inputs);
    assert!(matches!(
        r,
        Err(SessionRunError::ONNXRunError(
            mlbridge::onnx::SessionRunError::MalformedInputName
        ))
    ));
    assert_eq!(rt.opened_count(), opened);
}

#[test]
fn unified_lifecycle_releases_everything() {
    for path in ["m.onnx", "m.mlmodel"] {
        let mut rt = NativeRuntime::new(mlbridge::onnx::ORT_API_VERSION);
        assert!(rt.install_model(path, upsample_model(&["y"], &[true])));
        let env = Environment::new(&mut rt).unwrap();
        let sess = env.new_session(&mut rt, path).unwrap();
        let input_data = bits(&[1., 2., 3., 3., 4., 5.]);
        let input_shape = [1, 1, 2, 3];
        let inputs = vec![(
            "in".to_string(),
            InputTensor { data: &input_data, shape: &input_shape },
        )];
        let outputs = sess.run(&mut rt, &inputs).unwrap();
        for (_, t) in outputs {
            t.close(&mut rt);
        }
        sess.close(&mut rt);
        env.close(&mut rt);
        assert_eq!(rt.live_count(), 0);
        assert_eq!(rt.release_count(), rt.opened_count());
    }
}

#[test]
fn malformed_path_reported_by_chosen_backend() {
    let mut rt = NativeRuntime::new(mlbridge::onnx::ORT_API_VERSION);
    let env = Environment::new(&mut rt).unwrap();
    let r = env.new_session(&mut rt, "bad\0path.onnx");
    assert!(matches!(
        r,
        Err(NewSessionError::ONNX(
            mlbridge::onnx::NewSessionError::MalformedModelPath
        ))
    ));
}

#[test]
fn mismatched_input_shape_fails_run() {
    let mut rt = NativeRuntime::new(mlbridge::onnx::ORT_API_VERSION);
    assert!(rt.install_model("m.onnx", upsample_model(&["y"], &[true])));
    let env = Environment::new(&mut rt).unwrap();
    let sess = env.new_session(&mut rt, "m.onnx").unwrap();
    let input_data = bits(&[1., 2., 3.]);
    // Shape product does not match the element count.
    let input_shape = [1, 1, 2, 3];
    let inputs = vec![(
        "in".to_string(),
        InputTensor { data: &input_data, shape: &input_shape },
    )];
    let live_before = rt.live_count();
    let r = sess.run(&mut rt, &inputs);
    assert!(r.is_err());
    assert_eq!(rt.live_count(), live_before);
}

#[test]
fn install_model_refuses_bad_definitions() {
    let mut rt = NativeRuntime::new(0);
    // An embedded terminator byte in a declared name.
    let mut bad = upsample_model(&["a\0b"], &[true]);
    assert!(!rt.install_model("x.onnx", bad));
    // Presence flags that do not parallel the names.
    bad = upsample_model(&["a"], &[true, false]);
    assert!(!rt.install_model("x.onnx", bad));
    // Duplicate declared names.
    bad = upsample_model(&["a", "a"], &[true, true]);
    assert!(!rt.install_model("x.onnx", bad));
    // A path that is already taken.
    assert!(rt.install_model("x.onnx", upsample_model(&["a"], &[true])));
    assert!(!rt.install_model("x.onnx", upsample_model(&["b"], &[true])));
}

#[test]
fn checked_product_exact_values() {
    assert_eq!(checked_product(&[2, 3, 4]), Some(24));
    assert_eq!(checked_product(&[]), Some(1));
    assert_eq!(checked_product(&[usize::MAX, 0]), Some(0));
    assert_eq!(checked_product(&[usize::MAX, 2]), None);
}

#[test]
fn nul_detection_in_text() {
    assert!(str_has_nul("a\0b"));
    assert!(!str_has_nul("ab"));
    assert!(!str_has_nul(""));
}

#[test]
fn unified_environment_reports_version_mismatch() {
    let mut rt = NativeRuntime::new(mlbridge::onnx::ORT_API_VERSION + 1);
    let r = Environment::new(&mut rt);
    assert!(matches!(
        r,
        Err(mlbridge::NewEnvironmentError::ONNX(
            mlbridge::onnx::NewEnvironmentError::UnsupportedAPIVersion
        ))
    ));
}

#[test]
fn unified_reports_missing_mlmodel() {
    let mut rt = NativeRuntime::new(mlbridge::onnx::ORT_API_VERSION);
    let env = Environment::new(&mut rt).unwrap();
    let r = env.new_session(&mut rt, "nowhere.mlmodel");
    assert!(matches!(
        r,
        Err(NewSessionError::CoreML(
            mlbridge::coreml::NewMLModelError::OpenError
        ))
    ));
}

#[test]
fn unified_run_failure_reported_by_chosen_backend() {
    let mut rt = NativeRuntime::new(mlbridge::onnx::ORT_API_VERSION);
    let mut def = upsample_model(&["y"], &[true]);
    def.run_fails = true;
    assert!(rt.install_model("m.mlmodel", def));
    let env = Environment::new(&mut rt).unwrap();
    let sess = env.new_session(&mut rt, "m.mlmodel").unwrap();
    let input_data = bits(&[1., 2., 3., 3., 4., 5.]);
    let input_shape = [1, 1, 2, 3];
    let inputs = vec![(
        "in".to_string(),
        InputTensor { data: &input_data, shape: &input_shape },
    )];
    let live_before = rt.live_count();
    let r = sess.run(&mut rt, &inputs);
    assert!(matches!(
        r,
        Err(SessionRunError::CoreML(
            mlbridge::coreml::PredictError::PredictError
        ))
    ));
    assert_eq!(rt.live_count(), live_before);
}
