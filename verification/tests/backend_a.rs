use mlbridge::onnx;
use mlbridge::runtime::{Float32, ModelDef, NativeRuntime, Op};

fn bits(values: &[f32]) -> Vec<Float32> {
    values.iter().map(|v| Float32 { bits: v.to_bits() }).collect()
}

fn upsample_model(names: &[&str], present: &[bool]) -> ModelDef {
    ModelDef {
        output_names: names.iter().map(|s| s.to_string()).collect(),
        outputs_present: present.to_vec(),
        op: Op::Upsample2,
        open_fails: false,
        run_fails: false,
        name_fail_at: None,
    }
}

const MODEL_PATH: &str = "src/onnx/testdata/upsample.onnx";

fn runtime_with_model(def: ModelDef) -> NativeRuntime {
    let mut rt = NativeRuntime::new(onnx::ORT_API_VERSION);
    assert!(rt.install_model(MODEL_PATH, def));
    rt
}

#[test]
fn test_upsample() {
    let mut rt = runtime_with_model(upsample_model(&["Identity:0"], &[true]));
    let env = onnx::Environment::new(&mut rt).unwrap();
    let sess = env.new_session(&mut rt, MODEL_PATH).unwrap();
    let input_data = bits(&[1., 2., 3., 3., 4., 5.]);
    let input = env
        .new_tensor(&mut rt, &input_data, &[1, 1, 2, 3])
        .unwrap();
    let inputs = vec![("up_sampling2d_input:0".to_string(), input)];
    let outputs = sess.run(&mut rt, &inputs).unwrap();
    assert_eq!(outputs.len(), 1);
    let (name, output) = &outputs[0];
    assert_eq!(name.as_str(), "Identity:0");
    assert_eq!(output.shape(), &vec![1, 2, 4, 3]);
    assert_eq!(
        output.as_slice(&rt).unwrap(),
        bits(&[
            1., 2., 3., 1., 2., 3., 3., 4., 5., 3., 4., 5., 1., 2., 3., 1., 2., 3., 3., 4., 5.,
            3., 4., 5.
        ])
        .as_slice()
    );
}

#[test]
fn output_view_len_is_shape_product() {
    let mut rt = runtime_with_model(upsample_model(&["Identity:0"], &[true]));
    let env = onnx::Environment::new(&mut rt).unwrap();
    let sess = env.new_session(&mut rt, MODEL_PATH).unwrap();
    let input_data = bits(&[1., 2., 3., 3., 4., 5.]);
    let input = env
        .new_tensor(&mut rt, &input_data, &[1, 1, 2, 3])
        .unwrap();
    let inputs = vec![("x".to_string(), input)];
    let outputs = sess.run(&mut rt, &inputs).unwrap();
    let (_, output) = &outputs[0];
    let product: usize = output.shape().iter().product();
    assert_eq!(product, output.as_slice(&rt).unwrap().len());
}

#[test]
fn every_handle_released_exactly_once() {
    let mut rt = runtime_with_model(upsample_model(&["Identity:0"], &[true]));
    let env = onnx::Environment::new(&mut rt).unwrap();
    let sess = env.new_session(&mut rt, MODEL_PATH).unwrap();
    let input_data = bits(&[1., 2., 3., 3., 4., 5.]);
    let input = env
        .new_tensor(&mut rt, &input_data, &[1, 1, 2, 3])
        .unwrap();
    let inputs = vec![("x".to_string(), input)];
    let outputs = sess.run(&mut rt, &inputs).unwrap();
    for (_, t) in outputs {
        t.close(&mut rt);
    }
    for (_, t) in inputs {
        t.close(&mut rt);
    }
    sess.close(&mut rt);
    env.close(&mut rt);
    assert_eq!(rt.live_count(), 0);
    assert_eq!(rt.release_count(), rt.opened_count());
}

#[test]
fn failed_output_enumeration_releases_session() {
    let mut def = upsample_model(&["Identity:0"], &[true]);
    def.name_fail_at = Some(0);
    let mut rt = runtime_with_model(def);
    let env = onnx::Environment::new(&mut rt).unwrap();
    let live_before = rt.live_count();
    let r = env.new_session(&mut rt, MODEL_PATH);
    assert!(matches!(r, Err(onnx::NewSessionError::Other(_))));
    // The just-created session handle was torn down again: nothing leaked.
    assert_eq!(rt.live_count(), live_before);
    assert!(rt.release_count() >= 1);
}

#[test]
fn embedded_nul_input_name_makes_no_native_call() {
    let mut rt = runtime_with_model(upsample_model(&["Identity:0"], &[true]));
    let env = onnx::Environment::new(&mut rt).unwrap();
    let sess = env.new_session(&mut rt, MODEL_PATH).unwrap();
    let input_data = bits(&[1., 2., 3., 3., 4., 5.]);
    let input = env
        .new_tensor(&mut rt, &input_data, &[1, 1, 2, 3])
        .unwrap();
    let inputs = vec![("a\0b".to_string(), input)];
    let opened = rt.opened_count();
    let released = rt.release_count();
    let r = sess.run(&mut rt, &inputs);
    assert!(matches!(r, Err(onnx::SessionRunError::MalformedInputName)));
    assert_eq!(rt.opened_count(), opened);
    assert_eq!(rt.release_count(), released);
}

#[test]
fn embedded_nul_model_path_fails_fast() {
    let mut rt = runtime_with_model(upsample_model(&["Identity:0"], &[true]));
    let env = onnx::Environment::new(&mut rt).unwrap();
    let opened = rt.opened_count();
    let r = env.new_session(&mut rt, "bad\0path.onnx");
    assert!(matches!(r, Err(onnx::NewSessionError::MalformedModelPath)));
    assert_eq!(rt.opened_count(), opened);
}

#[test]
fn unsupported_api_version_refused() {
    let mut rt = NativeRuntime::new(onnx::ORT_API_VERSION + 1);
    let r = onnx::Environment::new(&mut rt);
    assert!(matches!(
        r,
        Err(onnx::NewEnvironmentError::UnsupportedAPIVersion)
    ));
    assert_eq!(rt.opened_count(), 0);
}

#[test]
fn missing_model_fails_session_creation() {
    let mut rt = NativeRuntime::new(onnx::ORT_API_VERSION);
    let env = onnx::Environment::new(&mut rt).unwrap();
    let live_before = rt.live_count();
    let r = env.new_session(&mut rt, "nowhere.onnx");
    assert!(matches!(r, Err(onnx::NewSessionError::Other(_))));
    assert_eq!(rt.live_count(), live_before);
}

#[test]
fn run_failure_leaves_no_output_handles() {
    let mut def = upsample_model(&["Identity:0"], &[true]);
    def.run_fails = true;
    let mut rt = runtime_with_model(def);
    let env = onnx::Environment::new(&mut rt).unwrap();
    let sess = env.new_session(&mut rt, MODEL_PATH).unwrap();
    let input_data = bits(&[1., 2., 3., 3., 4., 5.]);
    let input = env
        .new_tensor(&mut rt, &input_data, &[1, 1, 2, 3])
        .unwrap();
    let inputs = vec![("x".to_string(), input)];
    let live_before = rt.live_count();
    let r = sess.run(&mut rt, &inputs);
    assert!(matches!(r, Err(onnx::SessionRunError::Other(_))));
    assert_eq!(rt.live_count(), live_before);
}

#[test]
fn environment_close_releases_in_dependency_order() {
    let mut rt = NativeRuntime::new(onnx::ORT_API_VERSION);
    let env = onnx::Environment::new(&mut rt).unwrap();
    let mem_h = env.memory_info.inner;
    let env_h = env.inner;
    env.close(&mut rt);
    // Memory descriptor first, then the runtime context it depends on.
    assert_eq!(rt.release_log, vec![mem_h, env_h]);
}

#[test]
fn output_names_stable_across_reads() {
    let mut rt = runtime_with_model(upsample_model(&["Identity:0"], &[true]));
    let env = onnx::Environment::new(&mut rt).unwrap();
    let sess = env.new_session(&mut rt, MODEL_PATH).unwrap();
    let first = sess.output_names().clone();
    let second = sess.output_names().clone();
    assert_eq!(first, second);
    assert_eq!(first, vec!["Identity:0".to_string()]);
}

#[test]
fn refused_model_open_fails_session_creation() {
    let mut def = upsample_model(&["Identity:0"], &[true]);
    def.open_fails = true;
    let mut rt = runtime_with_model(def);
    let env = onnx::Environment::new(&mut rt).unwrap();
    let live_before = rt.live_count();
    let r = env.new_session(&mut rt, MODEL_PATH);
    assert!(matches!(r, Err(onnx::NewSessionError::Other(_))));
    assert_eq!(rt.live_count(), live_before);
}

#[test]
fn api_table_refused_for_other_version() {
    let rt = NativeRuntime::new(onnx::ORT_API_VERSION + 7);
    assert!(matches!(
        onnx::API::new(&rt),
        Err(onnx::NewAPIError::UnsupportedVersion)
    ));
    let rt_ok = NativeRuntime::new(onnx::ORT_API_VERSION);
    assert!(onnx::API::new(&rt_ok).is_ok());
}
