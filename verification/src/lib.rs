//! A memory-safe layer for running machine-learning inference against two
//! native backends, exposing one "loaded model" type and one "tensor view"
//! type regardless of which backend loaded the model.
//!
//! The native runtimes themselves are opaque collaborators.  They are
//! represented here by [`runtime::NativeRuntime`], an explicit handle arena
//! that records every native allocation and release, so that the ownership
//! discipline of this layer - every handle released exactly once, no leaks on
//! error paths - is stated in contracts and proved rather than hoped for.
//!
//! This root module is the dispatch layer: it picks a backend by the model
//! path's extension, forwards loading and running, and normalises both
//! backends' output views behind one type, so calling code never branches on
//! backend identity.

pub mod coreml;
pub mod onnx;
pub mod runtime;

use vstd::prelude::*;

verus! {

use crate::runtime::{
    bytes_of, present_before, product_of, str_has_nul, up_ok, up_shape, upsample2_data, Float32,
    ModelDef, NativeRuntime, ELEM_F32,
};

/// The byte string ends with the suffix.
pub open spec fn has_suffix(s: Seq<u8>, suffix: Seq<u8>) -> bool {
    &&& s.len() >= suffix.len()
    &&& s.subrange(s.len() - suffix.len(), s.len() as int) == suffix
}

/// Whether the byte string ends with the suffix.
pub fn bytes_has_suffix(s: &[u8], suffix: &[u8]) -> (r: bool)
    ensures
        r == has_suffix(s@, suffix@),
{
    if s.len() < suffix.len() {
        return false;
    }
    let start = s.len() - suffix.len();
    let mut i: usize = 0;
    while i < suffix.len()
        invariant
            0 <= i <= suffix@.len(),
            start == s@.len() - suffix@.len(),
            s@.len() >= suffix@.len(),
            s@.len() <= usize::MAX as int,
            forall|j: int| 0 <= j < i ==> s@[start + j] == suffix@[j],
        decreases suffix@.len() - i,
    {
        if s[start + i] != suffix[i] {
            assert(s@.subrange(start as int, s@.len() as int)[i as int] != suffix@[i as int]);
            return false;
        }
        i += 1;
    }
    assert(s@.subrange(start as int, s@.len() as int) =~= suffix@);
    true
}

/// The path names a model of the value-handle backend.
pub open spec fn is_onnx_path(path: Seq<char>) -> bool {
    has_suffix(bytes_of(path), bytes_of(".onnx"@))
}

/// The path names a model of the feature-provider backend.
pub open spec fn is_mlmodel_path(path: Seq<char>) -> bool {
    has_suffix(bytes_of(path), bytes_of(".mlmodel"@))
}

/// Why no unified environment could be constructed.
#[derive(Debug)]
pub enum NewEnvironmentError {
    ONNX(onnx::NewEnvironmentError),
}

/// Why no session could be opened for a model path.
#[derive(Debug)]
pub enum NewSessionError {
    ONNX(onnx::NewSessionError),
    CoreML(coreml::NewMLModelError),
    UnsupportedFormat,
}

/// Why a run failed.
#[derive(Debug)]
pub enum SessionRunError {
    ONNXError(onnx::Error),
    ONNXRunError(onnx::SessionRunError),
    CoreML(coreml::PredictError),
}

/// A caller-borrowed input tensor: a dense row-major float buffer and its
/// shape.  The caller keeps ownership of both borrows.
pub struct InputTensor<'a> {
    pub data: &'a [Float32],
    pub shape: &'a [usize],
}

/// The process-wide runtime context of every backend that needs one; must
/// outlive every session opened from it.
pub struct Environment {
    pub onnx: onnx::Environment,
}

impl Environment {
    /// The owned backend context is intact.
    pub open spec fn wf(self, rt: NativeRuntime) -> bool {
        self.onnx.wf(rt)
    }

    /// Creates the contexts of the backends that need one.
    pub fn new(rt: &mut NativeRuntime) -> (r: Result<Environment, NewEnvironmentError>)
        requires
            old(rt).wf(),
        ensures
            final(rt).wf(),
            final(rt).same_config(*old(rt)),
            final(rt).keeps_records_of(*old(rt)),
            r is Ok <==> old(rt).api_version == onnx::ORT_API_VERSION,
            r matches Ok(env) ==> {
                &&& env.wf(*final(rt))
                &&& final(rt).release_log == old(rt).release_log
                &&& forall|h: int|
                    final(rt).live(h) <==> (#[trigger] old(rt).live(h)
                        || h == env.onnx.memory_info.inner || h == env.onnx.inner)
            },
            r is Err ==> *final(rt) == *old(rt),
    {
        match onnx::Environment::new(rt) {
            Ok(env) => Ok(Environment { onnx: env }),
            Err(e) => Err(NewEnvironmentError::ONNX(e)),
        }
    }

    /// Opens a session for the model behind the path, picking the backend
    /// by the path's extension.  An unrecognised extension is refused
    /// outright, before any backend construction is attempted.
    pub fn new_session(&self, rt: &mut NativeRuntime, model_path: &str) -> (r: Result<
        Session,
        NewSessionError,
    >)
        requires
            old(rt).wf(),
            self.wf(*old(rt)),
        ensures
            final(rt).wf(),
            final(rt).same_config(*old(rt)),
            final(rt).keeps_records_of(*old(rt)),
            !is_onnx_path(model_path@) && !is_mlmodel_path(model_path@) ==> (r matches Err(
                NewSessionError::UnsupportedFormat,
            ) && *final(rt) == *old(rt)),
            is_onnx_path(model_path@) ==> (r is Ok <==> onnx::session_open_ok(
                *old(rt),
                bytes_of(model_path@),
            )),
            !is_onnx_path(model_path@) && is_mlmodel_path(model_path@) ==> (r is Ok
                <==> coreml::model_open_ok(*old(rt), bytes_of(model_path@))),
            r matches Ok(sess) ==> {
                &&& sess.wf(*final(rt))
                &&& (sess is ONNX <==> is_onnx_path(model_path@))
                &&& sess.spec_output_names() == old(rt).model_def_of(
                    bytes_of(model_path@),
                ).output_names@
                &&& forall|h: int|
                    final(rt).live(h) <==> (#[trigger] old(rt).live(h) || h == sess.handle())
            },
            r is Err ==> final(rt).same_live(*old(rt)),
    {
        let path_bytes = runtime::str_bytes(model_path);
        if bytes_has_suffix(path_bytes.as_slice(), ".onnx".as_bytes()) {
            match self.onnx.new_session(rt, model_path) {
                Ok(sess) => Ok(Session::ONNX(sess)),
                Err(e) => Err(NewSessionError::ONNX(e)),
            }
        } else if bytes_has_suffix(path_bytes.as_slice(), ".mlmodel".as_bytes()) {
            match coreml::MLModel::new(rt, model_path) {
                Ok(mdl) => Ok(Session::CoreML(mdl)),
                Err(e) => Err(NewSessionError::CoreML(e)),
            }
        } else {
            Err(NewSessionError::UnsupportedFormat)
        }
    }

    /// Tears the owned backend contexts down, each handle exactly once, in
    /// dependency order.
    pub fn close(self, rt: &mut NativeRuntime)
        requires
            old(rt).wf(),
            self.wf(*old(rt)),
        ensures
            final(rt).wf(),
            final(rt).same_config(*old(rt)),
            final(rt).release_log@ == old(rt).release_log@.push(self.onnx.memory_info.inner).push(
                self.onnx.inner,
            ),
            forall|h: int|
                final(rt).live(h) <==> (#[trigger] old(rt).live(h) && h
                    != self.onnx.memory_info.inner && h != self.onnx.inner),
    {
        self.onnx.close(rt);
    }
}

/// Output names are captured once at load time and immutable afterwards:
/// any two reads of a session's output-name table yield the same ordered
/// sequence.
pub proof fn lemma_output_names_stable(s: &Session, r1: Seq<String>, r2: Seq<String>)
    requires
        r1 == s.spec_output_names(),
        r2 == s.spec_output_names(),
    ensures
        r1 == r2,
{
}

/// Every runtime-produced output view is full: the product of its
/// dimension sizes is exactly its element count.  (Views of the
/// feature-provider backend state this in `as_slice` directly; this law
/// covers the view contract both backends' run results satisfy.)
pub proof fn lemma_output_view_full(
    t: &OutputTensor,
    rt: &NativeRuntime,
    in_shape: Seq<usize>,
    in_data: Seq<Float32>,
)
    requires
        up_ok(in_shape, in_data.len() as int),
        t.spec_shape() == up_shape(in_shape),
        t.spec_data(*rt) == upsample2_data(in_data, in_shape),
    ensures
        t.spec_data(*rt).len() == product_of(t.spec_shape()),
{
    crate::runtime::lemma_upsample2_len(in_data, in_shape);
}

/// One loaded model, whichever backend loaded it.
pub enum Session {
    ONNX(onnx::Session),
    CoreML(coreml::MLModel),
}

/// An output view of a run, whichever backend produced it, unified behind
/// one read-only accessor contract.
pub enum OutputTensor {
    ONNX(onnx::Tensor),
    CoreML(coreml::OutputTensor),
}

/// Some input name holds an embedded terminator byte.
pub open spec fn names_malformed(inputs: Seq<(String, InputTensor)>) -> bool {
    exists|i: int| 0 <= i < inputs.len() && bytes_of((#[trigger] inputs[i].0)@).contains(0u8)
}

impl OutputTensor {
    /// The view owns a live handle of its backend.
    pub open spec fn wf(self, rt: NativeRuntime) -> bool {
        match self {
            OutputTensor::ONNX(t) => t.wf(rt) && t.data_type == ELEM_F32,
            OutputTensor::CoreML(t) => t.wf(rt),
        }
    }

    /// The native handle the view owns.
    pub open spec fn handle(self) -> usize {
        match self {
            OutputTensor::ONNX(t) => t.inner,
            OutputTensor::CoreML(t) => t.multiarray,
        }
    }

    /// The view's dimension sizes.
    pub open spec fn spec_shape(self) -> Seq<usize> {
        match self {
            OutputTensor::ONNX(t) => t.shape@,
            OutputTensor::CoreML(t) => t.shape@,
        }
    }

    /// The elements the view exposes.
    pub open spec fn spec_data(self, rt: NativeRuntime) -> Seq<Float32> {
        match self {
            OutputTensor::ONNX(t) => rt.value_data_of(t.inner as int),
            OutputTensor::CoreML(t) => t.spec_data(rt),
        }
    }

    /// The elements, when the stored element type is the requested float
    /// kind; a differently-typed tensor reports no data rather than
    /// reinterpreting bytes.
    pub fn as_slice<'a>(&self, rt: &'a NativeRuntime) -> (r: Option<&'a [Float32]>)
        requires
            rt.wf(),
            self.wf(*rt),
        ensures
            r matches Some(s) && s@ == self.spec_data(*rt),
    {
        match self {
            OutputTensor::ONNX(t) => t.as_slice(rt),
            OutputTensor::CoreML(t) => Some(t.as_slice(rt)),
        }
    }

    /// The ordered dimension sizes.
    pub fn shape(&self) -> (r: &Vec<usize>)
        ensures
            r@ == self.spec_shape(),
    {
        match self {
            OutputTensor::ONNX(t) => t.shape(),
            OutputTensor::CoreML(t) => t.shape(),
        }
    }

    /// Releases the owned handle, exactly once.
    pub fn close(self, rt: &mut NativeRuntime)
        requires
            old(rt).wf(),
            self.wf(*old(rt)),
        ensures
            final(rt).wf(),
            final(rt).same_config(*old(rt)),
            final(rt).release_log@ == old(rt).release_log@.push(self.handle()),
            forall|h: int|
                final(rt).live(h) <==> (#[trigger] old(rt).live(h) && h != self.handle()),
            final(rt).records.len() == old(rt).records.len(),
            forall|h: int|
                0 <= h < old(rt).records.len() && h != self.handle() ==> final(rt).records[h]
                    == #[trigger] old(rt).records[h],
    {
        match self {
            OutputTensor::ONNX(t) => t.close(rt),
            OutputTensor::CoreML(t) => t.close(rt),
        }
    }
}

impl Session {
    /// The owned loaded-model state of the chosen backend is intact.
    pub open spec fn wf(self, rt: NativeRuntime) -> bool {
        match self {
            Session::ONNX(s) => s.wf(rt),
            Session::CoreML(m) => m.wf(rt),
        }
    }

    /// The owned loaded-model handle.
    pub open spec fn handle(self) -> usize {
        match self {
            Session::ONNX(s) => s.inner,
            Session::CoreML(m) => m.inner,
        }
    }

    /// The captured output names.
    pub open spec fn spec_output_names(self) -> Seq<String> {
        match self {
            Session::ONNX(s) => s.output_names@,
            Session::CoreML(m) => m.output_names@,
        }
    }

    /// The definition of the model this session loaded.
    pub open spec fn session_def(self, rt: NativeRuntime) -> ModelDef {
        rt.def_of_handle(self.handle() as int)
    }

    /// The captured output names, in declaration order; fixed at load time.
    pub fn output_names(&self) -> (r: &Vec<String>)
        ensures
            r@ == self.spec_output_names(),
    {
        match self {
            Session::ONNX(s) => s.output_names(),
            Session::CoreML(m) => m.output_names(),
        }
    }

    /// Runs the loaded model over the named inputs and returns the named
    /// output views, in the order of the captured output-name table, minus
    /// any output the backend reports absent for this run.
    ///
    /// An input name with an embedded terminator byte fails fast, before
    /// any native call.  On failure no output view is constructed or
    /// leaked; on success exactly the returned views' handles are the new
    /// live handles, each owned by one view.
    pub fn run<'a>(&self, rt: &mut NativeRuntime, inputs: &Vec<(String, InputTensor<'a>)>) -> (r:
        Result<Vec<(String, OutputTensor)>, SessionRunError>)
        requires
            old(rt).wf(),
            self.wf(*old(rt)),
        ensures
            final(rt).wf(),
            final(rt).same_config(*old(rt)),
            final(rt).keeps_records_of(*old(rt)),
            names_malformed(inputs@) ==> (r is Err && *final(rt) == *old(rt)),
            r is Ok <==> (!names_malformed(inputs@) && !self.session_def(*old(rt)).run_fails
                && inputs@.len() == 1 && up_ok(
                inputs@[0].1.shape@,
                inputs@[0].1.data@.len() as int,
            )),
            r matches Ok(outs) ==> {
                let def = self.session_def(*old(rt));
                let in_shape = inputs@[0].1.shape@;
                let in_data = inputs@[0].1.data@;
                &&& (self is ONNX ==> {
                    &&& outs.len() == self.spec_output_names().len()
                    &&& forall|i: int|
                        0 <= i < outs.len() ==> (#[trigger] outs[i]).0
                            == self.spec_output_names()[i]
                })
                &&& (self is CoreML ==> {
                    &&& outs.len() == present_before(def, def.output_names.len() as int)
                    &&& forall|j: int|
                        0 <= j < def.output_names.len() && #[trigger] def.outputs_present[j]
                            ==> outs[present_before(def, j)].0 == self.spec_output_names()[j]
                })
                &&& forall|e: int|
                    0 <= e < outs.len() ==> {
                        let t = (#[trigger] outs[e]).1;
                        &&& t.wf(*final(rt))
                        &&& t.spec_shape() == up_shape(in_shape)
                        &&& t.spec_data(*final(rt)) == upsample2_data(in_data, in_shape)
                    }
                &&& forall|e1: int, e2: int|
                    0 <= e1 < e2 < outs.len() ==> (#[trigger] outs[e1]).1.handle() != (
                    #[trigger] outs[e2]).1.handle()
                &&& forall|h: int|
                    final(rt).live(h) <==> (#[trigger] old(rt).live(h) || exists|e: int|
                        0 <= e < outs.len() && (#[trigger] outs[e]).1.handle() == h)
            },
            r is Err ==> final(rt).same_live(*old(rt)),
    {
        match self {
            Session::ONNX(sess) => {
                let mut i: usize = 0;
                while i < inputs.len()
                    invariant
                        0 <= i <= inputs.len(),
                        *rt == *old(rt),
                        old(rt).wf(),
                        forall|j: int|
                            0 <= j < i ==> !bytes_of((#[trigger] inputs[j].0)@).contains(0u8),
                    decreases inputs.len() - i,
                {
                    if str_has_nul(inputs[i].0.as_str()) {
                        return Err(
                            SessionRunError::ONNXRunError(onnx::SessionRunError::MalformedInputName),
                        );
                    }
                    i += 1;
                }
                if inputs.len() != 1 {
                    // The models of this layer take exactly one input; let the
                    // native execution entry point reject the call.
                    let no_inputs: Vec<(String, onnx::Tensor)> = Vec::new();
                    return match sess.run(rt, &no_inputs) {
                        Ok(_) => vstd::pervasive::unreached(),
                        Err(e) => Err(SessionRunError::ONNXRunError(e)),
                    };
                }
                let t0 = match sess.new_input_tensor(rt, inputs[0].1.data, inputs[0].1.shape) {
                    Ok(t) => t,
                    Err(_) => vstd::pervasive::unreached(),
                };
                let mut in_tensors: Vec<(String, onnx::Tensor)> = Vec::new();
                in_tensors.push((inputs[0].0.clone(), t0));
                let ghost rt_1 = *rt;
                let ghost in_snap = in_tensors@;
                proof {
                    assert(onnx::handles_of(in_snap) =~= seq![in_snap[0].1.inner]);
                }
                let outs0 = match sess.run(rt, &in_tensors) {
                    Ok(outs0) => outs0,
                    Err(e) => {
                        let (_, t_back) = match in_tensors.pop() {
                            Some(p) => p,
                            None => vstd::pervasive::unreached(),
                        };
                        t_back.close(rt);
                        return Err(SessionRunError::ONNXRunError(e));
                    },
                };
                let ghost rt_2 = *rt;
                let (_, t_back) = match in_tensors.pop() {
                    Some(p) => p,
                    None => vstd::pervasive::unreached(),
                };
                t_back.close(rt);
                let mut outs: Vec<(String, OutputTensor)> = Vec::new();
                let mut outs_rest = outs0;
                let ghost outs0_snap = outs_rest@;
                while outs_rest.len() > 0
                    invariant
                        outs.len() + outs_rest.len() == outs0_snap.len(),
                        outs_rest@ == outs0_snap.skip(outs.len() as int),
                        forall|i: int|
                            0 <= i < outs.len() ==> (#[trigger] outs[i]).0 == outs0_snap[i].0
                                && outs[i].1 == OutputTensor::ONNX(outs0_snap[i].1),
                    decreases outs_rest.len(),
                {
                    let (name, t) = outs_rest.remove(0);
                    proof {
                        assert(outs0_snap.skip(outs.len() as int)[0] == outs0_snap[outs.len() as int]);
                        assert(outs0_snap.skip(outs.len() as int).skip(1) =~= outs0_snap.skip(
                            outs.len() + 1,
                        ));
                    }
                    outs.push((name, OutputTensor::ONNX(t)));
                }
                proof {
                    let base = old(rt).records.len() as int;
                    assert forall|h: int| #[trigger] rt.live(h) && !old(rt).live(h) implies exists|e: int|
                        0 <= e < outs@.len() && (#[trigger] outs@[e]).1.handle() == h by {
                        assert(rt_2.live(h) && h != base);
                        let e = h - base - 1;
                        assert(outs0_snap[e].1.inner == rt_1.records.len() + e);
                        assert(outs@[e].1 == OutputTensor::ONNX(outs0_snap[e].1));
                        assert(outs@[e].1.handle() == h);
                    }
                    assert forall|e: int| 0 <= e < outs@.len() implies {
                        &&& rt.live((#[trigger] outs@[e]).1.handle() as int)
                        &&& outs@[e].1.wf(*rt)
                        &&& outs@[e].1.spec_data(*rt) == upsample2_data(
                            inputs@[0].1.data@,
                            inputs@[0].1.shape@,
                        )
                        &&& outs@[e].1.spec_shape() == up_shape(inputs@[0].1.shape@)
                    } by {
                        assert(outs@[e].1 == OutputTensor::ONNX(outs0_snap[e].1));
                        assert(outs0_snap[e].1.inner == rt_1.records.len() + e);
                        assert(rt_2.live(outs0_snap[e].1.inner as int));
                        assert(rt_1.value_shape_of(in_snap[0].1.inner as int)
                            == inputs@[0].1.shape@);
                        assert(rt_1.value_data_of(in_snap[0].1.inner as int)
                            == inputs@[0].1.data@);
                    }
                }
                Ok(outs)
            },
            Session::CoreML(mdl) => {
                let mut b_inputs: Vec<(String, coreml::InputTensor<'a>)> = Vec::new();
                let mut k: usize = 0;
                while k < inputs.len()
                    invariant
                        0 <= k <= inputs.len(),
                        b_inputs.len() == k,
                        *rt == *old(rt),
                        old(rt).wf(),
                        forall|j: int|
                            0 <= j < k ==> {
                                &&& (#[trigger] b_inputs[j]).0 == inputs[j].0
                                &&& b_inputs[j].1.data@ == inputs[j].1.data@
                                &&& b_inputs[j].1.shape@ == inputs[j].1.shape@
                            },
                    decreases inputs.len() - k,
                {
                    b_inputs.push(
                        (
                            inputs[k].0.clone(),
                            coreml::InputTensor { data: inputs[k].1.data, shape: inputs[k].1.shape },
                        ),
                    );
                    k += 1;
                }
                proof {
                    if coreml::b_names_malformed(b_inputs@) {
                        let i = choose|i: int|
                            0 <= i < b_inputs@.len() && bytes_of(
                                (#[trigger] b_inputs@[i].0)@,
                            ).contains(0u8);
                        assert(bytes_of(inputs@[i].0@).contains(0u8));
                    }
                    if names_malformed(inputs@) {
                        let i = choose|i: int|
                            0 <= i < inputs@.len() && bytes_of(
                                (#[trigger] inputs@[i].0)@,
                            ).contains(0u8);
                        assert(bytes_of(b_inputs@[i].0@).contains(0u8));
                    }
                }
                let outs0 = match mdl.predict(rt, &b_inputs) {
                    Ok(outs0) => outs0,
                    Err(e) => {
                        return Err(SessionRunError::CoreML(e));
                    },
                };
                let ghost def = self.session_def(*old(rt));
                let ghost np = present_before(def, def.output_names.len() as int);
                let mut outs: Vec<(String, OutputTensor)> = Vec::new();
                let mut outs_rest = outs0;
                let ghost outs0_snap = outs_rest@;
                while outs_rest.len() > 0
                    invariant
                        outs.len() + outs_rest.len() == outs0_snap.len(),
                        outs_rest@ == outs0_snap.skip(outs.len() as int),
                        forall|i: int|
                            0 <= i < outs.len() ==> (#[trigger] outs[i]).0 == outs0_snap[i].0
                                && outs[i].1 == OutputTensor::CoreML(outs0_snap[i].1),
                    decreases outs_rest.len(),
                {
                    let (name, t) = outs_rest.remove(0);
                    proof {
                        assert(outs0_snap.skip(outs.len() as int)[0] == outs0_snap[outs.len() as int]);
                        assert(outs0_snap.skip(outs.len() as int).skip(1) =~= outs0_snap.skip(
                            outs.len() + 1,
                        ));
                    }
                    outs.push((name, OutputTensor::CoreML(t)));
                }
                proof {
                    let base = old(rt).records.len() as int;
                    assert forall|h: int| #[trigger] rt.live(h) && !old(rt).live(h) implies exists|e: int|
                        0 <= e < outs@.len() && (#[trigger] outs@[e]).1.handle() == h by {
                        let e = h - base;
                        assert(outs@[e].1 == OutputTensor::CoreML(outs0_snap[e].1));
                        assert(outs0_snap[e].1.multiarray == base + e);
                        assert(outs@[e].1.handle() == h);
                    }
                    assert forall|e: int| 0 <= e < outs@.len() implies rt.live(
                        (#[trigger] outs@[e]).1.handle() as int,
                    ) by {
                        assert(outs@[e].1 == OutputTensor::CoreML(outs0_snap[e].1));
                        assert(outs0_snap[e].1.multiarray == base + e);
                    }
                    assert forall|j: int|
                        0 <= j < def.output_names.len() && #[trigger] def.outputs_present[j]
                            implies outs@[present_before(def, j)].0 == self.spec_output_names()[j] by {
                        crate::runtime::lemma_present_before_le(def, j);
                        crate::runtime::lemma_present_before_le(
                            def,
                            def.output_names.len() as int,
                        );
                        assert(present_before(def, j + 1) == present_before(def, j) + 1);
                        assert(present_before(def, j) < np);
                        assert(outs0_snap[present_before(def, j)].0 == mdl.output_names@[j]);
                    }
                }
                Ok(outs)
            },
        }
    }

    /// Releases the owned loaded-model handle, exactly once.
    pub fn close(self, rt: &mut NativeRuntime)
        requires
            old(rt).wf(),
            self.wf(*old(rt)),
        ensures
            final(rt).wf(),
            final(rt).same_config(*old(rt)),
            final(rt).release_log@ == old(rt).release_log@.push(self.handle()),
            forall|h: int|
                final(rt).live(h) <==> (#[trigger] old(rt).live(h) && h != self.handle()),
    {
        match self {
            Session::ONNX(s) => s.close(rt),
            Session::CoreML(m) => m.close(rt),
        }
    }
}

} // verus!

