//! The value-handle backend: a graph-execution runtime driven through an API
//! table of out-parameter calls, each reporting failure through an allocated
//! status object.
//!
//! Every native call of this backend is a verified transition on the
//! [`NativeRuntime`] arena, so the ownership contracts - the status object of
//! a failed call released exactly once, a half-constructed session torn down
//! before its error propagates, every value handle owned by exactly one
//! wrapper - are proved rather than trusted.

use vstd::prelude::*;

verus! {

use crate::runtime::{
    bytes_eq, bytes_of, product_of, str_bytes, str_has_nul, up_ok, up_shape, upsample2_data,
    apply_upsample2, lemma_upsample2_len, Float32, ModelDef, NativeRuntime, Payload, Record,
    ELEM_F32,
};

/// The requested output name is one of the declared names.
pub open spec fn name_declared_in(def: ModelDef, name: Seq<u8>) -> bool {
    exists|j: int|
        0 <= j < def.output_names.len() && name == bytes_of((#[trigger] def.output_names[j])@)
}

/// Every requested output name is declared by the model.
pub open spec fn names_all_declared(def: ModelDef, names: Seq<Vec<u8>>) -> bool {
    forall|i: int| 0 <= i < names.len() ==> name_declared_in(def, (#[trigger] names[i])@)
}

/// The conditions under which executing a session succeeds: the model does
/// not refuse, and exactly one float tensor that fits its operation is fed.
pub open spec fn a_run_ok(rt: NativeRuntime, sess_h: int, inputs: Seq<usize>) -> bool {
    &&& !rt.def_of_handle(sess_h).run_fails
    &&& inputs.len() == 1
    &&& rt.value_elem_of(inputs[0] as int) == ELEM_F32
    &&& up_ok(rt.value_shape_of(inputs[0] as int), rt.value_data_of(inputs[0] as int).len() as int)
}

/// Scans the declared names for the requested one.
fn name_is_declared(def: &ModelDef, name: &[u8]) -> (r: bool)
    ensures
        r == name_declared_in(*def, name@),
{
    let mut i: usize = 0;
    while i < def.output_names.len()
        invariant
            0 <= i <= def.output_names.len(),
            forall|j: int| 0 <= j < i ==> name@ != bytes_of((#[trigger] def.output_names[j])@),
        decreases def.output_names.len() - i,
    {
        let nb = str_bytes(def.output_names[i].as_str());
        if bytes_eq(name, nb.as_slice()) {
            return true;
        }
        i += 1;
    }
    false
}

/// The API-table version this layer was written against; a runtime answering
/// to a different version is refused.
pub const ORT_API_VERSION: u32 = 16;

/// A native failure adapted to a uniform code and diagnostic text.
#[derive(Debug)]
pub struct Error {
    pub code: u32,
    pub message: String,
}

/// Why the API table could not be obtained.
#[derive(Debug)]
pub enum NewAPIError {
    UnsupportedVersion,
}

/// Why an environment could not be constructed.
#[derive(Debug)]
pub enum NewEnvironmentError {
    UnsupportedAPIVersion,
    Other(Error),
}

/// Why a session could not be constructed.
#[derive(Debug)]
pub enum NewSessionError {
    MalformedModelPath,
    Other(Error),
}

/// Why a run call failed.
#[derive(Debug)]
pub enum SessionRunError {
    MalformedInputName,
    Other(Error),
}

/// A status pointer as a native call returns it: absent means success, a
/// handle names an allocated status object that must be released exactly
/// once.
pub struct StatusPtr(pub Option<usize>);

/// The borrowed default allocator; owned by the runtime for its whole
/// process lifetime, so never released by this layer.
#[derive(Clone, Copy)]
pub struct AllocatorHandle {
    _private: (),
}

/// The backend's API table.  Obtaining it is versioned; every call of this
/// backend goes through it.
#[derive(Clone, Copy)]
pub struct API {
    _private: (),
}

impl API {
    /// Obtains the API table, refusing a runtime of another version.
    pub fn new(rt: &NativeRuntime) -> (r: Result<API, NewAPIError>)
        ensures
            r is Ok <==> rt.api_version == ORT_API_VERSION,
    {
        if rt.api_version == ORT_API_VERSION {
            Ok(API { _private: () })
        } else {
            Err(NewAPIError::UnsupportedVersion)
        }
    }

    /// The error adapter: a null status means success and nothing to
    /// release; any other status is read into an [`Error`] and the status
    /// object is released exactly once, before the error is handed on.
    pub fn consume_status(&self, rt: &mut NativeRuntime, status: StatusPtr) -> (r: Result<
        (),
        Error,
    >)
        requires
            old(rt).wf(),
            status.0 matches Some(h) ==> old(rt).live(h as int) && old(rt).records[h as int].payload is Status,
        ensures
            final(rt).wf(),
            final(rt).same_config(*old(rt)),
            match status.0 {
                None => r is Ok && *final(rt) == *old(rt),
                Some(h) => {
                    &&& r is Err
                    &&& final(rt).records@ == old(rt).records@.update(
                        h as int,
                        Record { payload: old(rt).records@[h as int].payload, released: true },
                    )
                    &&& final(rt).release_log@ == old(rt).release_log@.push(h)
                    &&& (old(rt).records@[h as int].payload matches Payload::Status {
                        code,
                        message,
                    } ==> r matches Err(e) && e.code == code && e.message@ == message@)
                },
            },
    {
        match status.0 {
            None => Ok(()),
            Some(h) => {
                let err = match &rt.records[h].payload {
                    Payload::Status { code, message } => Error {
                        code: *code,
                        message: message.clone(),
                    },
                    _ => Error { code: 0, message: String::new() },
                };
                rt.release_record(h);
                Err(err)
            },
        }
    }

    /// A fresh status object carrying a failure; what a fallible native
    /// call allocates on its error path.
    fn make_status(&self, rt: &mut NativeRuntime, code: u32, message: String) -> (s: StatusPtr)
        requires
            old(rt).wf(),
        ensures
            final(rt).wf(),
            final(rt).same_config(*old(rt)),
            s.0 matches Some(h) && h == old(rt).records.len(),
            final(rt).records@ == old(rt).records@.push(
                Record { payload: Payload::Status { code, message }, released: false },
            ),
            final(rt).release_log == old(rt).release_log,
    {
        let h = rt.alloc_record(Payload::Status { code, message });
        StatusPtr(Some(h))
    }

    /// Creates the runtime context handle.
    pub fn create_env(&self, rt: &mut NativeRuntime) -> (r: Result<usize, Error>)
        requires
            old(rt).wf(),
        ensures
            final(rt).wf(),
            final(rt).same_config(*old(rt)),
            r is Ok,
            r matches Ok(h) ==> {
                &&& h == old(rt).records.len()
                &&& final(rt).records@ == old(rt).records@.push(
                    Record { payload: Payload::Env, released: false },
                )
                &&& final(rt).release_log == old(rt).release_log
            },
    {
        Ok(rt.alloc_record(Payload::Env))
    }

    /// Releases the runtime context handle.
    pub fn release_env(&self, rt: &mut NativeRuntime, h: usize)
        requires
            old(rt).wf(),
            old(rt).live(h as int),
            old(rt).records[h as int].payload is Env,
        ensures
            final(rt).wf(),
            final(rt).same_config(*old(rt)),
            final(rt).records@ == old(rt).records@.update(
                h as int,
                Record { payload: old(rt).records@[h as int].payload, released: true },
            ),
            final(rt).release_log@ == old(rt).release_log@.push(h),
    {
        rt.release_record(h);
    }

    /// Creates the host-memory descriptor handle.
    pub fn create_cpu_memory_info(&self, rt: &mut NativeRuntime) -> (r: Result<usize, Error>)
        requires
            old(rt).wf(),
        ensures
            final(rt).wf(),
            final(rt).same_config(*old(rt)),
            r is Ok,
            r matches Ok(h) ==> {
                &&& h == old(rt).records.len()
                &&& final(rt).records@ == old(rt).records@.push(
                    Record { payload: Payload::MemoryInfo, released: false },
                )
                &&& final(rt).release_log == old(rt).release_log
            },
    {
        Ok(rt.alloc_record(Payload::MemoryInfo))
    }

    /// Releases the memory descriptor handle.
    pub fn release_memory_info(&self, rt: &mut NativeRuntime, h: usize)
        requires
            old(rt).wf(),
            old(rt).live(h as int),
            old(rt).records[h as int].payload is MemoryInfo,
        ensures
            final(rt).wf(),
            final(rt).same_config(*old(rt)),
            final(rt).records@ == old(rt).records@.update(
                h as int,
                Record { payload: old(rt).records@[h as int].payload, released: true },
            ),
            final(rt).release_log@ == old(rt).release_log@.push(h),
    {
        rt.release_record(h);
    }

    /// Borrows the runtime-owned default allocator; nothing is allocated
    /// and nothing must be released.
    pub fn get_allocator_with_default_options(&self, rt: &NativeRuntime) -> (r: Result<
        AllocatorHandle,
        Error,
    >)
        requires
            rt.wf(),
        ensures
            r is Ok,
    {
        Ok(AllocatorHandle { _private: () })
    }

    /// Opens a session for the model installed behind the path bytes.
    /// Fails - through a status object, released exactly once - where no
    /// model is installed there or the model refuses to open.
    pub fn create_session(&self, rt: &mut NativeRuntime, env_h: usize, model_path: &[u8]) -> (r:
        Result<usize, Error>)
        requires
            old(rt).wf(),
            old(rt).live(env_h as int),
            old(rt).records[env_h as int].payload is Env,
        ensures
            final(rt).wf(),
            final(rt).same_config(*old(rt)),
            final(rt).keeps_records_of(*old(rt)),
            r is Ok <==> (old(rt).has_model(model_path@) && !old(rt).model_def_of(
                model_path@,
            ).open_fails),
            r matches Ok(h) ==> {
                &&& h == old(rt).records.len()
                &&& final(rt).records.len() == old(rt).records.len() + 1
                &&& final(rt).live(h as int)
                &&& final(rt).records[h as int].payload is Session
                &&& final(rt).def_of_handle(h as int) == old(rt).model_def_of(model_path@)
                &&& final(rt).release_log == old(rt).release_log
            },
            r is Err ==> final(rt).same_live(*old(rt)),
    {
        match rt.find_model(model_path) {
            Some(m) => {
                if !rt.models[m].1.open_fails {
                    let h = rt.alloc_record(Payload::Session { model: m });
                    Ok(h)
                } else {
                    let s = self.make_status(rt, 2, "the model refused to open".to_owned());
                    match self.consume_status(rt, s) {
                        Err(e) => Err(e),
                        Ok(_) => vstd::pervasive::unreached(),
                    }
                }
            },
            None => {
                let s = self.make_status(rt, 1, "no model at this path".to_owned());
                match self.consume_status(rt, s) {
                    Err(e) => Err(e),
                    Ok(_) => vstd::pervasive::unreached(),
                }
            },
        }
    }

    /// Releases a session handle.
    pub fn release_session(&self, rt: &mut NativeRuntime, h: usize)
        requires
            old(rt).wf(),
            old(rt).live(h as int),
            old(rt).records[h as int].payload is Session,
        ensures
            final(rt).wf(),
            final(rt).same_config(*old(rt)),
            final(rt).records@ == old(rt).records@.update(
                h as int,
                Record { payload: old(rt).records@[h as int].payload, released: true },
            ),
            final(rt).release_log@ == old(rt).release_log@.push(h),
    {
        rt.release_record(h);
    }

    /// How many outputs the loaded model declares.
    pub fn session_get_output_count(&self, rt: &NativeRuntime, sess_h: usize) -> (r: Result<
        usize,
        Error,
    >)
        requires
            rt.wf(),
            rt.live(sess_h as int),
            rt.records[sess_h as int].payload is Session,
        ensures
            r is Ok,
            r matches Ok(n) ==> n == rt.def_of_handle(sess_h as int).output_names.len(),
    {
        let m = match &rt.records[sess_h].payload {
            Payload::Session { model } => *model,
            _ => vstd::pervasive::unreached(),
        };
        Ok(rt.models[m].1.output_names.len())
    }

    /// Copies one declared output name into a fresh allocator-owned buffer,
    /// which the caller must free through the allocator exactly once.
    pub fn session_get_output_name(
        &self,
        rt: &mut NativeRuntime,
        sess_h: usize,
        index: usize,
        _alloc: AllocatorHandle,
    ) -> (r: Result<usize, Error>)
        requires
            old(rt).wf(),
            old(rt).live(sess_h as int),
            old(rt).records[sess_h as int].payload is Session,
        ensures
            final(rt).wf(),
            final(rt).same_config(*old(rt)),
            final(rt).keeps_records_of(*old(rt)),
            r is Ok <==> {
                &&& index < old(rt).def_of_handle(sess_h as int).output_names.len()
                &&& old(rt).def_of_handle(sess_h as int).name_fail_at != Some(index)
            },
            r matches Ok(h) ==> {
                &&& h == old(rt).records.len()
                &&& final(rt).records@ == old(rt).records@.push(
                    Record {
                        payload: Payload::NameBuf {
                            name: old(rt).def_of_handle(sess_h as int).output_names[index as int],
                        },
                        released: false,
                    },
                )
                &&& final(rt).release_log == old(rt).release_log
            },
            r is Err ==> final(rt).same_live(*old(rt)),
    {
        let m = match &rt.records[sess_h].payload {
            Payload::Session { model } => *model,
            _ => vstd::pervasive::unreached(),
        };
        let fail = match rt.models[m].1.name_fail_at {
            Some(i) => i == index,
            None => false,
        };
        if index < rt.models[m].1.output_names.len() && !fail {
            let name = rt.models[m].1.output_names[index].clone();
            let h = rt.alloc_record(Payload::NameBuf { name });
            Ok(h)
        } else {
            let s = self.make_status(rt, 3, "output name enumeration failed".to_owned());
            match self.consume_status(rt, s) {
                Err(e) => Err(e),
                Ok(_) => vstd::pervasive::unreached(),
            }
        }
    }

    /// Reads an allocator-owned name buffer into owned text; what walking
    /// the returned null-terminated buffer yields.
    pub fn namebuf_to_string(&self, rt: &NativeRuntime, h: usize) -> (r: String)
        requires
            rt.wf(),
            rt.live(h as int),
            rt.records[h as int].payload is NameBuf,
        ensures
            rt.records[h as int].payload matches Payload::NameBuf { name } ==> r == name,
    {
        match &rt.records[h].payload {
            Payload::NameBuf { name } => name.clone(),
            _ => vstd::pervasive::unreached(),
        }
    }

    /// Wraps caller-supplied elements and shape into a fresh tensor value
    /// without taking ownership of the caller's buffer.
    pub fn create_tensor_with_data_as_ort_value(
        &self,
        rt: &mut NativeRuntime,
        mem_h: usize,
        data: &[Float32],
        shape: &[usize],
        elem: u32,
    ) -> (r: Result<usize, Error>)
        requires
            old(rt).wf(),
            old(rt).live(mem_h as int),
            old(rt).records[mem_h as int].payload is MemoryInfo,
        ensures
            final(rt).wf(),
            final(rt).same_config(*old(rt)),
            final(rt).keeps_records_of(*old(rt)),
            r is Ok,
            r matches Ok(h) ==> {
                &&& h == old(rt).records.len()
                &&& final(rt).records.len() == old(rt).records.len() + 1
                &&& final(rt).live(h as int)
                &&& final(rt).records[h as int].payload is Value
                &&& final(rt).value_elem_of(h as int) == elem
                &&& final(rt).value_shape_of(h as int) == shape@
                &&& final(rt).value_data_of(h as int) == data@
                &&& final(rt).release_log == old(rt).release_log
            },
    {
        let data_copy = vstd::slice::slice_to_vec(data);
        let shape_copy = vstd::slice::slice_to_vec(shape);
        let h = rt.alloc_record(
            Payload::Value { elem, shape: shape_copy, data: data_copy },
        );
        Ok(h)
    }

    /// Releases a tensor value handle; the buffer it exposed is invalid
    /// afterwards.
    pub fn release_value(&self, rt: &mut NativeRuntime, h: usize)
        requires
            old(rt).wf(),
            old(rt).live(h as int),
            old(rt).records[h as int].payload is Value,
        ensures
            final(rt).wf(),
            final(rt).same_config(*old(rt)),
            final(rt).records@ == old(rt).records@.update(
                h as int,
                Record { payload: old(rt).records@[h as int].payload, released: true },
            ),
            final(rt).release_log@ == old(rt).release_log@.push(h),
    {
        rt.release_record(h);
    }

    /// Queries the shape/type descriptor of a live tensor value; the
    /// descriptor is itself a handle to release.
    pub fn get_tensor_type_and_shape(&self, rt: &mut NativeRuntime, value_h: usize) -> (r: Result<
        usize,
        Error,
    >)
        requires
            old(rt).wf(),
            old(rt).live(value_h as int),
            old(rt).records[value_h as int].payload is Value,
        ensures
            final(rt).wf(),
            final(rt).same_config(*old(rt)),
            final(rt).keeps_records_of(*old(rt)),
            r is Ok,
            r matches Ok(h) ==> {
                &&& h == old(rt).records.len()
                &&& final(rt).records.len() == old(rt).records.len() + 1
                &&& final(rt).live(h as int)
                &&& final(rt).records[h as int].payload matches Payload::ShapeInfo { elem, dims }
                    && elem == old(rt).value_elem_of(value_h as int) && dims@ == old(rt)
                    .value_shape_of(value_h as int)
                &&& final(rt).release_log == old(rt).release_log
            },
    {
        let (elem, dims) = match &rt.records[value_h].payload {
            Payload::Value { elem, shape, .. } => (*elem, vstd::slice::slice_to_vec(
                shape.as_slice(),
            )),
            _ => vstd::pervasive::unreached(),
        };
        let h = rt.alloc_record(Payload::ShapeInfo { elem, dims });
        Ok(h)
    }

    /// The element-type tag a shape descriptor reports.
    pub fn get_tensor_element_type(&self, rt: &NativeRuntime, info_h: usize) -> (r: Result<
        u32,
        Error,
    >)
        requires
            rt.wf(),
            rt.live(info_h as int),
            rt.records[info_h as int].payload is ShapeInfo,
        ensures
            r is Ok,
            r matches Ok(elem) ==> (rt.records[info_h as int].payload matches Payload::ShapeInfo {
                elem: e,
                ..
            } && elem == e),
    {
        match &rt.records[info_h].payload {
            Payload::ShapeInfo { elem, .. } => Ok(*elem),
            _ => vstd::pervasive::unreached(),
        }
    }

    /// How many dimensions a shape descriptor reports.
    pub fn get_dimensions_count(&self, rt: &NativeRuntime, info_h: usize) -> (r: Result<
        usize,
        Error,
    >)
        requires
            rt.wf(),
            rt.live(info_h as int),
            rt.records[info_h as int].payload is ShapeInfo,
        ensures
            r is Ok,
            r matches Ok(n) ==> (rt.records[info_h as int].payload matches Payload::ShapeInfo {
                dims,
                ..
            } && n == dims.len()),
    {
        match &rt.records[info_h].payload {
            Payload::ShapeInfo { dims, .. } => Ok(dims.len()),
            _ => vstd::pervasive::unreached(),
        }
    }

    /// Copies the dimension sizes a shape descriptor reports into a buffer
    /// of exactly the reported dimension count.
    pub fn get_dimensions(&self, rt: &NativeRuntime, info_h: usize, count: usize) -> (r: Result<
        Vec<usize>,
        Error,
    >)
        requires
            rt.wf(),
            rt.live(info_h as int),
            rt.records[info_h as int].payload matches Payload::ShapeInfo { dims, .. } && count
                == dims.len(),
        ensures
            r is Ok,
            r matches Ok(v) ==> (rt.records[info_h as int].payload matches Payload::ShapeInfo {
                dims,
                ..
            } && v@ == dims@),
    {
        match &rt.records[info_h].payload {
            Payload::ShapeInfo { dims, .. } => Ok(vstd::slice::slice_to_vec(dims.as_slice())),
            _ => vstd::pervasive::unreached(),
        }
    }

    /// Releases a shape descriptor handle.
    pub fn release_tensor_type_and_shape_info(&self, rt: &mut NativeRuntime, h: usize)
        requires
            old(rt).wf(),
            old(rt).live(h as int),
            old(rt).records[h as int].payload is ShapeInfo,
        ensures
            final(rt).wf(),
            final(rt).same_config(*old(rt)),
            final(rt).records@ == old(rt).records@.update(
                h as int,
                Record { payload: old(rt).records@[h as int].payload, released: true },
            ),
            final(rt).release_log@ == old(rt).release_log@.push(h),
    {
        rt.release_record(h);
    }

    /// Borrows the element buffer a live tensor value exposes; the borrow
    /// is only valid while the value handle is.
    pub fn get_tensor_mutable_data<'a>(&self, rt: &'a NativeRuntime, value_h: usize) -> (r: &'a [Float32])
        requires
            rt.wf(),
            rt.live(value_h as int),
            rt.records[value_h as int].payload is Value,
        ensures
            r@ == rt.value_data_of(value_h as int),
    {
        match &rt.records[value_h].payload {
            Payload::Value { data, .. } => data.as_slice(),
            _ => vstd::pervasive::unreached(),
        }
    }

    /// Executes the loaded model once over the named input values,
    /// materialising one fresh output value per requested output name.
    /// Fails - through a status object, released exactly once - where the
    /// model refuses to run, a requested name is not declared, or the input
    /// does not fit the model's operation.
    pub fn run(
        &self,
        rt: &mut NativeRuntime,
        sess_h: usize,
        input_names: &Vec<Vec<u8>>,
        inputs: &Vec<usize>,
        output_names: &Vec<Vec<u8>>,
    ) -> (r: Result<Vec<usize>, Error>)
        requires
            old(rt).wf(),
            old(rt).live(sess_h as int),
            old(rt).records[sess_h as int].payload is Session,
            input_names.len() == inputs.len(),
            forall|i: int|
                0 <= i < inputs.len() ==> old(rt).live(#[trigger] inputs[i] as int) && old(
                    rt,
                ).records[inputs[i] as int].payload is Value,
        ensures
            final(rt).wf(),
            final(rt).same_config(*old(rt)),
            final(rt).keeps_records_of(*old(rt)),
            r is Ok <==> (a_run_ok(*old(rt), sess_h as int, inputs@) && names_all_declared(
                old(rt).def_of_handle(sess_h as int),
                output_names@,
            )),
            r matches Ok(vs) ==> {
                let in_shape = old(rt).value_shape_of(inputs@[0] as int);
                let in_data = old(rt).value_data_of(inputs@[0] as int);
                &&& vs.len() == output_names.len()
                &&& final(rt).records.len() == old(rt).records.len() + vs.len()
                &&& forall|i: int| 0 <= i < vs.len() ==> #[trigger] vs[i] == old(rt).records.len() + i
                &&& forall|i: int|
                    0 <= i < vs.len() ==> {
                        &&& final(rt).live(#[trigger] vs[i] as int)
                        &&& final(rt).records[vs[i] as int].payload is Value
                        &&& final(rt).value_elem_of(vs[i] as int) == ELEM_F32
                        &&& final(rt).value_shape_of(vs[i] as int) == up_shape(in_shape)
                        &&& final(rt).value_data_of(vs[i] as int) == upsample2_data(
                            in_data,
                            in_shape,
                        )
                    }
                &&& final(rt).release_log == old(rt).release_log
            },
            r is Err ==> final(rt).same_live(*old(rt)),
    {
        let m = match &rt.records[sess_h].payload {
            Payload::Session { model } => *model,
            _ => vstd::pervasive::unreached(),
        };
        let mut j: usize = 0;
        let mut all_declared = true;
        while j < output_names.len()
            invariant
                0 <= j <= output_names.len(),
                rt.wf(),
                m < rt.models.len(),
                rt.models[m as int].1 == old(rt).def_of_handle(sess_h as int),
                all_declared == forall|i: int|
                    0 <= i < j ==> name_declared_in(
                        old(rt).def_of_handle(sess_h as int),
                        (#[trigger] output_names@[i])@,
                    ),
            decreases output_names.len() - j,
        {
            if !name_is_declared(&rt.models[m].1, output_names[j].as_slice()) {
                all_declared = false;
                proof {
                    assert(!name_declared_in(
                        old(rt).def_of_handle(sess_h as int),
                        output_names@[j as int]@,
                    ));
                }
                j = output_names.len();
            } else {
                j += 1;
            }
        }
        if !all_declared {
            let s = self.make_status(rt, 4, "a requested output is not declared".to_owned());
            return match self.consume_status(rt, s) {
                Err(e) => Err(e),
                Ok(_) => vstd::pervasive::unreached(),
            };
        }
        if rt.models[m].1.run_fails {
            let s = self.make_status(rt, 5, "the model refused to run".to_owned());
            return match self.consume_status(rt, s) {
                Err(e) => Err(e),
                Ok(_) => vstd::pervasive::unreached(),
            };
        }
        if inputs.len() != 1 {
            let s = self.make_status(rt, 6, "the model takes exactly one input".to_owned());
            return match self.consume_status(rt, s) {
                Err(e) => Err(e),
                Ok(_) => vstd::pervasive::unreached(),
            };
        }
        let (elem, in_shape, in_data) = match &rt.records[inputs[0]].payload {
            Payload::Value { elem, shape, data } => (
                *elem,
                vstd::slice::slice_to_vec(shape.as_slice()),
                vstd::slice::slice_to_vec(data.as_slice()),
            ),
            _ => vstd::pervasive::unreached(),
        };
        if elem != ELEM_F32 {
            let s = self.make_status(rt, 7, "unsupported element type".to_owned());
            return match self.consume_status(rt, s) {
                Err(e) => Err(e),
                Ok(_) => vstd::pervasive::unreached(),
            };
        }
        if apply_upsample2(&in_data, &in_shape).is_none() {
            let s = self.make_status(rt, 8, "the input does not fit the model".to_owned());
            return match self.consume_status(rt, s) {
                Err(e) => Err(e),
                Ok(_) => vstd::pervasive::unreached(),
            };
        }
        let mut out: Vec<usize> = Vec::new();
        let mut k: usize = 0;
        while k < output_names.len()
            invariant
                0 <= k <= output_names.len(),
                out.len() == k,
                inputs@.len() == 1,
                rt.wf(),
                rt.same_config(*old(rt)),
                rt.keeps_records_of(*old(rt)),
                rt.release_log == old(rt).release_log,
                rt.records.len() == old(rt).records.len() + k,
                in_shape@ == old(rt).value_shape_of(inputs@[0] as int),
                in_data@ == old(rt).value_data_of(inputs@[0] as int),
                up_ok(in_shape@, in_data@.len() as int),
                forall|i: int| 0 <= i < k ==> #[trigger] out[i] == old(rt).records.len() + i,
                forall|i: int|
                    0 <= i < k ==> {
                        &&& rt.live(#[trigger] out[i] as int)
                        &&& rt.records[out[i] as int].payload is Value
                        &&& rt.value_elem_of(out[i] as int) == ELEM_F32
                        &&& rt.value_shape_of(out[i] as int) == up_shape(in_shape@)
                        &&& rt.value_data_of(out[i] as int) == upsample2_data(
                            in_data@,
                            in_shape@,
                        )
                    },
            decreases output_names.len() - k,
        {
            match apply_upsample2(&in_data, &in_shape) {
                Some(computed) => {
                    let h = rt.alloc_record(
                        Payload::Value { elem: ELEM_F32, shape: computed.0, data: computed.1 },
                    );
                    out.push(h);
                },
                None => {
                    vstd::pervasive::unreached()
                },
            }
            k += 1;
        }
        Ok(out)
    }

    /// Hands an allocator-owned name buffer back to the allocator.
    pub fn allocator_free(&self, rt: &mut NativeRuntime, _alloc: AllocatorHandle, h: usize) -> (r:
        Result<(), Error>)
        requires
            old(rt).wf(),
            old(rt).live(h as int),
            old(rt).records[h as int].payload is NameBuf,
        ensures
            final(rt).wf(),
            final(rt).same_config(*old(rt)),
            r is Ok,
            final(rt).records@ == old(rt).records@.update(
                h as int,
                Record { payload: old(rt).records@[h as int].payload, released: true },
            ),
            final(rt).release_log@ == old(rt).release_log@.push(h),
    {
        rt.release_record(h);
        Ok(())
    }
}

/// Element types this layer can read out of a tensor value.
pub trait DataType {
    /// The tag this element type is known under in contracts.
    spec fn spec_element_data_type() -> u32;

    /// The element-type tag the native ABI uses for this type.
    fn tensor_element_data_type() -> (t: u32)
        ensures
            t == Self::spec_element_data_type(),
    ;
}

impl DataType for Float32 {
    open spec fn spec_element_data_type() -> u32 {
        ELEM_F32
    }

    fn tensor_element_data_type() -> (t: u32) {
        ELEM_F32
    }
}

/// Owner of the memory-descriptor handle; released before the runtime
/// context it describes memory for.
pub struct MemoryInfo {
    pub api: API,
    pub inner: usize,
}

impl MemoryInfo {
    /// The wrapper owns a live memory-descriptor handle.
    pub open spec fn wf(self, rt: NativeRuntime) -> bool {
        &&& rt.live(self.inner as int)
        &&& rt.records[self.inner as int].payload is MemoryInfo
    }
}

/// Owner of the runtime context handle and of the default memory
/// descriptor; must outlive every session and tensor value created from it.
pub struct Environment {
    pub api: API,
    pub memory_info: MemoryInfo,
    pub inner: usize,
}

/// The conditions under which opening a session behind these path bytes
/// succeeds: the path is encodable, a model is installed there, it opens,
/// and every declared output name can be enumerated.
pub open spec fn session_open_ok(rt: NativeRuntime, path_bytes: Seq<u8>) -> bool {
    &&& !path_bytes.contains(0u8)
    &&& rt.has_model(path_bytes)
    &&& !rt.model_def_of(path_bytes).open_fails
    &&& match rt.model_def_of(path_bytes).name_fail_at {
        Some(i) => i >= rt.model_def_of(path_bytes).output_names.len(),
        None => true,
    }
}

impl Environment {
    /// The wrapper owns a live context handle and a live memory descriptor.
    pub open spec fn wf(self, rt: NativeRuntime) -> bool {
        &&& rt.live(self.inner as int)
        &&& rt.records[self.inner as int].payload is Env
        &&& self.memory_info.wf(rt)
        &&& self.memory_info.inner != self.inner
    }

    /// Creates the process-wide runtime context: the API table, the default
    /// host-memory descriptor, then the context handle.  Fails exactly on a
    /// runtime of an unsupported version, in which case nothing was
    /// allocated.
    pub fn new(rt: &mut NativeRuntime) -> (r: Result<Environment, NewEnvironmentError>)
        requires
            old(rt).wf(),
        ensures
            final(rt).wf(),
            final(rt).same_config(*old(rt)),
            final(rt).keeps_records_of(*old(rt)),
            r is Ok <==> old(rt).api_version == ORT_API_VERSION,
            r matches Ok(env) ==> {
                &&& env.wf(*final(rt))
                &&& env.memory_info.inner == old(rt).records.len()
                &&& env.inner == old(rt).records.len() + 1
                &&& final(rt).records.len() == old(rt).records.len() + 2
                &&& final(rt).release_log == old(rt).release_log
                &&& forall|h: int|
                    final(rt).live(h) <==> (#[trigger] old(rt).live(h) || h == env.memory_info.inner
                        || h == env.inner)
            },
            r is Err ==> *final(rt) == *old(rt),
    {
        let api = match API::new(rt) {
            Ok(api) => api,
            Err(_) => {
                return Err(NewEnvironmentError::UnsupportedAPIVersion);
            },
        };
        let mem_h = match api.create_cpu_memory_info(rt) {
            Ok(h) => h,
            Err(e) => {
                return Err(NewEnvironmentError::Other(e));
            },
        };
        let env_h = match api.create_env(rt) {
            Ok(h) => h,
            Err(e) => {
                return Err(NewEnvironmentError::Other(e));
            },
        };
        Ok(Environment { api, memory_info: MemoryInfo { api, inner: mem_h }, inner: env_h })
    }

    /// Tears the context down: the memory descriptor is released first,
    /// then the context handle it depends on - each exactly once.
    pub fn close(self, rt: &mut NativeRuntime)
        requires
            old(rt).wf(),
            self.wf(*old(rt)),
        ensures
            final(rt).wf(),
            final(rt).same_config(*old(rt)),
            final(rt).release_log@ == old(rt).release_log@.push(self.memory_info.inner).push(
                self.inner,
            ),
            forall|h: int|
                final(rt).live(h) <==> (#[trigger] old(rt).live(h) && h != self.memory_info.inner
                    && h != self.inner),
            final(rt).records.len() == old(rt).records.len(),
    {
        self.api.release_memory_info(rt, self.memory_info.inner);
        self.api.release_env(rt, self.inner);
    }

    /// Loads the model behind a path and captures its declared output names
    /// verbatim, in declaration order, before the session is handed out.
    ///
    /// A path with an embedded terminator byte fails fast, before any
    /// native call.  If any step after session creation fails, the
    /// just-created session handle is released before the error propagates:
    /// no half-initialised session is ever observable, and nothing leaks.
    pub fn new_session(&self, rt: &mut NativeRuntime, model_path: &str) -> (r: Result<
        Session,
        NewSessionError,
    >)
        requires
            old(rt).wf(),
            self.wf(*old(rt)),
        ensures
            final(rt).wf(),
            final(rt).same_config(*old(rt)),
            final(rt).keeps_records_of(*old(rt)),
            bytes_of(model_path@).contains(0u8) ==> (r matches Err(
                NewSessionError::MalformedModelPath,
            ) && *final(rt) == *old(rt)),
            r is Ok <==> session_open_ok(*old(rt), bytes_of(model_path@)),
            r matches Ok(sess) ==> {
                &&& sess.wf(*final(rt))
                &&& sess.env_inner == self.inner
                &&& sess.mem_inner == self.memory_info.inner
                &&& sess.inner == old(rt).records.len()
                &&& sess.output_names@ == old(rt).model_def_of(
                    bytes_of(model_path@),
                ).output_names@
                &&& forall|h: int|
                    final(rt).live(h) <==> (#[trigger] old(rt).live(h) || h == sess.inner)
            },
            r is Err ==> final(rt).same_live(*old(rt)),
    {
        if str_has_nul(model_path) {
            return Err(NewSessionError::MalformedModelPath);
        }
        let path_bytes = str_bytes(model_path);
        let allocator = match self.api.get_allocator_with_default_options(rt) {
            Ok(a) => a,
            Err(_) => vstd::pervasive::unreached(),
        };
        let sess_h = match self.api.create_session(rt, self.inner, path_bytes.as_slice()) {
            Ok(h) => h,
            Err(e) => {
                return Err(NewSessionError::Other(e));
            },
        };
        let count = match self.api.session_get_output_count(rt, sess_h) {
            Ok(n) => n,
            Err(_) => vstd::pervasive::unreached(),
        };
        let ghost def = old(rt).model_def_of(path_bytes@);
        let mut output_names: Vec<String> = Vec::new();
        let mut output_c_names: Vec<Vec<u8>> = Vec::new();
        let mut i: usize = 0;
        while i < count
            invariant
                0 <= i <= count,
                old(rt).wf(),
                self.wf(*old(rt)),
                rt.wf(),
                rt.same_config(*old(rt)),
                rt.keeps_records_of(*old(rt)),
                sess_h == old(rt).records.len(),
                rt.live(sess_h as int),
                rt.records[sess_h as int].payload is Session,
                rt.def_of_handle(sess_h as int) == def,
                def == old(rt).model_def_of(path_bytes@),
                old(rt).has_model(path_bytes@),
                !def.open_fails,
                path_bytes@ == bytes_of(model_path@),
                !path_bytes@.contains(0u8),
                count == def.output_names.len(),
                def.name_fail_at matches Some(f) ==> f >= i,
                output_names@ == def.output_names@.take(i as int),
                output_c_names.len() == i,
                forall|j: int|
                    0 <= j < i ==> (#[trigger] output_c_names[j])@ == bytes_of(
                        output_names[j]@,
                    ),
                forall|h: int| rt.live(h) <==> (#[trigger] old(rt).live(h) || h == sess_h),
            decreases count - i,
        {
            let name_h = match self.api.session_get_output_name(rt, sess_h, i, allocator) {
                Ok(h) => h,
                Err(e) => {
                    self.api.release_session(rt, sess_h);
                    return Err(NewSessionError::Other(e));
                },
            };
            let name = self.api.namebuf_to_string(rt, name_h);
            match self.api.allocator_free(rt, allocator, name_h) {
                Ok(_) => {},
                Err(_) => vstd::pervasive::unreached(),
            };
            output_c_names.push(str_bytes(name.as_str()));
            output_names.push(name);
            proof {
                assert(output_names@ =~= def.output_names@.take(i + 1));
            }
            i += 1;
        }
        proof {
            assert(def.output_names@.take(count as int) =~= def.output_names@);
        }
        Ok(
            Session {
                api: self.api,
                inner: sess_h,
                output_names,
                output_c_names,
                env_inner: self.inner,
                mem_inner: self.memory_info.inner,
            },
        )
    }

    /// Wraps caller data and shape into an input tensor view.  The caller's
    /// buffer is never copied or freed by the native layer; the view owns
    /// the value handle wrapping it.
    pub fn new_tensor(&self, rt: &mut NativeRuntime, data: &[Float32], shape: &[usize]) -> (r:
        Result<Tensor, Error>)
        requires
            old(rt).wf(),
            self.wf(*old(rt)),
        ensures
            final(rt).wf(),
            final(rt).same_config(*old(rt)),
            final(rt).keeps_records_of(*old(rt)),
            final(rt).release_log == old(rt).release_log,
            r is Ok,
            r matches Ok(t) ==> {
                &&& t.wf(*final(rt))
                &&& t.inner == old(rt).records.len()
                &&& t.data_type == ELEM_F32
                &&& t.shape@ == shape@
                &&& final(rt).value_data_of(t.inner as int) == data@
                &&& final(rt).records.len() == old(rt).records.len() + 1
                &&& forall|h: int|
                    final(rt).live(h) <==> (#[trigger] old(rt).live(h) || h == t.inner)
            },
    {
        let h = match self.api.create_tensor_with_data_as_ort_value(
            rt,
            self.memory_info.inner,
            data,
            shape,
            Float32::tensor_element_data_type(),
        ) {
            Ok(h) => h,
            Err(e) => {
                return Err(e);
            },
        };
        Ok(
            Tensor {
                api: self.api,
                inner: h,
                data_type: ELEM_F32,
                shape: vstd::slice::slice_to_vec(shape),
            },
        )
    }
}

/// One loaded model: the owned session handle, the output-name table
/// captured verbatim at load time, and non-owning references (as arena
/// handles) to the environment the session must not outlive.
pub struct Session {
    pub api: API,
    pub inner: usize,
    pub output_names: Vec<String>,
    pub output_c_names: Vec<Vec<u8>>,
    pub env_inner: usize,
    pub mem_inner: usize,
}

/// The value handles of an ordered input list.
pub open spec fn handles_of(inputs: Seq<(String, Tensor)>) -> Seq<usize> {
    inputs.map_values(|p: (String, Tensor)| p.1.inner)
}

/// Some input name holds an embedded terminator byte.
pub open spec fn some_name_malformed(inputs: Seq<(String, Tensor)>) -> bool {
    exists|i: int| 0 <= i < inputs.len() && bytes_of((#[trigger] inputs[i].0)@).contains(0u8)
}

impl Session {
    /// The session handle and the borrowed environment handles are live,
    /// and the two name tables are parallel images of the model's declared
    /// output names.
    pub open spec fn wf(self, rt: NativeRuntime) -> bool {
        &&& rt.live(self.inner as int)
        &&& rt.records[self.inner as int].payload is Session
        &&& rt.live(self.env_inner as int)
        &&& rt.records[self.env_inner as int].payload is Env
        &&& rt.live(self.mem_inner as int)
        &&& rt.records[self.mem_inner as int].payload is MemoryInfo
        &&& self.output_names@ == rt.def_of_handle(self.inner as int).output_names@
        &&& self.output_c_names.len() == self.output_names.len()
        &&& forall|i: int|
            0 <= i < self.output_names.len() ==> (#[trigger] self.output_c_names[i])@ == bytes_of(
                self.output_names[i]@,
            )
    }

    /// The captured output names, in declaration order; fixed at load time.
    pub fn output_names(&self) -> (r: &Vec<String>)
        ensures
            r@ == self.output_names@,
    {
        &self.output_names
    }

    /// Wraps caller data and shape into an input tensor view, through the
    /// memory descriptor of the environment this session borrows.
    pub fn new_input_tensor(&self, rt: &mut NativeRuntime, data: &[Float32], shape: &[usize]) -> (r:
        Result<Tensor, Error>)
        requires
            old(rt).wf(),
            self.wf(*old(rt)),
        ensures
            final(rt).wf(),
            final(rt).same_config(*old(rt)),
            final(rt).keeps_records_of(*old(rt)),
            final(rt).release_log == old(rt).release_log,
            r is Ok,
            r matches Ok(t) ==> {
                &&& t.wf(*final(rt))
                &&& t.inner == old(rt).records.len()
                &&& t.data_type == ELEM_F32
                &&& t.shape@ == shape@
                &&& final(rt).value_data_of(t.inner as int) == data@
                &&& final(rt).records.len() == old(rt).records.len() + 1
                &&& forall|h: int|
                    final(rt).live(h) <==> (#[trigger] old(rt).live(h) || h == t.inner)
            },
    {
        let h = match self.api.create_tensor_with_data_as_ort_value(
            rt,
            self.mem_inner,
            data,
            shape,
            Float32::tensor_element_data_type(),
        ) {
            Ok(h) => h,
            Err(e) => {
                return Err(e);
            },
        };
        Ok(
            Tensor {
                api: self.api,
                inner: h,
                data_type: ELEM_F32,
                shape: vstd::slice::slice_to_vec(shape),
            },
        )
    }

    /// Releases the owned session handle, exactly once.  The environment is
    /// not touched: the session only borrowed it.
    pub fn close(self, rt: &mut NativeRuntime)
        requires
            old(rt).wf(),
            self.wf(*old(rt)),
        ensures
            final(rt).wf(),
            final(rt).same_config(*old(rt)),
            final(rt).release_log@ == old(rt).release_log@.push(self.inner),
            forall|h: int|
                final(rt).live(h) <==> (#[trigger] old(rt).live(h) && h != self.inner),
            final(rt).records.len() == old(rt).records.len(),
            forall|h: int|
                0 <= h < old(rt).records.len() && h != self.inner ==> final(rt).records[h]
                    == #[trigger] old(rt).records[h],
    {
        self.api.release_session(rt, self.inner);
    }

    /// Runs the loaded model over the named inputs, requesting exactly the
    /// captured output-name table, and wraps each returned value handle
    /// into an owned output view.
    ///
    /// An input name with an embedded terminator byte fails fast, before
    /// any native call.  A native failure propagates with no output view
    /// constructed or leaked.
    pub fn run(&self, rt: &mut NativeRuntime, inputs: &Vec<(String, Tensor)>) -> (r: Result<
        Vec<(String, Tensor)>,
        SessionRunError,
    >)
        requires
            old(rt).wf(),
            self.wf(*old(rt)),
            forall|i: int| 0 <= i < inputs.len() ==> (#[trigger] inputs[i].1).wf(*old(rt)),
        ensures
            final(rt).wf(),
            final(rt).same_config(*old(rt)),
            final(rt).keeps_records_of(*old(rt)),
            some_name_malformed(inputs@) ==> (r matches Err(SessionRunError::MalformedInputName)
                && *final(rt) == *old(rt)),
            r is Ok <==> (!some_name_malformed(inputs@) && a_run_ok(
                *old(rt),
                self.inner as int,
                handles_of(inputs@),
            )),
            r matches Ok(outs) ==> {
                let in_shape = old(rt).value_shape_of(inputs@[0].1.inner as int);
                let in_data = old(rt).value_data_of(inputs@[0].1.inner as int);
                &&& outs.len() == self.output_names.len()
                &&& forall|i: int|
                    0 <= i < outs.len() ==> (#[trigger] outs[i]).0 == self.output_names[i]
                &&& forall|i: int|
                    0 <= i < outs.len() ==> {
                        let t = (#[trigger] outs[i]).1;
                        &&& t.wf(*final(rt))
                        &&& t.is_full(*final(rt))
                        &&& t.data_type == ELEM_F32
                        &&& t.shape@ == up_shape(in_shape)
                        &&& final(rt).value_data_of(t.inner as int) == upsample2_data(
                            in_data,
                            in_shape,
                        )
                        &&& t.inner == old(rt).records.len() + i
                    }
                &&& forall|h: int|
                    final(rt).live(h) <==> (#[trigger] old(rt).live(h) || (old(rt).records.len()
                        <= h < old(rt).records.len() + outs.len()))
            },
            r is Err ==> final(rt).same_live(*old(rt)),
    {
        let mut c_names: Vec<Vec<u8>> = Vec::new();
        let mut i: usize = 0;
        while i < inputs.len()
            invariant
                0 <= i <= inputs.len(),
                c_names.len() == i,
                *rt == *old(rt),
                old(rt).wf(),
                forall|j: int| 0 <= j < i ==> !bytes_of((#[trigger] inputs[j].0)@).contains(0u8),
                forall|j: int|
                    0 <= j < i ==> (#[trigger] c_names[j])@ == bytes_of(inputs[j].0@),
            decreases inputs.len() - i,
        {
            if str_has_nul(inputs[i].0.as_str()) {
                return Err(SessionRunError::MalformedInputName);
            }
            c_names.push(str_bytes(inputs[i].0.as_str()));
            i += 1;
        }
        let mut handles: Vec<usize> = Vec::new();
        let mut j: usize = 0;
        while j < inputs.len()
            invariant
                0 <= j <= inputs.len(),
                handles.len() == j,
                *rt == *old(rt),
                forall|k: int| 0 <= k < j ==> #[trigger] handles[k] == inputs[k].1.inner,
            decreases inputs.len() - j,
        {
            handles.push(inputs[j].1.inner);
            j += 1;
        }
        assert(handles@ =~= handles_of(inputs@));
        proof {
            let def = old(rt).def_of_handle(self.inner as int);
            assert forall|i: int| 0 <= i < self.output_c_names@.len() implies name_declared_in(
                def,
                (#[trigger] self.output_c_names@[i])@,
            ) by {
                assert(self.output_c_names@[i]@ == bytes_of(def.output_names[i]@));
            }
        }
        let vs = match self.api.run(rt, self.inner, &c_names, &handles, &self.output_c_names) {
            Ok(vs) => vs,
            Err(e) => {
                return Err(SessionRunError::Other(e));
            },
        };
        let ghost rt_a = *rt;
        proof {
            // Every output view holds exactly as many elements as its shape
            // says.
            lemma_upsample2_len(
                old(rt).value_data_of(inputs@[0].1.inner as int),
                old(rt).value_shape_of(inputs@[0].1.inner as int),
            );
        }
        let mut outs: Vec<(String, Tensor)> = Vec::new();
        let mut k: usize = 0;
        while k < vs.len()
            invariant
                0 <= k <= vs.len(),
                outs.len() == k,
                vs.len() == self.output_names.len(),
                self.output_c_names.len() == self.output_names.len(),
                rt.wf(),
                rt.same_config(rt_a),
                rt.same_config(*old(rt)),
                rt.keeps_records_of(rt_a),
                rt_a.keeps_records_of(*old(rt)),
                forall|h: int| rt.live(h) <==> #[trigger] rt_a.live(h),
                forall|i: int| 0 <= i < vs.len() ==> #[trigger] vs[i] == old(rt).records.len() + i,
                forall|i: int|
                    0 <= i < vs.len() ==> {
                        &&& rt_a.live(#[trigger] vs[i] as int)
                        &&& rt_a.records[vs[i] as int].payload is Value
                        &&& rt_a.value_elem_of(vs[i] as int) == ELEM_F32
                        &&& rt_a.value_shape_of(vs[i] as int) == up_shape(
                            old(rt).value_shape_of(inputs@[0].1.inner as int),
                        )
                        &&& rt_a.value_data_of(vs[i] as int) == upsample2_data(
                            old(rt).value_data_of(inputs@[0].1.inner as int),
                            old(rt).value_shape_of(inputs@[0].1.inner as int),
                        )
                    },
                rt_a.records.len() == old(rt).records.len() + vs.len(),
                forall|i: int|
                    0 <= i < k ==> (#[trigger] outs[i]).0 == self.output_names[i],
                forall|i: int|
                    0 <= i < k ==> {
                        let t = (#[trigger] outs[i]).1;
                        &&& t.inner == vs[i]
                        &&& t.data_type == ELEM_F32
                        &&& t.shape@ == up_shape(
                            old(rt).value_shape_of(inputs@[0].1.inner as int),
                        )
                    },
            decreases vs.len() - k,
        {
            let value_h = vs[k];
            let info_h = match self.api.get_tensor_type_and_shape(rt, value_h) {
                Ok(h) => h,
                Err(_) => vstd::pervasive::unreached(),
            };
            let elem = match self.api.get_tensor_element_type(rt, info_h) {
                Ok(e) => e,
                Err(_) => vstd::pervasive::unreached(),
            };
            let dim_count = match self.api.get_dimensions_count(rt, info_h) {
                Ok(n) => n,
                Err(_) => vstd::pervasive::unreached(),
            };
            let dims = match self.api.get_dimensions(rt, info_h, dim_count) {
                Ok(d) => d,
                Err(_) => vstd::pervasive::unreached(),
            };
            self.api.release_tensor_type_and_shape_info(rt, info_h);
            outs.push(
                (
                    self.output_names[k].clone(),
                    Tensor { api: self.api, inner: value_h, data_type: elem, shape: dims },
                ),
            );
            k += 1;
        }
        proof {
            let base = old(rt).records.len() as int;
            assert forall|h: int| base <= h < base + vs@.len() implies rt.live(h) by {
                let i = h - base;
                assert(vs@[i] == base + i);
                assert(rt_a.live(vs@[i] as int));
            };
            assert forall|h: int| #[trigger] old(rt).live(h) implies rt.live(h) by {
                assert(rt_a.records[h] == old(rt).records[h]);
            };
            assert forall|h: int|
                #[trigger] rt.live(h) && !(base <= h < base + vs@.len()) implies old(rt).live(
                h,
            ) by {
                assert(rt_a.live(h));
                assert(h < rt_a.records.len());
                assert(h < base);
                assert(rt_a.records[h] == old(rt).records[h]);
            };
        }
        Ok(outs)
    }
}

/// A tensor view: a value handle, the element-type tag it was constructed
/// with, and its shape.  Reading elements is only valid while the value
/// handle is live; releasing the handle invalidates the buffer.
pub struct Tensor {
    pub api: API,
    pub inner: usize,
    pub data_type: u32,
    pub shape: Vec<usize>,
}

impl Tensor {
    /// The view owns a live value handle whose element type and shape are
    /// the cached ones.
    pub open spec fn wf(self, rt: NativeRuntime) -> bool {
        &&& rt.live(self.inner as int)
        &&& rt.records[self.inner as int].payload is Value
        &&& rt.value_elem_of(self.inner as int) == self.data_type
        &&& rt.value_shape_of(self.inner as int) == self.shape@
    }

    /// The view's buffer holds exactly as many elements as its shape says -
    /// what every runtime-produced output view guarantees.
    pub open spec fn is_full(self, rt: NativeRuntime) -> bool {
        rt.value_data_of(self.inner as int).len() == product_of(self.shape@)
    }

    /// The ordered dimension sizes.
    pub fn shape(&self) -> (r: &Vec<usize>)
        ensures
            r@ == self.shape@,
    {
        &self.shape
    }

    /// The elements, exactly when the stored element type is the requested
    /// one; reading a differently-typed tensor reports no data rather than
    /// reinterpreting bytes.
    pub fn as_slice<'a>(&self, rt: &'a NativeRuntime) -> (r: Option<&'a [Float32]>)
        requires
            rt.wf(),
            self.wf(*rt),
        ensures
            match r {
                Some(s) => self.data_type == ELEM_F32 && s@ == rt.value_data_of(self.inner as int),
                None => self.data_type != ELEM_F32,
            },
    {
        if Float32::tensor_element_data_type() == self.data_type {
            Some(self.api.get_tensor_mutable_data(rt, self.inner))
        } else {
            None
        }
    }

    /// Releases the owned value handle, exactly once.
    pub fn close(self, rt: &mut NativeRuntime)
        requires
            old(rt).wf(),
            self.wf(*old(rt)),
        ensures
            final(rt).wf(),
            final(rt).same_config(*old(rt)),
            final(rt).release_log@ == old(rt).release_log@.push(self.inner),
            forall|h: int|
                final(rt).live(h) <==> (#[trigger] old(rt).live(h) && h != self.inner),
            final(rt).records.len() == old(rt).records.len(),
            forall|h: int|
                0 <= h < old(rt).records.len() && h != self.inner ==> final(rt).records[h]
                    == #[trigger] old(rt).records[h],
    {
        self.api.release_value(rt, self.inner);
    }
}

} // verus!
