//! The feature-provider backend: an on-device model runtime driven through
//! plain functions that report failure by returning a null handle, and hand
//! results back as named lookups into a transient output-provider object.
//!
//! Every native call of this backend is a verified transition on the
//! [`NativeRuntime`] arena.  This layer adopts per-view ownership of each
//! output array handle, so the provider object itself is released as soon as
//! all named lookups are done, while each returned view independently owns
//! and releases the array it depends on.

use vstd::prelude::*;

verus! {

use crate::runtime::{
    bytes_eq, bytes_of, present_before, lemma_present_before_le, product_of, str_bytes,
    str_has_nul, up_ok, up_shape, upsample2_data, apply_upsample2, Float32, NativeRuntime,
    Payload, Record,
};

/// Why a model could not be loaded.
#[derive(Debug)]
pub enum NewMLModelError {
    MalformedPath,
    OpenError,
}

/// Why a prediction failed.
#[derive(Debug)]
pub enum PredictError {
    MalformedInputName,
    PredictError,
}

/// A caller-borrowed input tensor: the elements alias the caller's buffer
/// and are never copied or freed by this layer.
pub struct InputTensor<'a> {
    pub data: &'a [Float32],
    pub shape: &'a [usize],
}

/// Opens the model installed behind the path bytes, or returns no handle -
/// this backend reports failure by a null handle, never a status object.
pub fn open_coreml_model(rt: &mut NativeRuntime, path: &[u8]) -> (r: Option<usize>)
    requires
        old(rt).wf(),
    ensures
        final(rt).wf(),
        final(rt).same_config(*old(rt)),
        final(rt).keeps_records_of(*old(rt)),
        r is Some <==> (old(rt).has_model(path@) && !old(rt).model_def_of(path@).open_fails),
        r matches Some(h) ==> {
            &&& h == old(rt).records.len()
            &&& final(rt).records.len() == old(rt).records.len() + 1
            &&& final(rt).live(h as int)
            &&& final(rt).records[h as int].payload is Model
            &&& final(rt).def_of_handle(h as int) == old(rt).model_def_of(path@)
            &&& final(rt).release_log == old(rt).release_log
        },
        r is None ==> *final(rt) == *old(rt),
{
    match rt.find_model(path) {
        Some(m) => {
            if !rt.models[m].1.open_fails {
                let h = rt.alloc_record(Payload::Model { model: m });
                Some(h)
            } else {
                None
            }
        },
        None => None,
    }
}

/// How many outputs the loaded model declares.
pub fn mlmodel_output_count(rt: &NativeRuntime, model_h: usize) -> (n: usize)
    requires
        rt.wf(),
        rt.live(model_h as int),
        rt.records[model_h as int].payload is Model,
    ensures
        n == rt.def_of_handle(model_h as int).output_names.len(),
{
    let m = match &rt.records[model_h].payload {
        Payload::Model { model } => *model,
        _ => vstd::pervasive::unreached(),
    };
    rt.models[m].1.output_names.len()
}

/// Copies one declared output name into a fresh name object, which the
/// caller must release exactly once.
pub fn mlmodel_copy_output_name(rt: &mut NativeRuntime, model_h: usize, index: usize) -> (h: usize)
    requires
        old(rt).wf(),
        old(rt).live(model_h as int),
        old(rt).records[model_h as int].payload is Model,
        index < old(rt).def_of_handle(model_h as int).output_names.len(),
    ensures
        final(rt).wf(),
        final(rt).same_config(*old(rt)),
        h == old(rt).records.len(),
        final(rt).records@ == old(rt).records@.push(
            Record {
                payload: Payload::NameObj {
                    name: old(rt).def_of_handle(model_h as int).output_names[index as int],
                },
                released: false,
            },
        ),
        final(rt).release_log == old(rt).release_log,
{
    let m = match &rt.records[model_h].payload {
        Payload::Model { model } => *model,
        _ => vstd::pervasive::unreached(),
    };
    let name = rt.models[m].1.output_names[index].clone();
    rt.alloc_record(Payload::NameObj { name })
}

/// Reads a name object into owned text; what walking the object's UTF-8
/// buffer yields.
pub fn nsstring_to_string(rt: &NativeRuntime, h: usize) -> (r: String)
    requires
        rt.wf(),
        rt.live(h as int),
        rt.records[h as int].payload is NameObj,
    ensures
        rt.records[h as int].payload matches Payload::NameObj { name } ==> r == name,
{
    match &rt.records[h].payload {
        Payload::NameObj { name } => name.clone(),
        _ => vstd::pervasive::unreached(),
    }
}

/// Releases any object of this backend - model, name object, output
/// provider or output array - exactly once.
pub fn release_object(rt: &mut NativeRuntime, h: usize)
    requires
        old(rt).wf(),
        old(rt).live(h as int),
        old(rt).records[h as int].payload is Model || old(rt).records[h as int].payload is NameObj
            || old(rt).records[h as int].payload is Provider || old(
            rt,
        ).records[h as int].payload is MultiArray,
    ensures
        final(rt).wf(),
        final(rt).same_config(*old(rt)),
        final(rt).records@ == old(rt).records@.update(
            h as int,
            Record { payload: old(rt).records@[h as int].payload, released: true },
        ),
        final(rt).release_log@ == old(rt).release_log@.push(h),
{
    rt.release_record(h);
}

/// The conditions under which a prediction succeeds: the model does not
/// refuse, and exactly one input that fits its operation is fed.
pub open spec fn b_predict_ok(
    rt: NativeRuntime,
    model_h: int,
    datas: Seq<Vec<Float32>>,
    shapes: Seq<Vec<usize>>,
) -> bool {
    &&& !rt.def_of_handle(model_h).run_fails
    &&& datas.len() == 1
    &&& up_ok(shapes[0]@, datas[0]@.len() as int)
}

/// Executes the loaded model over the inputs.  On success the result is an
/// output-provider handle: one fresh output array per declared output the
/// model reports present, then the provider mapping each present name to
/// its array.  On failure no handle is returned and nothing was allocated.
pub fn mlmodel_predict(
    rt: &mut NativeRuntime,
    model_h: usize,
    input_names: &Vec<Vec<u8>>,
    input_datas: &Vec<Vec<Float32>>,
    input_shapes: &Vec<Vec<usize>>,
) -> (r: Option<usize>)
    requires
        old(rt).wf(),
        old(rt).live(model_h as int),
        old(rt).records[model_h as int].payload is Model,
        input_names.len() == input_datas.len(),
        input_shapes.len() == input_datas.len(),
    ensures
        final(rt).wf(),
        final(rt).same_config(*old(rt)),
        final(rt).keeps_records_of(*old(rt)),
        r is Some <==> b_predict_ok(*old(rt), model_h as int, input_datas@, input_shapes@),
        r matches Some(p) ==> {
            let def = old(rt).def_of_handle(model_h as int);
            let np = present_before(def, def.output_names.len() as int);
            let in_shape = input_shapes@[0]@;
            let in_data = input_datas@[0]@;
            &&& p == old(rt).records.len() + np
            &&& final(rt).records.len() == old(rt).records.len() + np + 1
            &&& final(rt).live(p as int)
            &&& final(rt).records[p as int].payload is Provider
            &&& final(rt).provider_entries_of(p as int).len() == np
            &&& forall|j: int|
                0 <= j < def.output_names.len() && #[trigger] def.outputs_present[j] ==> {
                    &&& final(rt).provider_entries_of(p as int)[present_before(def, j)].0@
                        == bytes_of(def.output_names[j]@)
                    &&& final(rt).provider_entries_of(p as int)[present_before(def, j)].1 == old(
                        rt,
                    ).records.len() + present_before(def, j)
                }
            &&& forall|j: int, e: int|
                0 <= j < def.output_names.len() && !(#[trigger] def.outputs_present[j]) && 0 <= e
                    < np ==> (#[trigger] final(rt).provider_entries_of(p as int)[e]).0@
                    != bytes_of(def.output_names[j]@)
            &&& forall|j: int, e: int|
                0 <= j < def.output_names.len() && (#[trigger] def.outputs_present[j]) && 0 <= e
                    < np && (#[trigger] final(rt).provider_entries_of(p as int)[e]).0@
                    == bytes_of(def.output_names[j]@) ==> e == present_before(def, j)
            &&& forall|e: int|
                0 <= e < np ==> {
                    &&& final(rt).live(old(rt).records.len() + e)
                    &&& (#[trigger] final(rt).records[old(rt).records.len() + e].payload matches
                        Payload::MultiArray { shape, data } && shape@ == up_shape(in_shape)
                        && data@ == upsample2_data(in_data, in_shape))
                }
            &&& final(rt).release_log == old(rt).release_log
        },
        r is None ==> *final(rt) == *old(rt),
{
    let m = match &rt.records[model_h].payload {
        Payload::Model { model } => *model,
        _ => vstd::pervasive::unreached(),
    };
    if rt.models[m].1.run_fails {
        return None;
    }
    if input_datas.len() != 1 {
        return None;
    }
    if apply_upsample2(&input_datas[0], &input_shapes[0]).is_none() {
        return None;
    }
    let ghost def = rt.def_of_handle(model_h as int);
    let count = rt.models[m].1.output_names.len();
    let mut entries: Vec<(Vec<u8>, usize)> = Vec::new();
    let mut j: usize = 0;
    proof {
        lemma_present_before_le(def, count as int);
    }
    while j < count
        invariant
            0 <= j <= count,
            input_datas@.len() == 1,
            input_shapes@.len() == 1,
            up_ok(input_shapes@[0]@, input_datas@[0]@.len() as int),
            rt.wf(),
            rt.same_config(*old(rt)),
            rt.keeps_records_of(*old(rt)),
            rt.release_log == old(rt).release_log,
            rt.live(model_h as int),
            rt.records[model_h as int].payload is Model,
            m < rt.models.len(),
            rt.models[m as int].1 == def,
            def == old(rt).def_of_handle(model_h as int),
            count == def.output_names.len(),
            def.wf(),
            entries.len() == present_before(def, j as int),
            rt.records.len() == old(rt).records.len() + entries.len(),
            forall|e: int|
                0 <= e < entries.len() ==> (#[trigger] entries[e]).1 == old(rt).records.len() + e,
            forall|i: int|
                0 <= i < j && #[trigger] def.outputs_present[i] ==> {
                    &&& entries[present_before(def, i)].0@ == bytes_of(def.output_names[i]@)
                    &&& entries[present_before(def, i)].1 == old(rt).records.len()
                        + present_before(def, i)
                },
            forall|e: int|
                0 <= e < entries.len() ==> {
                    &&& rt.live(old(rt).records.len() + e)
                    &&& (#[trigger] rt.records[old(rt).records.len() + e].payload matches
                        Payload::MultiArray { shape, data } && shape@ == up_shape(
                        input_shapes@[0]@,
                    ) && data@ == upsample2_data(input_datas@[0]@, input_shapes@[0]@))
                },
        decreases count - j,
    {
        proof {
            lemma_present_before_le(def, j as int);
        }
        if rt.models[m].1.outputs_present[j] {
            let name_bytes = str_bytes(rt.models[m].1.output_names[j].as_str());
            match apply_upsample2(&input_datas[0], &input_shapes[0]) {
                Some(computed) => {
                    proof {
                        crate::runtime::lemma_upsample2_len(input_datas@[0]@, input_shapes@[0]@);
                    }
                    let a = rt.alloc_record(
                        Payload::MultiArray { shape: computed.0, data: computed.1 },
                    );
                    entries.push((name_bytes, a));
                },
                None => {
                    vstd::pervasive::unreached()
                },
            }
        }
        proof {
            lemma_present_before_le(def, j as int);
            assert forall|i: int| 0 <= i < j + 1 && #[trigger] def.outputs_present[i] implies {
                &&& entries@[present_before(def, i)].0@ == bytes_of(def.output_names[i]@)
                &&& entries@[present_before(def, i)].1 == old(rt).records.len() + present_before(
                    def,
                    i,
                )
            } by {
                lemma_present_before_le(def, i);
                if i < j {
                    assert(present_before(def, i + 1) == present_before(def, i) + 1);
                }
            }
        }
        j += 1;
    }
    let ghost entries_g = entries@;
    let ghost per_name_ok = forall|i: int|
        0 <= i < count && #[trigger] def.outputs_present[i] ==> entries_g[present_before(
            def,
            i,
        )].0@ == bytes_of(def.output_names[i]@);
    let p = rt.alloc_record(Payload::Provider { entries });
    proof {
        assert(rt.provider_entries_of(p as int) == entries_g);
        assert forall|j: int, e: int|
            0 <= j < count && !(#[trigger] def.outputs_present[j]) && 0 <= e < present_before(
                def,
                count as int,
            ) implies (#[trigger] rt.provider_entries_of(p as int)[e]).0@ != bytes_of(
            def.output_names[j]@,
        ) by {
            crate::runtime::lemma_present_surjective(def, count as int, e);
            let i = choose|i: int|
                0 <= i < count && def.outputs_present[i] && #[trigger] present_before(def, i)
                    == e;
            assert(entries_g[e].0@ == bytes_of(def.output_names[i]@));
            assert(i != j);
            assert(bytes_of(def.output_names[i]@) != bytes_of(def.output_names[j]@));
            assert(rt.provider_entries_of(p as int)[e].0@ == bytes_of(def.output_names[i]@));
        }
        assert forall|j: int, e: int|
            0 <= j < count && (#[trigger] def.outputs_present[j]) && 0 <= e < present_before(
                def,
                count as int,
            ) && (#[trigger] rt.provider_entries_of(p as int)[e]).0@ == bytes_of(
            def.output_names[j]@,
        ) implies e == present_before(def, j) by {
            crate::runtime::lemma_present_surjective(def, count as int, e);
            let i = choose|i: int|
                0 <= i < count && def.outputs_present[i] && #[trigger] present_before(def, i)
                    == e;
            assert(entries_g[e].0@ == bytes_of(def.output_names[i]@));
            if i != j {
                assert(bytes_of(def.output_names[i]@) != bytes_of(def.output_names[j]@));
            }
        }
    }
    Some(p)
}

/// Looks the named output array up in a live output provider; absent names
/// yield no handle.
pub fn mlfeatureprovider_multiarray_by_name(rt: &NativeRuntime, provider_h: usize, name: &[u8]) -> (r:
    Option<usize>)
    requires
        rt.wf(),
        rt.live(provider_h as int),
        rt.records[provider_h as int].payload is Provider,
    ensures
        r is Some <==> exists|e: int|
            0 <= e < rt.provider_entries_of(provider_h as int).len() && (#[trigger] rt
                .provider_entries_of(provider_h as int)[e]).0@ == name@,
        r matches Some(a) ==> exists|e: int|
            {
                &&& 0 <= e < rt.provider_entries_of(provider_h as int).len()
                &&& (#[trigger] rt.provider_entries_of(provider_h as int)[e]).0@ == name@
                &&& rt.provider_entries_of(provider_h as int)[e].1 == a
            },
{
    let entries = match &rt.records[provider_h].payload {
        Payload::Provider { entries } => entries,
        _ => vstd::pervasive::unreached(),
    };
    let mut e: usize = 0;
    while e < entries.len()
        invariant
            0 <= e <= entries.len(),
            entries@ == rt.provider_entries_of(provider_h as int),
            forall|k: int|
                0 <= k < e ==> (#[trigger] rt.provider_entries_of(provider_h as int)[k]).0@
                    != name@,
        decreases entries.len() - e,
    {
        if bytes_eq(entries[e].0.as_slice(), name) {
            proof {
                assert(0 <= e < rt.provider_entries_of(provider_h as int).len() && rt
                    .provider_entries_of(provider_h as int)[e as int].0@ == name@);
            }
            return Some(entries[e].1);
        }
        e += 1;
    }
    None
}

/// How many dimensions a live output array has.
pub fn mlmultiarray_dimensionality(rt: &NativeRuntime, array_h: usize) -> (n: usize)
    requires
        rt.wf(),
        rt.live(array_h as int),
        rt.records[array_h as int].payload is MultiArray,
    ensures
        rt.records[array_h as int].payload matches Payload::MultiArray { shape, .. } ==> n
            == shape.len(),
{
    match &rt.records[array_h].payload {
        Payload::MultiArray { shape, .. } => shape.len(),
        _ => vstd::pervasive::unreached(),
    }
}

/// Copies a live output array's dimension sizes into a buffer of exactly
/// its dimensionality.
pub fn mlmultiarray_get_shape(rt: &NativeRuntime, array_h: usize, count: usize) -> (r: Vec<usize>)
    requires
        rt.wf(),
        rt.live(array_h as int),
        rt.records[array_h as int].payload matches Payload::MultiArray { shape, .. } && count
            == shape.len(),
    ensures
        rt.records[array_h as int].payload matches Payload::MultiArray { shape, .. } ==> r@
            == shape@,
{
    match &rt.records[array_h].payload {
        Payload::MultiArray { shape, .. } => vstd::slice::slice_to_vec(shape.as_slice()),
        _ => vstd::pervasive::unreached(),
    }
}

/// Borrows the element buffer a live output array exposes; only valid
/// while the array handle is.
pub fn mlmultiarray_data<'a>(rt: &'a NativeRuntime, array_h: usize) -> (r: &'a [Float32])
    requires
        rt.wf(),
        rt.live(array_h as int),
        rt.records[array_h as int].payload is MultiArray,
    ensures
        rt.records[array_h as int].payload matches Payload::MultiArray { shape, data } ==> (r@
            == data@ && r@.len() == product_of(shape@)),
{
    match &rt.records[array_h].payload {
        Payload::MultiArray { data, .. } => data.as_slice(),
        _ => vstd::pervasive::unreached(),
    }
}

/// A transient output provider: named lookups into the arrays of one
/// prediction.  Released as soon as all lookups are done; each returned
/// view owns its own array handle independently.
pub struct OutputProvider {
    pub inner: usize,
}

impl OutputProvider {
    /// The wrapper owns a live provider handle.
    pub open spec fn wf(self, rt: NativeRuntime) -> bool {
        &&& rt.live(self.inner as int)
        &&& rt.records[self.inner as int].payload is Provider
    }

    /// Every array the provider's entries point at is still live.
    pub open spec fn arrays_live(self, rt: NativeRuntime) -> bool {
        forall|e: int|
            0 <= e < rt.provider_entries_of(self.inner as int).len() ==> rt.live(
                (#[trigger] rt.provider_entries_of(self.inner as int)[e]).1 as int,
            )
    }

    /// Looks one output up by name and wraps the backing array handle,
    /// with its queried shape, into an owned view; an absent name yields
    /// no view.
    pub fn output_tensor(&self, rt: &NativeRuntime, name: &[u8]) -> (r: Option<OutputTensor>)
        requires
            rt.wf(),
            self.wf(*rt),
            self.arrays_live(*rt),
        ensures
            r is Some <==> exists|e: int|
                0 <= e < rt.provider_entries_of(self.inner as int).len() && (#[trigger] rt
                    .provider_entries_of(self.inner as int)[e]).0@ == name@,
            r matches Some(t) ==> {
                &&& t.wf(*rt)
                &&& exists|e: int|
                    {
                        &&& 0 <= e < rt.provider_entries_of(self.inner as int).len()
                        &&& (#[trigger] rt.provider_entries_of(self.inner as int)[e]).0@ == name@
                        &&& rt.provider_entries_of(self.inner as int)[e].1 == t.multiarray
                    }
            },
    {
        match mlfeatureprovider_multiarray_by_name(rt, self.inner, name) {
            None => None,
            Some(a) => {
                let d = mlmultiarray_dimensionality(rt, a);
                let shape = mlmultiarray_get_shape(rt, a, d);
                Some(OutputTensor { multiarray: a, shape })
            },
        }
    }

    /// Releases the provider handle, exactly once.  The arrays it pointed
    /// at are untouched: each view owns its own.
    pub fn close(self, rt: &mut NativeRuntime)
        requires
            old(rt).wf(),
            self.wf(*old(rt)),
        ensures
            final(rt).wf(),
            final(rt).same_config(*old(rt)),
            final(rt).release_log@ == old(rt).release_log@.push(self.inner),
            forall|h: int|
                final(rt).live(h) <==> (#[trigger] old(rt).live(h) && h != self.inner),
            final(rt).records.len() == old(rt).records.len(),
            forall|h: int|
                0 <= h < old(rt).records.len() && h != self.inner ==> final(rt).records[h]
                    == #[trigger] old(rt).records[h],
    {
        release_object(rt, self.inner);
    }
}

/// An output view of this backend: the owned array handle and its shape.
/// The element buffer stays valid exactly as long as the handle is live.
pub struct OutputTensor {
    pub multiarray: usize,
    pub shape: Vec<usize>,
}

impl OutputTensor {
    /// The view owns a live array handle whose shape is the cached one.
    pub open spec fn wf(self, rt: NativeRuntime) -> bool {
        &&& rt.live(self.multiarray as int)
        &&& (rt.records[self.multiarray as int].payload matches Payload::MultiArray { shape, .. }
            && shape@ == self.shape@)
    }

    /// The elements the view exposes.
    pub open spec fn spec_data(self, rt: NativeRuntime) -> Seq<Float32> {
        match rt.records[self.multiarray as int].payload {
            Payload::MultiArray { data, .. } => data@,
            _ => Seq::empty(),
        }
    }

    /// The elements: always exactly as many as the shape's product, since
    /// the runtime fills every output array it hands out.
    pub fn as_slice<'a>(&self, rt: &'a NativeRuntime) -> (r: &'a [Float32])
        requires
            rt.wf(),
            self.wf(*rt),
        ensures
            r@ == self.spec_data(*rt),
            r@.len() == product_of(self.shape@),
    {
        mlmultiarray_data(rt, self.multiarray)
    }

    /// The ordered dimension sizes.
    pub fn shape(&self) -> (r: &Vec<usize>)
        ensures
            r@ == self.shape@,
    {
        &self.shape
    }

    /// Releases the owned array handle, exactly once; the buffer it
    /// exposed is invalid afterwards.
    pub fn close(self, rt: &mut NativeRuntime)
        requires
            old(rt).wf(),
            self.wf(*old(rt)),
        ensures
            final(rt).wf(),
            final(rt).same_config(*old(rt)),
            final(rt).release_log@ == old(rt).release_log@.push(self.multiarray),
            forall|h: int|
                final(rt).live(h) <==> (#[trigger] old(rt).live(h) && h != self.multiarray),
            final(rt).records.len() == old(rt).records.len(),
            forall|h: int|
                0 <= h < old(rt).records.len() && h != self.multiarray ==> final(rt).records[h]
                    == #[trigger] old(rt).records[h],
    {
        release_object(rt, self.multiarray);
    }
}

/// One loaded model of this backend, with its output-name table captured
/// verbatim at load time.
pub struct MLModel {
    pub inner: usize,
    pub output_names: Vec<String>,
    pub output_c_names: Vec<Vec<u8>>,
}

/// Some input name holds an embedded terminator byte.
pub open spec fn b_names_malformed(inputs: Seq<(String, InputTensor)>) -> bool {
    exists|i: int| 0 <= i < inputs.len() && bytes_of((#[trigger] inputs[i].0)@).contains(0u8)
}

/// The conditions under which loading a model behind these path bytes
/// succeeds.
pub open spec fn model_open_ok(rt: NativeRuntime, path_bytes: Seq<u8>) -> bool {
    &&& !path_bytes.contains(0u8)
    &&& rt.has_model(path_bytes)
    &&& !rt.model_def_of(path_bytes).open_fails
}

impl MLModel {
    /// The model handle is live and the two name tables are parallel
    /// images of the model's declared output names.
    pub open spec fn wf(self, rt: NativeRuntime) -> bool {
        &&& rt.live(self.inner as int)
        &&& rt.records[self.inner as int].payload is Model
        &&& self.output_names@ == rt.def_of_handle(self.inner as int).output_names@
        &&& self.output_c_names.len() == self.output_names.len()
        &&& forall|i: int|
            0 <= i < self.output_names.len() ==> (#[trigger] self.output_c_names[i])@ == bytes_of(
                self.output_names[i]@,
            )
    }

    /// Loads the model behind a path and captures its declared output
    /// names, releasing every transient name object on the way.  A path
    /// with an embedded terminator byte fails fast, before any native
    /// call; an open failure leaves nothing allocated.
    pub fn new(rt: &mut NativeRuntime, path: &str) -> (r: Result<MLModel, NewMLModelError>)
        requires
            old(rt).wf(),
        ensures
            final(rt).wf(),
            final(rt).same_config(*old(rt)),
            final(rt).keeps_records_of(*old(rt)),
            bytes_of(path@).contains(0u8) ==> (r matches Err(NewMLModelError::MalformedPath)
                && *final(rt) == *old(rt)),
            r is Ok <==> model_open_ok(*old(rt), bytes_of(path@)),
            r matches Ok(mdl) ==> {
                &&& mdl.wf(*final(rt))
                &&& mdl.inner == old(rt).records.len()
                &&& mdl.output_names@ == old(rt).model_def_of(bytes_of(path@)).output_names@
                &&& forall|h: int|
                    final(rt).live(h) <==> (#[trigger] old(rt).live(h) || h == mdl.inner)
            },
            r is Err ==> *final(rt) == *old(rt),
    {
        if str_has_nul(path) {
            return Err(NewMLModelError::MalformedPath);
        }
        let path_bytes = str_bytes(path);
        let h = match open_coreml_model(rt, path_bytes.as_slice()) {
            Some(h) => h,
            None => {
                return Err(NewMLModelError::OpenError);
            },
        };
        let count = mlmodel_output_count(rt, h);
        let ghost def = old(rt).model_def_of(path_bytes@);
        let mut output_names: Vec<String> = Vec::new();
        let mut output_c_names: Vec<Vec<u8>> = Vec::new();
        let mut i: usize = 0;
        while i < count
            invariant
                0 <= i <= count,
                old(rt).wf(),
                rt.wf(),
                rt.same_config(*old(rt)),
                rt.keeps_records_of(*old(rt)),
                h == old(rt).records.len(),
                rt.live(h as int),
                rt.records[h as int].payload is Model,
                rt.def_of_handle(h as int) == def,
                def == old(rt).model_def_of(path_bytes@),
                count == def.output_names.len(),
                output_names@ == def.output_names@.take(i as int),
                output_c_names.len() == i,
                forall|j: int|
                    0 <= j < i ==> (#[trigger] output_c_names[j])@ == bytes_of(
                        output_names[j]@,
                    ),
                forall|x: int| rt.live(x) <==> (#[trigger] old(rt).live(x) || x == h),
            decreases count - i,
        {
            let name_h = mlmodel_copy_output_name(rt, h, i);
            let name = nsstring_to_string(rt, name_h);
            release_object(rt, name_h);
            output_c_names.push(str_bytes(name.as_str()));
            output_names.push(name);
            proof {
                assert(output_names@ =~= def.output_names@.take(i + 1));
            }
            i += 1;
        }
        proof {
            assert(def.output_names@.take(count as int) =~= def.output_names@);
        }
        Ok(MLModel { inner: h, output_names, output_c_names })
    }

    /// The captured output names, in declaration order; fixed at load
    /// time.
    pub fn output_names(&self) -> (r: &Vec<String>)
        ensures
            r@ == self.output_names@,
    {
        &self.output_names
    }

    /// Runs the loaded model over the named inputs.  Each declared output
    /// the runtime reports present is looked up by name and wrapped into an
    /// owned view, in table order; outputs the runtime omits are skipped.
    /// The provider object is released before returning, so on success
    /// exactly the returned views' array handles stay live.
    ///
    /// An input name with an embedded terminator byte fails fast, before
    /// any native call.  A native failure propagates with no view
    /// constructed or leaked.
    pub fn predict<'a>(&self, rt: &mut NativeRuntime, inputs: &Vec<(String, InputTensor<'a>)>) -> (r:
        Result<Vec<(String, OutputTensor)>, PredictError>)
        requires
            old(rt).wf(),
            self.wf(*old(rt)),
        ensures
            final(rt).wf(),
            final(rt).same_config(*old(rt)),
            final(rt).keeps_records_of(*old(rt)),
            b_names_malformed(inputs@) ==> (r matches Err(PredictError::MalformedInputName)
                && *final(rt) == *old(rt)),
            r is Ok <==> (!b_names_malformed(inputs@) && !old(rt).def_of_handle(
                self.inner as int,
            ).run_fails && inputs@.len() == 1 && up_ok(
                inputs@[0].1.shape@,
                inputs@[0].1.data@.len() as int,
            )),
            r matches Ok(outs) ==> {
                let def = old(rt).def_of_handle(self.inner as int);
                let np = present_before(def, def.output_names.len() as int);
                let in_shape = inputs@[0].1.shape@;
                let in_data = inputs@[0].1.data@;
                &&& outs.len() == np
                &&& forall|j: int|
                    0 <= j < def.output_names.len() && #[trigger] def.outputs_present[j] ==> {
                        &&& outs[present_before(def, j)].0 == self.output_names[j]
                        &&& outs[present_before(def, j)].1.multiarray == old(rt).records.len()
                            + present_before(def, j)
                    }
                &&& forall|e: int|
                    0 <= e < np ==> {
                        &&& (#[trigger] outs[e]).1.wf(*final(rt))
                        &&& outs[e].1.shape@ == up_shape(in_shape)
                        &&& outs[e].1.spec_data(*final(rt)) == upsample2_data(in_data, in_shape)
                        &&& outs[e].1.multiarray == old(rt).records.len() + e
                    }
                &&& forall|h: int|
                    final(rt).live(h) <==> (#[trigger] old(rt).live(h) || (old(rt).records.len()
                        <= h < old(rt).records.len() + np))
            },
            r is Err ==> final(rt).same_live(*old(rt)),
    {
        let mut c_names: Vec<Vec<u8>> = Vec::new();
        let mut i: usize = 0;
        while i < inputs.len()
            invariant
                0 <= i <= inputs.len(),
                c_names.len() == i,
                *rt == *old(rt),
                old(rt).wf(),
                forall|j: int| 0 <= j < i ==> !bytes_of((#[trigger] inputs[j].0)@).contains(0u8),
            decreases inputs.len() - i,
        {
            if str_has_nul(inputs[i].0.as_str()) {
                return Err(PredictError::MalformedInputName);
            }
            c_names.push(str_bytes(inputs[i].0.as_str()));
            i += 1;
        }
        let mut datas: Vec<Vec<Float32>> = Vec::new();
        let mut shapes: Vec<Vec<usize>> = Vec::new();
        let mut k: usize = 0;
        while k < inputs.len()
            invariant
                0 <= k <= inputs.len(),
                datas.len() == k,
                shapes.len() == k,
                *rt == *old(rt),
                old(rt).wf(),
                c_names.len() == inputs.len(),
                forall|j: int| 0 <= j < k ==> (#[trigger] datas[j])@ == inputs[j].1.data@,
                forall|j: int| 0 <= j < k ==> (#[trigger] shapes[j])@ == inputs[j].1.shape@,
            decreases inputs.len() - k,
        {
            datas.push(vstd::slice::slice_to_vec(inputs[k].1.data));
            shapes.push(vstd::slice::slice_to_vec(inputs[k].1.shape));
            k += 1;
        }
        let p = match mlmodel_predict(rt, self.inner, &c_names, &datas, &shapes) {
            Some(p) => p,
            None => {
                return Err(PredictError::PredictError);
            },
        };
        let provider = OutputProvider { inner: p };
        let ghost rt_b = *rt;
        let ghost def = old(rt).def_of_handle(self.inner as int);
        let ghost np = present_before(def, def.output_names.len() as int);
        let ghost base = old(rt).records.len() as int;
        proof {
            lemma_present_before_le(def, def.output_names.len() as int);
            assert forall|e: int|
                0 <= e < rt.provider_entries_of(p as int).len() implies rt.live(
                (#[trigger] rt.provider_entries_of(p as int)[e]).1 as int,
            ) by {
                assert(rt.provider_entries_of(p as int)[e].1 == base + e) by {
                    crate::runtime::lemma_present_surjective(def, def.output_names.len() as int, e);
                    let i = choose|i: int|
                        0 <= i < def.output_names.len() && def.outputs_present[i]
                            && #[trigger] present_before(def, i) == e;
                    assert(rt.provider_entries_of(p as int)[present_before(def, i)].1 == base
                        + present_before(def, i));
                }
            }
        }
        let count = self.output_names.len();
        let mut outs: Vec<(String, OutputTensor)> = Vec::new();
        let mut j: usize = 0;
        while j < count
            invariant
                0 <= j <= count,
                *rt == rt_b,
                old(rt).wf(),
                rt_b.wf(),
                self.wf(*old(rt)),
                count == self.output_names.len(),
                count == def.output_names.len(),
                def == old(rt).def_of_handle(self.inner as int),
                def.wf(),
                np == present_before(def, count as int),
                base == old(rt).records.len(),
                provider.inner == p,
                p == base + np,
                provider.wf(rt_b),
                provider.arrays_live(rt_b),
                rt_b.provider_entries_of(p as int).len() == np,
                forall|jj: int|
                    0 <= jj < count && #[trigger] def.outputs_present[jj] ==> {
                        &&& rt_b.provider_entries_of(p as int)[present_before(def, jj)].0@
                            == bytes_of(def.output_names[jj]@)
                        &&& rt_b.provider_entries_of(p as int)[present_before(def, jj)].1 == base
                            + present_before(def, jj)
                    },
                forall|jj: int, e: int|
                    0 <= jj < count && !(#[trigger] def.outputs_present[jj]) && 0 <= e < np
                        ==> (#[trigger] rt_b.provider_entries_of(p as int)[e]).0@ != bytes_of(
                        def.output_names[jj]@,
                    ),
                forall|jj: int, e: int|
                    0 <= jj < count && (#[trigger] def.outputs_present[jj]) && 0 <= e < np && (
                    #[trigger] rt_b.provider_entries_of(p as int)[e]).0@ == bytes_of(
                        def.output_names[jj]@,
                    ) ==> e == present_before(def, jj),
                forall|e: int|
                    0 <= e < np ==> {
                        &&& rt_b.live(base + e)
                        &&& (#[trigger] rt_b.records[base + e].payload matches
                            Payload::MultiArray { shape, data } && shape@ == up_shape(
                            inputs@[0].1.shape@,
                        ) && data@ == upsample2_data(inputs@[0].1.data@, inputs@[0].1.shape@))
                    },
                outs.len() == present_before(def, j as int),
                forall|jj: int|
                    0 <= jj < j && #[trigger] def.outputs_present[jj] ==> {
                        &&& outs[present_before(def, jj)].0 == self.output_names[jj]
                        &&& outs[present_before(def, jj)].1.multiarray == base + present_before(
                            def,
                            jj,
                        )
                    },
                forall|e: int|
                    0 <= e < outs.len() ==> {
                        &&& (#[trigger] outs[e]).1.multiarray == base + e
                        &&& outs[e].1.shape@ == up_shape(inputs@[0].1.shape@)
                    },
            decreases count - j,
        {
            proof {
                lemma_present_before_le(def, j as int);
                lemma_present_before_le(def, count as int);
                assert(self.output_c_names@[j as int]@ == bytes_of(def.output_names[j as int]@));
                assert forall|jj: int|
                    0 <= jj < j && #[trigger] def.outputs_present[jj] implies present_before(
                    def,
                    jj,
                ) < present_before(def, j as int) by {
                    assert(present_before(def, jj + 1) == present_before(def, jj) + 1);
                    lemma_present_before_le(def, j as int);
                }
                if def.outputs_present[j as int] {
                    assert(present_before(def, j + 1) == present_before(def, j as int) + 1);
                    assert(present_before(def, j as int) < np);
                }
            }
            let ghost outs_pre = outs@;
            match provider.output_tensor(rt, self.output_c_names[j].as_slice()) {
                Some(t) => {
                    proof {
                        assert(def.outputs_present[j as int]) by {
                            if !def.outputs_present[j as int] {
                                let e = choose|e: int|
                                    0 <= e < rt_b.provider_entries_of(p as int).len() && (
                                    #[trigger] rt_b.provider_entries_of(p as int)[e]).0@
                                        == self.output_c_names@[j as int]@;
                                assert(rt_b.provider_entries_of(p as int)[e].0@ != bytes_of(
                                    def.output_names[j as int]@,
                                ));
                            }
                        }
                        let e = choose|e: int|
                            {
                                &&& 0 <= e < rt_b.provider_entries_of(p as int).len()
                                &&& (#[trigger] rt_b.provider_entries_of(p as int)[e]).0@
                                    == self.output_c_names@[j as int]@
                                &&& rt_b.provider_entries_of(p as int)[e].1 == t.multiarray
                            };
                        assert(e == present_before(def, j as int));
                        assert(t.multiarray == base + present_before(def, j as int));
                    }
                    outs.push((self.output_names[j].clone(), t));
                    proof {
                        assert(present_before(def, j + 1) == present_before(def, j as int) + 1);
                    }
                },
                None => {
                    proof {
                        assert(!def.outputs_present[j as int]) by {
                            if def.outputs_present[j as int] {
                                assert(rt_b.provider_entries_of(p as int)[present_before(
                                    def,
                                    j as int,
                                )].0@ == bytes_of(def.output_names[j as int]@));
                            }
                        }
                        assert(present_before(def, j + 1) == present_before(def, j as int));
                    }
                },
            }
            proof {
                assert forall|jj: int|
                    0 <= jj < j + 1 && #[trigger] def.outputs_present[jj] implies {
                    &&& outs@[present_before(def, jj)].0 == self.output_names@[jj]
                    &&& outs@[present_before(def, jj)].1.multiarray == base + present_before(
                        def,
                        jj,
                    )
                } by {
                    lemma_present_before_le(def, jj);
                    if jj < j {
                        assert(def.outputs_present[jj]);
                        assert(outs_pre.len() == present_before(def, j as int));
                        assert(present_before(def, jj) < present_before(def, j as int));
                        assert(outs_pre[present_before(def, jj)].0 == self.output_names@[jj]);
                        assert(outs_pre[present_before(def, jj)].1.multiarray == base
                            + present_before(def, jj));
                        assert(outs@[present_before(def, jj)] == outs_pre[present_before(
                            def,
                            jj,
                        )]);
                    } else {
                        assert(jj == j);
                        assert(def.outputs_present[j as int]);
                        assert(outs@.len() == outs_pre.len() + 1);
                        assert(present_before(def, j as int) == outs_pre.len());
                    }
                }
            }
            j += 1;
        }
        provider.close(rt);
        proof {
            assert forall|h: int| #[trigger] rt.live(h) implies (old(rt).live(h) || (base <= h < base
                + np)) by {
                assert(rt_b.live(h) && h != p);
                if h < base {
                    assert(rt_b.records[h] == old(rt).records[h]);
                }
            }
            assert forall|h: int| base <= h < base + np implies #[trigger] rt.live(h) by {
                let e = h - base;
                assert(rt_b.records[base + e].payload is MultiArray);
                assert(rt_b.live(h));
            }
            assert forall|h: int| #[trigger] old(rt).live(h) implies rt.live(h) by {
                assert(rt_b.records[h] == old(rt).records[h]);
                assert(rt_b.live(h));
            }
            assert forall|e: int| 0 <= e < np implies {
                &&& (#[trigger] outs@[e]).1.wf(*rt)
                &&& outs@[e].1.spec_data(*rt) == upsample2_data(
                    inputs@[0].1.data@,
                    inputs@[0].1.shape@,
                )
            } by {
                assert(outs@[e].1.multiarray == base + e);
                assert(rt_b.records[base + e].payload matches Payload::MultiArray { shape, data }
                    && shape@ == up_shape(inputs@[0].1.shape@) && data@ == upsample2_data(
                    inputs@[0].1.data@,
                    inputs@[0].1.shape@,
                ));
                assert(rt.records[base + e] == rt_b.records[base + e]);
                assert(rt.live(base + e));
            }
        }
        Ok(outs)
    }

    /// Releases the model handle, exactly once.
    pub fn close(self, rt: &mut NativeRuntime)
        requires
            old(rt).wf(),
            self.wf(*old(rt)),
        ensures
            final(rt).wf(),
            final(rt).same_config(*old(rt)),
            final(rt).release_log@ == old(rt).release_log@.push(self.inner),
            forall|h: int|
                final(rt).live(h) <==> (#[trigger] old(rt).live(h) && h != self.inner),
            final(rt).records.len() == old(rt).records.len(),
            forall|h: int|
                0 <= h < old(rt).records.len() && h != self.inner ==> final(rt).records[h]
                    == #[trigger] old(rt).records[h],
    {
        release_object(rt, self.inner);
    }
}

} // verus!
