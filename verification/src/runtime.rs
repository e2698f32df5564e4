//! The modeled native side shared by both backends.
//!
//! The real inference engines live behind a foreign call boundary and are
//! opaque to this layer; what this layer is responsible for is the ownership
//! graph around their handles.  `NativeRuntime` makes that boundary explicit:
//! it is an arena of records, one per native allocation, each marked released
//! or live, together with a log of every release in order.  Every operation
//! the backends offer is a verified state transition on this arena, so the
//! library's claims - each handle released exactly once, no leak on an error
//! path, teardown in dependency order - are contracts over the arena, checked
//! by the verifier and observable by a counting test.

use vstd::prelude::*;

verus! {

use vstd::string::StringSliceAdditionalSpecFns;

/// The UTF-8 bytes of a piece of text, the form the native ABIs see names in.
pub open spec fn bytes_of(s: Seq<char>) -> Seq<u8> {
    vstd::utf8::encode_utf8(s)
}

/// Element-type tag for 32-bit floats, as the native tensor ABIs report it.
pub const ELEM_F32: u32 = 1;

/// A 32-bit float element, carried by its bit pattern.
///
/// Tensor payloads are moved and copied but never computed with at this
/// layer, so elements are opaque bit patterns; callers reinterpret them.
#[derive(Clone, Copy, PartialEq, Eq, Structural, Debug)]
pub struct Float32 {
    pub bits: u32,
}

/// The graph operation a loaded model performs on its single input:
/// nearest-neighbour spatial upsampling by two over an
/// (batch, height, width, channel) tensor.
#[derive(Clone, Copy, PartialEq, Eq, Structural, Debug)]
pub enum Op {
    Upsample2,
}

/// One installed model: what a model file on disk stands for.
///
/// The failure switches make the runtime a counting fake for the ownership
/// properties: a test can make opening, output-name enumeration or execution
/// fail and then observe that no handle leaked.
pub struct ModelDef {
    /// Declared output names, in declaration order.
    pub output_names: Vec<String>,
    /// Whether the feature-provider protocol reports each output as present.
    pub outputs_present: Vec<bool>,
    /// The operation the model computes.
    pub op: Op,
    /// Opening the model fails.
    pub open_fails: bool,
    /// Executing the model fails.
    pub run_fails: bool,
    /// Enumerating the output name at this index fails.
    pub name_fail_at: Option<usize>,
}

impl ModelDef {
    /// A definition the runtime accepts: presence flags parallel the names,
    /// no name holds an embedded terminator byte, and the names are
    /// pairwise distinct.
    pub open spec fn wf(self) -> bool {
        &&& self.outputs_present.len() == self.output_names.len()
        &&& forall|i: int|
            0 <= i < self.output_names.len() ==> !bytes_of((#[trigger] self.output_names[i])@).contains(0u8)
        &&& forall|i: int, j: int|
            0 <= i < j < self.output_names.len() ==> bytes_of((#[trigger] self.output_names[i])@)
                != bytes_of((#[trigger] self.output_names[j])@)
    }
}

/// How many of the first `j` declared outputs the feature-provider protocol
/// reports as present.
pub open spec fn present_before(def: ModelDef, j: int) -> int
    decreases j,
{
    if j <= 0 {
        0
    } else {
        present_before(def, j - 1) + if def.outputs_present[j - 1] {
            1int
        } else {
            0int
        }
    }
}

/// Every entry index below the present count is the entry index of some
/// present output.
pub proof fn lemma_present_surjective(def: ModelDef, n: int, e: int)
    requires
        0 <= e < present_before(def, n),
    ensures
        exists|i: int|
            0 <= i < n && def.outputs_present[i] && #[trigger] present_before(def, i) == e,
    decreases n,
{
    if n > 0 {
        if def.outputs_present[n - 1] && present_before(def, n - 1) == e {
            assert(0 <= n - 1 < n && def.outputs_present[n - 1] && present_before(def, n - 1)
                == e);
        } else {
            lemma_present_surjective(def, n - 1, e);
            let i = choose|i: int|
                0 <= i < n - 1 && def.outputs_present[i] && #[trigger] present_before(def, i)
                    == e;
            assert(0 <= i < n && def.outputs_present[i] && present_before(def, i) == e);
        }
    }
}

/// A present output's entry index never runs ahead of the output index.
pub proof fn lemma_present_before_le(def: ModelDef, j: int)
    requires
        0 <= j,
    ensures
        present_before(def, j) <= j,
        0 <= present_before(def, j),
        forall|i: int| 0 <= i <= j ==> #[trigger] present_before(def, i) <= present_before(def, j),
    decreases j,
{
    if j > 0 {
        lemma_present_before_le(def, j - 1);
    }
}

/// What one native allocation is.
pub enum Payload {
    /// A runtime context handle.
    Env,
    /// A memory-descriptor handle.
    MemoryInfo,
    /// A status object carrying an error code and diagnostic text.
    Status { code: u32, message: String },
    /// A loaded-model handle of the value-handle backend.
    Session { model: usize },
    /// A typed tensor value.
    Value { elem: u32, shape: Vec<usize>, data: Vec<Float32> },
    /// A shape/type descriptor queried from a value.
    ShapeInfo { elem: u32, dims: Vec<usize> },
    /// An allocator-owned output-name buffer.
    NameBuf { name: String },
    /// A loaded-model handle of the feature-provider backend.
    Model { model: usize },
    /// A name object handed out by the feature-provider backend.
    NameObj { name: String },
    /// An output provider: named lookups into the arrays of one prediction.
    Provider { entries: Vec<(Vec<u8>, usize)> },
    /// A multi-dimensional output array of the feature-provider backend.
    MultiArray { shape: Vec<usize>, data: Vec<Float32> },
}

/// One native allocation and whether it has been released.
pub struct Record {
    pub payload: Payload,
    pub released: bool,
}

/// The modeled native side: an arena of every allocation either backend has
/// made, the models installed behind paths, and the order of every release.
pub struct NativeRuntime {
    /// The version the runtime's API table answers to.
    pub api_version: u32,
    /// Every allocation ever made, by handle.
    pub records: Vec<Record>,
    /// Installed models, keyed by path bytes; keys are distinct.
    pub models: Vec<(Vec<u8>, ModelDef)>,
    /// Handles in the order they were released; no handle appears twice.
    pub release_log: Vec<usize>,
}

/// The product of a shape's dimension sizes.
pub open spec fn product_of(s: Seq<usize>) -> int
    decreases s.len(),
{
    if s.len() == 0 {
        1
    } else {
        product_of(s.drop_last()) * s.last()
    }
}

impl NativeRuntime {
    /// Handle `h` names an allocation that has not been released.
    pub open spec fn live(self, h: int) -> bool {
        &&& 0 <= h < self.records.len()
        &&& !self.records[h].released
    }

    /// The installed definitions and the version answer, which no native
    /// call changes.
    pub open spec fn same_config(self, other: NativeRuntime) -> bool {
        &&& self.api_version == other.api_version
        &&& self.models@ == other.models@
    }

    /// Records present before stay exactly as they were.
    pub open spec fn keeps_records_of(self, old_rt: NativeRuntime) -> bool {
        &&& self.records.len() >= old_rt.records.len()
        &&& forall|h: int|
            0 <= h < old_rt.records.len() ==> self.records[h] == #[trigger] old_rt.records[h]
    }

    /// No handle that was live before has been released, and every handle
    /// added since is already dead: the live handles are exactly the old ones.
    pub open spec fn same_live(self, old_rt: NativeRuntime) -> bool {
        forall|h: int| self.live(h) <==> #[trigger] old_rt.live(h)
    }

    /// A model is installed behind these path bytes.
    pub open spec fn has_model(self, path: Seq<u8>) -> bool {
        exists|i: int| 0 <= i < self.models.len() && (#[trigger] self.models[i].0)@ == path
    }

    /// The definition installed behind these path bytes.  Well defined
    /// because installed paths are distinct.
    pub open spec fn model_def_of(self, path: Seq<u8>) -> ModelDef {
        self.models[choose|i: int| 0 <= i < self.models.len() && (#[trigger] self.models[i].0)@ == path].1
    }

    /// Everything the operations preserve about the arena.
    pub open spec fn wf(self) -> bool {
        // Installed models are acceptable and their paths distinct.
        &&& forall|i: int| 0 <= i < self.models.len() ==> (#[trigger] self.models[i].1).wf()
        &&& forall|i: int, j: int|
            0 <= i < j < self.models.len() ==> (#[trigger] self.models[i].0)@ != (#[trigger] self.models[j].0)@
        // Model handles point at installed models.
        &&& forall|h: int|
            0 <= h < self.records.len() ==> match (#[trigger] self.records[h]).payload {
                Payload::Session { model } => model < self.models.len(),
                Payload::Model { model } => model < self.models.len(),
                Payload::MultiArray { shape, data } => data.len() == product_of(shape@),
                Payload::Provider { entries } => forall|e: int|
                    0 <= e < entries.len() ==> {
                        let a = (#[trigger] entries[e]).1;
                        &&& a < self.records.len()
                        &&& self.records[a as int].payload is MultiArray
                    },
                _ => true,
            }
        // The release log holds each released handle at most once.
        &&& forall|i: int|
            0 <= i < self.release_log.len() ==> {
                let h = #[trigger] self.release_log[i];
                &&& h < self.records.len()
                &&& self.records[h as int].released
            }
        &&& forall|i: int, j: int|
            0 <= i < j < self.release_log.len()
                ==> #[trigger] self.release_log[i] != #[trigger] self.release_log[j]
    }

    /// The index of the installed model a loaded-model handle points at.
    pub open spec fn model_idx_of(self, h: int) -> int {
        match self.records[h].payload {
            Payload::Session { model } => model as int,
            Payload::Model { model } => model as int,
            _ => 0,
        }
    }

    /// The definition of the installed model a loaded-model handle points at.
    pub open spec fn def_of_handle(self, h: int) -> ModelDef {
        self.models[self.model_idx_of(h)].1
    }

    /// The element-type tag a tensor-value handle carries.
    pub open spec fn value_elem_of(self, h: int) -> u32 {
        match self.records[h].payload {
            Payload::Value { elem, .. } => elem,
            _ => 0,
        }
    }

    /// The shape a tensor-value handle carries.
    pub open spec fn value_shape_of(self, h: int) -> Seq<usize> {
        match self.records[h].payload {
            Payload::Value { shape, .. } => shape@,
            _ => Seq::empty(),
        }
    }

    /// The elements a tensor-value handle carries.
    pub open spec fn value_data_of(self, h: int) -> Seq<Float32> {
        match self.records[h].payload {
            Payload::Value { data, .. } => data@,
            _ => Seq::empty(),
        }
    }

    /// The named lookup table an output-provider handle carries.
    pub open spec fn provider_entries_of(self, h: int) -> Seq<(Vec<u8>, usize)> {
        match self.records[h].payload {
            Payload::Provider { entries } => entries@,
            _ => Seq::empty(),
        }
    }

    /// A fresh runtime answering to `api_version`, with nothing allocated
    /// and no models installed.
    pub fn new(api_version: u32) -> (rt: NativeRuntime)
        ensures
            rt.wf(),
            rt.api_version == api_version,
            rt.records.len() == 0,
            rt.models.len() == 0,
            rt.release_log.len() == 0,
    {
        NativeRuntime { api_version, records: Vec::new(), models: Vec::new(), release_log: Vec::new() }
    }

    /// Installs a model behind a path, standing for a model file on disk.
    /// Refused (returning `false`, changing nothing) if the definition is
    /// malformed or the path is already taken.
    pub fn install_model(&mut self, path: &str, def: ModelDef) -> (installed: bool)
        requires
            old(self).wf(),
        ensures
            final(self).wf(),
            installed ==> {
                &&& final(self).models@.len() == old(self).models@.len() + 1
                &&& final(self).models@.last().0@ == path.spec_bytes()
                &&& final(self).models@.last().1 == def
                &&& final(self).models@.take(old(self).models@.len() as int) == old(self).models@
                &&& final(self).records == old(self).records
                &&& final(self).release_log == old(self).release_log
                &&& final(self).api_version == old(self).api_version
            },
            !installed ==> *final(self) == *old(self),
            installed == ({
                &&& def.wf()
                &&& !old(self).has_model(path.spec_bytes())
            }),
    {
        if !def_acceptable(&def) {
            return false;
        }
        let path_bytes = str_bytes(path);
        let mut i: usize = 0;
        while i < self.models.len()
            invariant
                0 <= i <= self.models.len(),
                *self == *old(self),
                self.wf(),
                path_bytes@ == path.spec_bytes(),
                forall|j: int| 0 <= j < i ==> (#[trigger] self.models[j].0)@ != path.spec_bytes(),
            decreases self.models.len() - i,
        {
            if bytes_eq(self.models[i].0.as_slice(), path_bytes.as_slice()) {
                return false;
            }
            i += 1;
        }
        self.models.push((path_bytes, def));
        true
    }
}

impl NativeRuntime {
    /// The payload respects the arena: model indices name installed models,
    /// provider entries point at array records, arrays are full.
    pub open spec fn payload_ok(self, p: Payload) -> bool {
        match p {
            Payload::Session { model } => model < self.models.len(),
            Payload::Model { model } => model < self.models.len(),
            Payload::MultiArray { shape, data } => data.len() == product_of(shape@),
            Payload::Provider { entries } => forall|e: int|
                0 <= e < entries.len() ==> {
                    let a = (#[trigger] entries[e]).1;
                    &&& a < self.records.len()
                    &&& self.records[a as int].payload is MultiArray
                },
            _ => true,
        }
    }

    /// A native allocation: appends a fresh live record and hands back its
    /// handle.
    pub(crate) fn alloc_record(&mut self, payload: Payload) -> (h: usize)
        requires
            old(self).wf(),
            old(self).payload_ok(payload),
        ensures
            final(self).wf(),
            h == old(self).records.len(),
            final(self).records@ == old(self).records@.push(Record { payload, released: false }),
            final(self).release_log == old(self).release_log,
            final(self).same_config(*old(self)),
    {
        let h = self.records.len();
        self.records.push(Record { payload, released: false });
        h
    }

    /// A native release: marks the record dead and logs the handle.  The
    /// handle must be live, so no handle can ever be released twice.
    pub(crate) fn release_record(&mut self, h: usize)
        requires
            old(self).wf(),
            old(self).live(h as int),
        ensures
            final(self).wf(),
            final(self).records@ == old(self).records@.update(
                h as int,
                Record { payload: old(self).records@[h as int].payload, released: true },
            ),
            final(self).release_log@ == old(self).release_log@.push(h),
            final(self).same_config(*old(self)),
    {
        let rec = &mut self.records[h];
        rec.released = true;
        self.release_log.push(h);
    }

    /// How many native allocations were ever made.
    pub fn opened_count(&self) -> (n: usize)
        ensures
            n == self.records.len(),
    {
        self.records.len()
    }

    /// How many native releases happened.
    pub fn release_count(&self) -> (n: usize)
        ensures
            n == self.release_log.len(),
    {
        self.release_log.len()
    }

    /// How many allocations are still live.
    pub fn live_count(&self) -> (n: usize)
        ensures
            n == count_live(self.records@),
    {
        let mut n: usize = 0;
        let mut i: usize = 0;
        while i < self.records.len()
            invariant
                0 <= i <= self.records.len(),
                n == count_live(self.records@.take(i as int)),
                n <= i,
            decreases self.records.len() - i,
        {
            if !self.records[i].released {
                n += 1;
            }
            assert(self.records@.take(i + 1).drop_last() =~= self.records@.take(i as int));
            i += 1;
        }
        assert(self.records@.take(self.records.len() as int) =~= self.records@);
        n
    }

    /// The index of the model installed behind these path bytes.
    pub(crate) fn find_model(&self, path: &[u8]) -> (r: Option<usize>)
        requires
            self.wf(),
        ensures
            match r {
                Some(i) => {
                    &&& i < self.models.len()
                    &&& self.models[i as int].0@ == path@
                    &&& self.has_model(path@)
                    &&& self.model_def_of(path@) == self.models[i as int].1
                },
                None => !self.has_model(path@),
            },
    {
        let mut i: usize = 0;
        while i < self.models.len()
            invariant
                0 <= i <= self.models.len(),
                self.wf(),
                forall|j: int| 0 <= j < i ==> (#[trigger] self.models[j].0)@ != path@,
            decreases self.models.len() - i,
        {
            if bytes_eq(self.models[i].0.as_slice(), path) {
                proof {
                    let j = choose|j: int|
                        0 <= j < self.models.len() && (#[trigger] self.models[j].0)@ == path@;
                    assert(self.models[i as int].0@ == path@);
                    if j != i {
                        if j < i {
                            assert((self.models[j].0)@ != path@);
                        }
                    }
                }
                return Some(i);
            }
            i += 1;
        }
        None
    }
}

/// How many records of the arena are still live.
pub open spec fn count_live(s: Seq<Record>) -> int
    decreases s.len(),
{
    if s.len() == 0 {
        0
    } else {
        count_live(s.drop_last()) + if s.last().released {
            0int
        } else {
            1int
        }
    }
}

/// Whether the runtime accepts a model definition.
fn def_acceptable(def: &ModelDef) -> (ok: bool)
    ensures
        ok == def.wf(),
{
    if def.outputs_present.len() != def.output_names.len() {
        return false;
    }
    let mut i: usize = 0;
    while i < def.output_names.len()
        invariant
            0 <= i <= def.output_names.len(),
            forall|j: int| 0 <= j < i ==> !bytes_of((#[trigger] def.output_names[j])@).contains(0u8),
            forall|j: int, k: int|
                0 <= j < k < i ==> bytes_of((#[trigger] def.output_names[j])@) != bytes_of(
                    (#[trigger] def.output_names[k])@,
                ),
        decreases def.output_names.len() - i,
    {
        if str_has_nul(def.output_names[i].as_str()) {
            return false;
        }
        let bytes_i = str_bytes(def.output_names[i].as_str());
        let mut j: usize = 0;
        while j < i
            invariant
                0 <= j <= i < def.output_names.len(),
                bytes_i@ == bytes_of(def.output_names[i as int]@),
                forall|k: int|
                    0 <= k < j ==> bytes_of((#[trigger] def.output_names[k])@) != bytes_of(
                        def.output_names[i as int]@,
                    ),
            decreases i - j,
        {
            let bytes_j = str_bytes(def.output_names[j].as_str());
            if bytes_eq(bytes_j.as_slice(), bytes_i.as_slice()) {
                return false;
            }
            j += 1;
        }
        i += 1;
    }
    true
}

/// Releases happen exactly once: the release log never names a handle
/// twice, every logged handle is indeed dead, and no live handle was ever
/// logged.  Together with the release operations' demand that their handle
/// be live, no handle can be released twice; together with the teardown
/// contracts, none is forgotten.
pub proof fn lemma_releases_exactly_once(rt: &NativeRuntime)
    requires
        rt.wf(),
    ensures
        forall|i: int, j: int|
            0 <= i < j < rt.release_log.len() ==> #[trigger] rt.release_log[i]
                != #[trigger] rt.release_log[j],
        forall|i: int|
            0 <= i < rt.release_log.len() ==> rt.records[#[trigger] rt.release_log[i] as int].released,
        forall|h: int, i: int|
            #[trigger] rt.live(h) && 0 <= i < rt.release_log.len()
                ==> #[trigger] rt.release_log[i] != h,
{
    assert forall|h: int, i: int|
        #[trigger] rt.live(h) && 0 <= i < rt.release_log.len() implies #[trigger] rt.release_log[i]
        != h by {
        assert(rt.records[rt.release_log[i] as int].released);
    }
}

/// A zero-sized dimension makes the whole product zero.
pub proof fn lemma_product_of_zero(s: Seq<usize>, i: int)
    requires
        0 <= i < s.len(),
        s[i] == 0,
    ensures
        product_of(s) == 0,
    decreases s.len(),
{
    if i == s.len() - 1 {
        assert(s.last() == 0);
        assert(product_of(s) == product_of(s.drop_last()) * s.last());
        assert(product_of(s.drop_last()) * 0 == 0) by (nonlinear_arith);
    } else {
        lemma_product_of_zero(s.drop_last(), i);
        assert(product_of(s) == product_of(s.drop_last()) * s.last());
        assert(0 * s.last() == 0) by (nonlinear_arith);
    }
}

/// With every dimension at least one, the product is positive.
pub proof fn lemma_product_of_pos(s: Seq<usize>)
    requires
        forall|j: int| 0 <= j < s.len() ==> s[j] >= 1,
    ensures
        product_of(s) >= 1,
    decreases s.len(),
{
    if s.len() > 0 {
        lemma_product_of_pos(s.drop_last());
        assert(product_of(s.drop_last()) * s.last() >= 1) by (nonlinear_arith)
            requires
                product_of(s.drop_last()) >= 1,
                s.last() >= 1,
        {
        }
    }
}

/// With every dimension at least one, a prefix product never exceeds the
/// full product.
pub proof fn lemma_product_of_prefix_le(s: Seq<usize>, i: int)
    requires
        0 <= i <= s.len(),
        forall|j: int| 0 <= j < s.len() ==> s[j] >= 1,
    ensures
        product_of(s.take(i)) <= product_of(s),
    decreases s.len() - i,
{
    if i == s.len() {
        assert(s.take(i) =~= s);
    } else {
        assert(s.take(i + 1).drop_last() =~= s.take(i));
        assert(forall|j: int| 0 <= j < s.take(i).len() ==> s.take(i)[j] >= 1);
        lemma_product_of_pos(s.take(i));
        assert(product_of(s.take(i)) <= product_of(s.take(i)) * s[i]) by (nonlinear_arith)
            requires
                product_of(s.take(i)) >= 1,
                s[i] >= 1,
        {
        }
        assert(product_of(s.take(i + 1)) == product_of(s.take(i)) * s[i]);
        lemma_product_of_prefix_le(s, i + 1);
    }
}

/// The product of the dimension sizes, or `None` where it cannot be held in
/// a `usize`.
pub fn checked_product(shape: &[usize]) -> (r: Option<usize>)
    ensures
        match r {
            Some(p) => p as int == product_of(shape@),
            None => product_of(shape@) > usize::MAX as int,
        },
{
    let mut i: usize = 0;
    while i < shape.len()
        invariant
            0 <= i <= shape@.len(),
            forall|j: int| 0 <= j < i ==> shape@[j] >= 1,
        decreases shape@.len() - i,
    {
        if shape[i] == 0 {
            proof {
                lemma_product_of_zero(shape@, i as int);
            }
            return Some(0);
        }
        i += 1;
    }
    let mut p: usize = 1;
    let mut k: usize = 0;
    assert(shape@.take(0) =~= Seq::<usize>::empty());
    while k < shape.len()
        invariant
            0 <= k <= shape@.len(),
            forall|j: int| 0 <= j < shape@.len() ==> shape@[j] >= 1,
            p as int == product_of(shape@.take(k as int)),
        decreases shape@.len() - k,
    {
        assert(shape@.take(k + 1).drop_last() =~= shape@.take(k as int));
        match p.checked_mul(shape[k]) {
            Some(q) => {
                p = q;
            },
            None => {
                proof {
                    lemma_product_of_prefix_le(shape@, k + 1);
                }
                return None;
            },
        }
        k += 1;
    }
    assert(shape@.take(shape@.len() as int) =~= shape@);
    Some(p)
}

/// The inputs on which the upsampling operation is defined: a rank-4
/// (batch, height, width, channel) shape whose product is the element count,
/// with the doubled dimensions and the fourfold element count still
/// representable.
pub open spec fn up_ok(shape: Seq<usize>, data_len: int) -> bool {
    &&& shape.len() == 4
    &&& product_of(shape) == data_len
    &&& product_of(shape.take(3)) <= usize::MAX as int
    &&& 2 * shape[1] <= usize::MAX as int
    &&& 2 * shape[2] <= usize::MAX as int
    &&& 4 * data_len <= usize::MAX as int
}

/// The output shape: height and width doubled.
pub open spec fn up_shape(shape: Seq<usize>) -> Seq<usize> {
    seq![shape[0], (2 * shape[1]) as usize, (2 * shape[2]) as usize, shape[3]]
}

/// The channel values of the source pixel that output pixel (b, y, x) of the
/// upsampled tensor copies.
pub open spec fn up_pixel(data: Seq<Float32>, shape: Seq<usize>, b: int, y: int, x: int) -> Seq<
    Float32,
> {
    let h = shape[1] as int;
    let w = shape[2] as int;
    let c = shape[3] as int;
    let src = (b * h + y / 2) * w + x / 2;
    data.subrange(src * c, src * c + c)
}

/// The first `x_count` output pixels of output row (b, y), concatenated.
pub open spec fn up_row(data: Seq<Float32>, shape: Seq<usize>, b: int, y: int, x_count: int) -> Seq<
    Float32,
>
    decreases x_count,
{
    if x_count <= 0 {
        Seq::empty()
    } else {
        up_row(data, shape, b, y, x_count - 1) + up_pixel(data, shape, b, y, x_count - 1)
    }
}

/// The first `y_count` output rows of batch `b`, concatenated.
pub open spec fn up_plane(data: Seq<Float32>, shape: Seq<usize>, b: int, y_count: int) -> Seq<
    Float32,
>
    decreases y_count,
{
    if y_count <= 0 {
        Seq::empty()
    } else {
        up_plane(data, shape, b, y_count - 1) + up_row(data, shape, b, y_count - 1, 2 * shape[2])
    }
}

/// The first `b_count` output batches, concatenated.
pub open spec fn up_batches(data: Seq<Float32>, shape: Seq<usize>, b_count: int) -> Seq<Float32>
    decreases b_count,
{
    if b_count <= 0 {
        Seq::empty()
    } else {
        up_batches(data, shape, b_count - 1) + up_plane(data, shape, b_count - 1, 2 * shape[1])
    }
}

/// The whole upsampled tensor, row-major: every pixel of the input repeated
/// twice along height and twice along width.
pub open spec fn upsample2_data(data: Seq<Float32>, shape: Seq<usize>) -> Seq<Float32> {
    up_batches(data, shape, shape[0] as int)
}

/// A rank-4 product, spelled out in the grouping the index arithmetic uses.
pub proof fn lemma_product_grouped(shape: Seq<usize>)
    requires
        shape.len() == 4,
    ensures
        product_of(shape.take(3)) == (shape[0] as int * shape[1] as int) * shape[2] as int,
        product_of(shape) == product_of(shape.take(3)) * shape[3] as int,
{
    assert(shape.take(1).drop_last() =~= shape.take(0));
    assert(shape.take(2).drop_last() =~= shape.take(1));
    assert(shape.take(3).drop_last() =~= shape.take(2));
    assert(shape.take(0) =~= Seq::<usize>::empty());
    assert(shape.drop_last() =~= shape.take(3));
    assert(product_of(shape.take(0)) == 1);
    assert(product_of(shape.take(1)) == 1 * shape[0] as int);
    assert(product_of(shape.take(2)) == (1 * shape[0] as int) * shape[1] as int);
    assert(product_of(shape.take(3)) == ((1 * shape[0] as int) * shape[1] as int) * shape[2] as int);
    assert(1 * shape[0] as int == shape[0] as int);
    assert((shape[0] as int * shape[1] as int) * shape[2] as int == ((1 * shape[0] as int)
        * shape[1] as int) * shape[2] as int);
}

/// Each output pixel copies exactly one channel group of the input.
pub proof fn lemma_up_pixel_len(data: Seq<Float32>, shape: Seq<usize>, b: int, y: int, x: int)
    requires
        up_ok(shape, data.len() as int),
        0 <= b < shape[0],
        0 <= y < 2 * shape[1],
        0 <= x < 2 * shape[2],
    ensures
        up_pixel(data, shape, b, y, x).len() == shape[3],
{
    lemma_product_grouped(shape);
    let n = shape[0] as int;
    let h = shape[1] as int;
    let w = shape[2] as int;
    let c = shape[3] as int;
    let pixels = (n * h) * w;
    assert(b * h + y / 2 < n * h) by (nonlinear_arith)
        requires
            0 <= b <= n - 1,
            0 <= y / 2 <= h - 1,
            h >= 1,
    {
    }
    let src = (b * h + y / 2) * w + x / 2;
    assert(src < pixels) by (nonlinear_arith)
        requires
            0 <= b * h + y / 2 <= n * h - 1,
            0 <= x / 2 <= w - 1,
            w >= 1,
            src == (b * h + y / 2) * w + x / 2,
            pixels == (n * h) * w,
    {
    }
    assert(0 <= src * c && src * c + c <= pixels * c) by (nonlinear_arith)
        requires
            0 <= src <= pixels - 1,
            c >= 0,
    {
    }
    assert(pixels * c == data.len());
}

/// An output row is its pixel count times the channel count long.
pub proof fn lemma_up_row_len(data: Seq<Float32>, shape: Seq<usize>, b: int, y: int, x_count: int)
    requires
        up_ok(shape, data.len() as int),
        0 <= b < shape[0],
        0 <= y < 2 * shape[1],
        0 <= x_count <= 2 * shape[2],
    ensures
        up_row(data, shape, b, y, x_count).len() == x_count * shape[3],
    decreases x_count,
{
    let c = shape[3] as int;
    if x_count <= 0 {
        assert(0 * c == 0) by (nonlinear_arith);
    } else {
        lemma_up_row_len(data, shape, b, y, x_count - 1);
        lemma_up_pixel_len(data, shape, b, y, x_count - 1);
        assert((x_count - 1) * c + c == x_count * c) by (nonlinear_arith);
    }
}

/// An output plane is its row count times the row length long.
pub proof fn lemma_up_plane_len(data: Seq<Float32>, shape: Seq<usize>, b: int, y_count: int)
    requires
        up_ok(shape, data.len() as int),
        0 <= b < shape[0],
        0 <= y_count <= 2 * shape[1],
    ensures
        up_plane(data, shape, b, y_count).len() == y_count * ((2 * shape[2]) * shape[3]),
    decreases y_count,
{
    let w2 = 2 * shape[2] as int;
    let c = shape[3] as int;
    if y_count <= 0 {
        assert(0 * (w2 * c) == 0) by (nonlinear_arith);
    } else {
        lemma_up_plane_len(data, shape, b, y_count - 1);
        lemma_up_row_len(data, shape, b, y_count - 1, w2);
        assert((y_count - 1) * (w2 * c) + w2 * c == y_count * (w2 * c)) by (nonlinear_arith);
    }
}

/// The concatenated batches are the full upsampled element count long.
pub proof fn lemma_up_batches_len(data: Seq<Float32>, shape: Seq<usize>, b_count: int)
    requires
        up_ok(shape, data.len() as int),
        0 <= b_count <= shape[0],
    ensures
        up_batches(data, shape, b_count).len() == b_count * ((2 * shape[1]) * ((2 * shape[2])
            * shape[3])),
    decreases b_count,
{
    let h2 = 2 * shape[1] as int;
    let w2 = 2 * shape[2] as int;
    let c = shape[3] as int;
    if b_count <= 0 {
        assert(0 * (h2 * (w2 * c)) == 0) by (nonlinear_arith);
    } else {
        lemma_up_batches_len(data, shape, b_count - 1);
        lemma_up_plane_len(data, shape, b_count - 1, h2);
        assert(h2 * (w2 * c) == h2 * (w2 * c));
        assert((b_count - 1) * (h2 * (w2 * c)) + h2 * (w2 * c) == b_count * (h2 * (w2 * c)))
            by (nonlinear_arith);
    }
}

/// The upsampled tensor holds exactly as many elements as its shape says.
pub proof fn lemma_upsample2_len(data: Seq<Float32>, shape: Seq<usize>)
    requires
        up_ok(shape, data.len() as int),
    ensures
        upsample2_data(data, shape).len() == product_of(up_shape(shape)),
{
    let n = shape[0] as int;
    let h2 = 2 * shape[1] as int;
    let w2 = 2 * shape[2] as int;
    let c = shape[3] as int;
    lemma_up_batches_len(data, shape, n);
    lemma_product_grouped(up_shape(shape));
    assert(up_shape(shape)[0] as int == n);
    assert(up_shape(shape)[1] as int == h2);
    assert(up_shape(shape)[2] as int == w2);
    assert(up_shape(shape)[3] as int == c);
    assert(n * (h2 * (w2 * c)) == ((n * h2) * w2) * c) by (nonlinear_arith);
}

/// Executes the upsampling operation, or reports that it does not apply.
pub(crate) fn apply_upsample2(data: &Vec<Float32>, shape: &Vec<usize>) -> (r: Option<
    (Vec<usize>, Vec<Float32>),
>)
    ensures
        match r {
            Some(out) => {
                &&& up_ok(shape@, data@.len() as int)
                &&& out.0@ == up_shape(shape@)
                &&& out.1@ == upsample2_data(data@, shape@)
            },
            None => !up_ok(shape@, data@.len() as int),
        },
{
    if shape.len() != 4 {
        return None;
    }
    let p = match checked_product(shape.as_slice()) {
        Some(p) => p,
        None => {
            return None;
        },
    };
    if p != data.len() {
        return None;
    }
    let p3 = match checked_product(vstd::slice::slice_subrange(shape.as_slice(), 0, 3)) {
        Some(p3) => p3,
        None => {
            assert(shape@.subrange(0, 3) =~= shape@.take(3));
            return None;
        },
    };
    assert(shape@.subrange(0, 3) =~= shape@.take(3));
    let n = shape[0];
    let h = shape[1];
    let w = shape[2];
    let c = shape[3];
    let h2 = match h.checked_mul(2) {
        Some(h2) => h2,
        None => {
            return None;
        },
    };
    let w2 = match w.checked_mul(2) {
        Some(w2) => w2,
        None => {
            return None;
        },
    };
    if data.len() > usize::MAX / 4 {
        proof {
            assert(4 * data@.len() > usize::MAX as int);
        }
        return None;
    }
    proof {
        // Spell the shape product out as the grouped product the index
        // arithmetic below uses.
        assert(shape@.take(1).drop_last() =~= shape@.take(0));
        assert(shape@.take(2).drop_last() =~= shape@.take(1));
        assert(shape@.take(3).drop_last() =~= shape@.take(2));
        assert(shape@.take(0) =~= Seq::<usize>::empty());
        assert(shape@.drop_last() =~= shape@.take(3));
        assert(shape@.take(4) =~= shape@);
        assert(product_of(shape@.take(0)) == 1);
        assert(product_of(shape@.take(1)) == 1 * n as int);
        assert(product_of(shape@.take(2)) == (1 * n as int) * h as int);
        assert(product_of(shape@.take(3)) == ((1 * n as int) * h as int) * w as int);
        assert(product_of(shape@) == product_of(shape@.take(3)) * c as int);
        assert(1 * n as int == n as int);
    }
    let ghost pixels: int = (n as int * h as int) * w as int;
    let mut out: Vec<Float32> = Vec::new();
    let mut b: usize = 0;
    while b < n
        invariant
            0 <= b <= n,
            shape@.len() == 4,
            n == shape@[0],
            h == shape@[1],
            w == shape@[2],
            c == shape@[3],
            h2 == 2 * h,
            w2 == 2 * w,
            pixels == (n as int * h as int) * w as int,
            pixels <= usize::MAX as int,
            pixels * c as int == data@.len() as int,
            4 * data@.len() <= usize::MAX as int,
            out@ == up_batches(data@, shape@, b as int),
        decreases n - b,
    {
        let mut y: usize = 0;
        while y < h2
            invariant
                0 <= b < n,
                0 <= y <= h2,
                shape@.len() == 4,
                n == shape@[0],
                h == shape@[1],
                w == shape@[2],
                c == shape@[3],
                h2 == 2 * h,
                w2 == 2 * w,
                pixels == (n as int * h as int) * w as int,
                pixels <= usize::MAX as int,
                pixels * c as int == data@.len() as int,
                4 * data@.len() <= usize::MAX as int,
                out@ == up_batches(data@, shape@, b as int) + up_plane(data@, shape@, b as int, y as int),
            decreases h2 - y,
        {
            let mut x: usize = 0;
            while x < w2
                invariant
                    0 <= b < n,
                    0 <= y < h2,
                    0 <= x <= w2,
                    shape@.len() == 4,
                    n == shape@[0],
                    h == shape@[1],
                    w == shape@[2],
                    c == shape@[3],
                    h2 == 2 * h,
                    w2 == 2 * w,
                    pixels == (n as int * h as int) * w as int,
                    pixels <= usize::MAX as int,
                    pixels * c as int == data@.len() as int,
                    4 * data@.len() <= usize::MAX as int,
                    out@ == up_batches(data@, shape@, b as int) + up_plane(data@, shape@, b as int, y as int)
                        + up_row(data@, shape@, b as int, y as int, x as int),
                decreases w2 - x,
            {
                proof {
                    // The source pixel index stays below the pixel count.
                    assert(n as int * h as int <= pixels) by (nonlinear_arith)
                        requires
                            pixels == (n as int * h as int) * w as int,
                            w as int >= 1,
                            n as int * h as int >= 0,
                    {
                    }
                    assert(b as int * h as int + y as int / 2 < n as int * h as int)
                        by (nonlinear_arith)
                        requires
                            0 <= b as int <= n as int - 1,
                            0 <= y as int / 2 <= h as int - 1,
                            h as int >= 1,
                    {
                    }
                    assert((b as int * h as int + y as int / 2) * w as int + x as int / 2 < pixels)
                        by (nonlinear_arith)
                        requires
                            0 <= b as int * h as int + y as int / 2 <= n as int * h as int - 1,
                            0 <= x as int / 2 <= w as int - 1,
                            w as int >= 1,
                            pixels == (n as int * h as int) * w as int,
                    {
                    }
                }
                let src: usize = (b * h + y / 2) * w + x / 2;
                proof {
                    assert(src as int * c as int + c as int <= pixels * c as int)
                        by (nonlinear_arith)
                        requires
                            0 <= src as int <= pixels - 1,
                            c as int >= 0,
                            pixels >= 1,
                    {
                    }
                }
                let base: usize = src * c;
                let mut ch: usize = 0;
                while ch < c
                    invariant
                        0 <= ch <= c,
                        shape@.len() == 4,
                        c == shape@[3],
                        base as int == src as int * c as int,
                        base as int + c as int <= data@.len() as int,
                        4 * data@.len() <= usize::MAX as int,
                        out@ == up_batches(data@, shape@, b as int)
                            + up_plane(data@, shape@, b as int, y as int)
                            + up_row(data@, shape@, b as int, y as int, x as int)
                            + data@.subrange(base as int, base as int + ch as int),
                    decreases c - ch,
                {
                    out.push(data[base + ch]);
                    assert(data@.subrange(base as int, base as int + ch as int + 1) =~= data@
                        .subrange(base as int, base as int + ch as int).push(
                        data@[base as int + ch as int],
                    ));
                    ch += 1;
                }
                proof {
                    assert(data@.subrange(base as int, base as int + c as int) =~= up_pixel(
                        data@,
                        shape@,
                        b as int,
                        y as int,
                        x as int,
                    ));
                }
                x += 1;
            }
            y += 1;
        }
        b += 1;
    }
    let mut oshape: Vec<usize> = Vec::new();
    oshape.push(n);
    oshape.push(h2);
    oshape.push(w2);
    oshape.push(c);
    assert(oshape@ =~= up_shape(shape@));
    Some((oshape, out))
}

/// Byte-for-byte equality of two byte strings.
pub fn bytes_eq(a: &[u8], b: &[u8]) -> (r: bool)
    ensures
        r == (a@ == b@),
{
    if a.len() != b.len() {
        assert(a@ != b@) by {
            assert(a@.len() != b@.len());
        }
        return false;
    }
    let mut i: usize = 0;
    while i < a.len()
        invariant
            0 <= i <= a@.len(),
            a@.len() == b@.len(),
            forall|j: int| 0 <= j < i ==> a@[j] == b@[j],
        decreases a@.len() - i,
    {
        if a[i] != b[i] {
            return false;
        }
        i += 1;
    }
    assert(a@ =~= b@);
    true
}

/// Whether the text holds an embedded terminator byte, which the native
/// ABIs' null-terminated name encoding cannot represent.
pub fn str_has_nul(s: &str) -> (r: bool)
    ensures
        r == s.spec_bytes().contains(0u8),
{
    let bs = s.as_bytes();
    let mut i: usize = 0;
    while i < bs.len()
        invariant
            0 <= i <= bs@.len(),
            bs@ == s.spec_bytes(),
            forall|j: int| 0 <= j < i ==> bs@[j] != 0u8,
        decreases bs@.len() - i,
    {
        if bs[i] == 0u8 {
            assert(s.spec_bytes().contains(0u8));
            return true;
        }
        i += 1;
    }
    assert(!s.spec_bytes().contains(0u8));
    false
}

/// The UTF-8 bytes of the text, as an owned buffer.
pub fn str_bytes(s: &str) -> (r: Vec<u8>)
    ensures
        r@ == s.spec_bytes(),
{
    let bs = s.as_bytes();
    let mut out: Vec<u8> = Vec::new();
    let mut i: usize = 0;
    while i < bs.len()
        invariant
            0 <= i <= bs@.len(),
            bs@ == s.spec_bytes(),
            out@ == bs@.take(i as int),
        decreases bs@.len() - i,
    {
        out.push(bs[i]);
        assert(out@ =~= bs@.take(i + 1));
        i += 1;
    }
    assert(out@ =~= bs@);
    out
}

} // verus!
