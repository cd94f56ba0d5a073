//! The hierarchical, source-polymorphic resolver for named tensors.
//!
//! A `VarBuilder` is bound to one backing source, one default element type
//! and one default device for its whole lifetime; pushing a prefix yields a
//! new resolver sharing the same source. The effective lookup key of a
//! request is the prefix segments joined with `.`, followed by the name.

use vstd::prelude::*;
use vstd::string::StringExecFns;
use std::sync::Arc;
use crate::device::Device;
use crate::dtype::DType;
use crate::error::Error;
use crate::init::Init;
use crate::shape::{byte_count, prod, prods_fit};
use crate::shard::gather;
use crate::stfile::{st_model, tv_entry, StEntry};
use crate::tensor::{copy_dims, Tensor, TensorModel};
use crate::varmap::VarMap;

verus! {

/// The closed set of backing sources: many serialized containers with a
/// name-to-container routing table, a parsed archive, an in-memory table, a
/// zero-generator, or a live variable store.
pub enum Tensors<'a> {
    SafeTensorWithRouting {
        routing: Vec<(String, usize)>,
        safetensors: Vec<safetensors::SafeTensors<'a>>,
    },
    Npz(Vec<(String, Tensor)>),
    TensorMap(Vec<(String, Tensor)>),
    Zeros,
    VarMap(VarMap),
}

/// Whether a name occurs in a routing table.
pub open spec fn routed(routing: Seq<(String, usize)>, n: Seq<char>) -> bool {
    exists|i: int| 0 <= i < routing.len() && routing[i].0@ == n
}

/// The container a name routes to; the last pair wins, as later containers
/// override earlier ones.
pub open spec fn route_of(routing: Seq<(String, usize)>, n: Seq<char>) -> int
    decreases routing.len(),
{
    if routing.len() == 0 {
        -1
    } else if routing.last().0@ == n {
        routing.last().1 as int
    } else {
        route_of(routing.drop_last(), n)
    }
}

/// The first value stored under a name in an in-memory table.
pub open spec fn map_find(ts: Seq<(String, Tensor)>, n: Seq<char>) -> Option<TensorModel>
    decreases ts.len(),
{
    if ts.len() == 0 {
        None
    } else if ts.first().0@ == n {
        Some(ts.first().1@)
    } else {
        map_find(ts.drop_first(), n)
    }
}

/// A routing table is sound for its containers: every pair points at a
/// container holding its name, and every name of every container has a
/// pair.
pub open spec fn tensors_wf(t: Tensors<'_>) -> bool {
    match t {
        Tensors::SafeTensorWithRouting { routing, safetensors } => {
            &&& forall|i: int|
                0 <= i < routing@.len() ==> (#[trigger] routing@[i]).1 < safetensors@.len()
                    && st_model(safetensors@[routing@[i].1 as int]).dom().contains(routing@[i].0@)
            &&& forall|f: int, n: Seq<char>|
                0 <= f < safetensors@.len() && #[trigger] st_model(safetensors@[f]).dom().contains(
                    n,
                ) ==> routed(routing@, n)
        },
        _ => true,
    }
}

/// The last-wins law of a routing table: a routed name resolves to the
/// last container holding it.
pub open spec fn route_last(
    routing: Seq<(String, usize)>,
    files: Seq<safetensors::SafeTensors<'_>>,
) -> bool {
    forall|n: Seq<char>|
        #[trigger] routed(routing, n) ==> {
            let f = route_of(routing, n);
            &&& 0 <= f < files.len()
            &&& st_model(files[f]).dom().contains(n)
            &&& forall|g: int|
                f < g < files.len() ==> !(#[trigger] st_model(files[g]).dom().contains(n))
        }
}

proof fn lemma_route_of_push(s: Seq<(String, usize)>, p: (String, usize), n: Seq<char>)
    ensures
        route_of(s.push(p), n) == if p.0@ == n {
            p.1 as int
        } else {
            route_of(s, n)
        },
        routed(s.push(p), n) <==> routed(s, n) || p.0@ == n,
    decreases s.len(),
{
    let t = s.push(p);
    assert(t.last() == p);
    assert(t.drop_last() =~= s);
    if p.0@ != n {
        if routed(s, n) {
            let i = choose|i: int| 0 <= i < s.len() && s[i].0@ == n;
            assert(t[i] == s[i]);
        }
        if routed(t, n) {
            let i = choose|i: int| 0 <= i < t.len() && t[i].0@ == n;
            assert(i < s.len() && s[i] == t[i]);
        }
    } else {
        assert(t[t.len() - 1].0@ == n);
    }
}

proof fn lemma_route_of_is_entry(routing: Seq<(String, usize)>, n: Seq<char>)
    requires
        routed(routing, n),
    ensures
        exists|i: int|
            0 <= i < routing.len() && (#[trigger] routing[i]).0@ == n && routing[i].1 as int
                == route_of(routing, n),
    decreases routing.len(),
{
    if routing.last().0@ == n {
        assert(routing[routing.len() - 1].0@ == n && routing[routing.len() - 1].1 as int
            == route_of(routing, n));
    } else {
        assert(routed(routing.drop_last(), n)) by {
            let i = choose|i: int| 0 <= i < routing.len() && routing[i].0@ == n;
            assert(routing.drop_last()[i] == routing[i]);
        }
        lemma_route_of_is_entry(routing.drop_last(), n);
        let i = choose|i: int|
            0 <= i < routing.drop_last().len() && (#[trigger] routing.drop_last()[i]).0@ == n
                && routing.drop_last()[i].1 as int == route_of(routing.drop_last(), n);
        assert(routing[i] == routing.drop_last()[i]);
    }
}

/// The prefix segments, each followed by a dot.
pub open spec fn joined_prefix(segs: Seq<Seq<char>>) -> Seq<char>
    decreases segs.len(),
{
    if segs.len() == 0 {
        Seq::empty()
    } else {
        joined_prefix(segs.drop_last()) + segs.last() + seq!['.']
    }
}

/// The effective lookup key of a request: the joined prefix followed by the
/// requested name.
pub open spec fn lookup_key(segs: Seq<Seq<char>>, name: Seq<char>) -> Seq<char> {
    joined_prefix(segs) + name
}

/// The source shared by a family of resolvers: the backing variant and the
/// default element type and device.
pub struct TensorData<'a> {
    pub tensors: Tensors<'a>,
    pub dtype: DType,
    pub device: Device,
}

impl<'a> TensorData<'a> {
    pub fn from_safetensors(
        safetensors: Vec<safetensors::SafeTensors<'a>>,
        dtype: DType,
        device: &Device,
    ) -> (r: TensorData<'a>)
        ensures
            r.tensors matches Tensors::SafeTensorWithRouting { safetensors: fs, routing } && fs@
                == safetensors@ && route_last(routing@, fs@),
            tensors_wf(r.tensors),
            r.dtype == dtype,
            r.device == *device,
    {
        let mut routing: Vec<(String, usize)> = Vec::new();
        let mut index: usize = 0;
        while index < safetensors.len()
            invariant
                index <= safetensors@.len(),
                forall|i: int|
                    0 <= i < routing@.len() ==> (#[trigger] routing@[i]).1 < index
                        && st_model(safetensors@[routing@[i].1 as int]).dom().contains(
                        routing@[i].0@,
                    ),
                forall|f: int, n: Seq<char>|
                    0 <= f < index && #[trigger] st_model(safetensors@[f]).dom().contains(n)
                        ==> routed(routing@, n),
                forall|n: Seq<char>|
                    #[trigger] routed(routing@, n) ==> {
                        let f = route_of(routing@, n);
                        &&& 0 <= f < index
                        &&& st_model(safetensors@[f]).dom().contains(n)
                        &&& forall|g: int|
                            f < g < index ==> !(#[trigger] st_model(
                                safetensors@[g],
                            ).dom().contains(n))
                    },
            decreases safetensors@.len() - index,
        {
            let names = crate::stfile::st_names(&safetensors[index]);
            let mut k: usize = 0;
            while k < names.len()
                invariant
                    index < safetensors@.len(),
                    k <= names@.len(),
                    forall|i: int, j: int| 0 <= i < j < names@.len() ==> names@[i]@ != names@[j]@,
                    forall|i: int|
                        0 <= i < names@.len() ==> st_model(
                            safetensors@[index as int],
                        ).dom().contains(#[trigger] names@[i]@),
                    forall|n: Seq<char>|
                        st_model(safetensors@[index as int]).dom().contains(n) ==> exists|i: int|
                            0 <= i < names@.len() && #[trigger] names@[i]@ == n,
                    forall|i: int|
                        0 <= i < routing@.len() ==> (#[trigger] routing@[i]).1 <= index
                            && st_model(safetensors@[routing@[i].1 as int]).dom().contains(
                            routing@[i].0@,
                        ),
                    forall|f: int, n: Seq<char>|
                        0 <= f < index && #[trigger] st_model(safetensors@[f]).dom().contains(n)
                            ==> routed(routing@, n),
                    forall|i: int|
                        0 <= i < k ==> routed(routing@, #[trigger] names@[i]@) && route_of(
                            routing@,
                            names@[i]@,
                        ) == index,
                    forall|n: Seq<char>|
                        #[trigger] routed(routing@, n) ==> {
                            let f = route_of(routing@, n);
                            &&& 0 <= f <= index
                            &&& st_model(safetensors@[f]).dom().contains(n)
                            &&& forall|g: int|
                                f < g < index ==> !(#[trigger] st_model(
                                    safetensors@[g],
                                ).dom().contains(n))
                        },
                decreases names@.len() - k,
            {
                let ghost routing_pre = routing@;
                let ghost pair = (names@[k as int], index);
                routing.push((names[k].clone(), index));
                proof {
                    assert(routing@ =~= routing_pre.push(
                        (routing@.last().0, index),
                    ));
                    assert(routing@.last().0@ == names@[k as int]@);
                    assert forall|n: Seq<char>| #[trigger] routed(routing@, n) implies {
                        let f = route_of(routing@, n);
                        &&& 0 <= f <= index
                        &&& st_model(safetensors@[f]).dom().contains(n)
                        &&& forall|g: int|
                            f < g < index ==> !(#[trigger] st_model(
                                safetensors@[g],
                            ).dom().contains(n))
                    } by {
                        lemma_route_of_push(routing_pre, routing@.last(), n);
                    }
                    assert forall|i: int| 0 <= i < k + 1 implies routed(
                        routing@,
                        #[trigger] names@[i]@,
                    ) && route_of(routing@, names@[i]@) == index by {
                        lemma_route_of_push(routing_pre, routing@.last(), names@[i]@);
                    }
                    assert forall|n: Seq<char>|
                        routed(routing_pre, n) implies routed(routing@, n) by {
                        lemma_route_of_push(routing_pre, routing@.last(), n);
                    }
                }
                k = k + 1;
            }
            proof {
                assert forall|n: Seq<char>| #[trigger] routed(routing@, n) implies {
                    let f = route_of(routing@, n);
                    &&& 0 <= f < index + 1
                    &&& st_model(safetensors@[f]).dom().contains(n)
                    &&& forall|g: int|
                        f < g < index + 1 ==> !(#[trigger] st_model(
                            safetensors@[g],
                        ).dom().contains(n))
                } by {
                    let f = route_of(routing@, n);
                    if f < index && st_model(safetensors@[index as int]).dom().contains(n) {
                        let i = choose|i: int|
                            0 <= i < names@.len() && #[trigger] names@[i]@ == n;
                        assert(route_of(routing@, names@[i]@) == index);
                    }
                }
            }
            index = index + 1;
        }
        proof {
            assert(forall|i: int|
                0 <= i < routing@.len() ==> (#[trigger] routing@[i]).1 < safetensors@.len());
        }
        TensorData { tensors: Tensors::SafeTensorWithRouting { routing, safetensors }, dtype, device: *device }
    }

    pub fn zeros(dtype: DType, device: &Device) -> (r: TensorData<'a>)
        ensures
            r.tensors is Zeros,
            tensors_wf(r.tensors),
            r.dtype == dtype,
            r.device == *device,
    {
        TensorData { tensors: Tensors::Zeros, dtype, device: *device }
    }

    pub fn from_tensors(tensors: Vec<(String, Tensor)>, dtype: DType, device: &Device) -> (r:
        TensorData<'a>)
        ensures
            r.tensors matches Tensors::TensorMap(ts) && ts@ == tensors@,
            tensors_wf(r.tensors),
            r.dtype == dtype,
            r.device == *device,
    {
        TensorData { tensors: Tensors::TensorMap(tensors), dtype, device: *device }
    }

    /// An archive source: the entries of a name-indexed archive, parsed by
    /// the caller. An archive supports retrieval but no byte-range slicing.
    pub fn from_npz(entries: Vec<(String, Tensor)>, dtype: DType, device: &Device) -> (r:
        TensorData<'a>)
        ensures
            r.tensors matches Tensors::Npz(ts) && ts@ == entries@,
            tensors_wf(r.tensors),
            r.dtype == dtype,
            r.device == *device,
    {
        TensorData { tensors: Tensors::Npz(entries), dtype, device: *device }
    }

    pub fn from_varmap(varmap: &VarMap, dtype: DType, device: &Device) -> (r: TensorData<'a>)
        ensures
            r.tensors is VarMap,
            tensors_wf(r.tensors),
            r.dtype == dtype,
            r.device == *device,
    {
        TensorData { tensors: Tensors::VarMap(varmap.clone()), dtype, device: *device }
    }
}

/// The consumer-facing resolver: a shared source and a path prefix.
pub struct VarBuilder<'a> {
    data: Arc<TensorData<'a>>,
    path: Vec<String>,
}

impl<'a> VarBuilder<'a> {
    #[verifier::type_invariant]
    spec fn type_inv(self) -> bool {
        tensors_wf(self.data.tensors)
    }

    /// The backing source this resolver reads.
    pub closed spec fn source(self) -> Tensors<'a> {
        self.data.tensors
    }

    /// The default element type tensors are resolved at.
    pub closed spec fn default_dtype(self) -> DType {
        self.data.dtype
    }

    /// The default device tensors are placed on.
    pub closed spec fn default_device(self) -> Device {
        self.data.device
    }

    /// The pushed prefix segments.
    pub closed spec fn prefix(self) -> Seq<Seq<char>> {
        self.path.deep_view()
    }

    /// A resolver over serialized containers, rooted at the empty prefix.
    /// The routing table is built once here by scanning every container's
    /// names; a name present in several containers resolves to the last.
    pub fn from_safetensors(
        st: Vec<safetensors::SafeTensors<'a>>,
        dtype: DType,
        device: &Device,
    ) -> (r: VarBuilder<'a>)
        ensures
            r.source() matches Tensors::SafeTensorWithRouting { safetensors: fs, routing } && fs@
                == st@ && route_last(routing@, fs@),
            tensors_wf(r.source()),
            r.default_dtype() == dtype,
            r.default_device() == *device,
            r.prefix() == Seq::<Seq<char>>::empty(),
    {
        let data = TensorData::from_safetensors(st, dtype, device);
        let r = VarBuilder { data: Arc::new(data), path: Vec::new() };
        proof {
            assert(r.prefix() =~= Seq::<Seq<char>>::empty());
        }
        r
    }

    pub fn zeros(dtype: DType, device: &Device) -> (r: VarBuilder<'a>)
        ensures
            r.source() is Zeros,
            r.default_dtype() == dtype,
            r.default_device() == *device,
            r.prefix() == Seq::<Seq<char>>::empty(),
    {
        let data = TensorData::zeros(dtype, device);
        let r = VarBuilder { data: Arc::new(data), path: Vec::new() };
        proof {
            assert(r.prefix() =~= Seq::<Seq<char>>::empty());
        }
        r
    }

    pub fn from_tensors(ts: Vec<(String, Tensor)>, dtype: DType, device: &Device) -> (r:
        VarBuilder<'a>)
        ensures
            r.source() matches Tensors::TensorMap(m) && m@ == ts@,
            r.default_dtype() == dtype,
            r.default_device() == *device,
            r.prefix() == Seq::<Seq<char>>::empty(),
    {
        let data = TensorData::from_tensors(ts, dtype, device);
        let r = VarBuilder { data: Arc::new(data), path: Vec::new() };
        proof {
            assert(r.prefix() =~= Seq::<Seq<char>>::empty());
        }
        r
    }

    pub fn from_varmap(varmap: &VarMap, dtype: DType, device: &Device) -> (r: VarBuilder<'a>)
        ensures
            r.source() is VarMap,
            r.default_dtype() == dtype,
            r.default_device() == *device,
            r.prefix() == Seq::<Seq<char>>::empty(),
    {
        let data = TensorData::from_varmap(varmap, dtype, device);
        let r = VarBuilder { data: Arc::new(data), path: Vec::new() };
        proof {
            assert(r.prefix() =~= Seq::<Seq<char>>::empty());
        }
        r
    }

    /// An archive-backed resolver over the parsed entries of a
    /// name-indexed archive; reading and parsing the archive is the
    /// caller's part.
    pub fn from_npz(entries: Vec<(String, Tensor)>, dtype: DType, device: &Device) -> (r:
        VarBuilder<'a>)
        ensures
            r.source() matches Tensors::Npz(m) && m@ == entries@,
            r.default_dtype() == dtype,
            r.default_device() == *device,
            r.prefix() == Seq::<Seq<char>>::empty(),
    {
        let data = TensorData::from_npz(entries, dtype, device);
        let r = VarBuilder { data: Arc::new(data), path: Vec::new() };
        proof {
            assert(r.prefix() =~= Seq::<Seq<char>>::empty());
        }
        r
    }

    /// A new resolver over the same source, with one more prefix segment.
    pub fn push_prefix(&self, s: &str) -> (r: VarBuilder<'a>)
        ensures
            r.source() == self.source(),
            r.default_dtype() == self.default_dtype(),
            r.default_device() == self.default_device(),
            r.prefix() == self.prefix().push(s@),
    {
        proof {
            use_type_invariant(self);
        }
        let mut path = clone_strings(&self.path);
        path.push(s.to_owned());
        let r = VarBuilder { data: self.data.clone(), path };
        proof {
            assert(r.prefix() =~= self.prefix().push(s@));
        }
        r
    }

    /// Short alias for `push_prefix`.
    pub fn pp(&self, s: &str) -> (r: VarBuilder<'a>)
        ensures
            r.source() == self.source(),
            r.default_dtype() == self.default_dtype(),
            r.default_device() == self.default_device(),
            r.prefix() == self.prefix().push(s@),
    {
        self.push_prefix(s)
    }

    pub fn device(&self) -> (r: &Device)
        ensures
            *r == self.default_device(),
    {
        &self.data.device
    }

    pub fn dtype(&self) -> (r: DType)
        ensures
            r == self.default_dtype(),
    {
        self.data.dtype
    }

    /// The effective lookup key of a request.
    fn path(&self, tensor_name: &str) -> (r: String)
        ensures
            r@ == lookup_key(self.prefix(), tensor_name@),
    {
        let ghost segs = self.path.deep_view();
        let mut acc = String::new();
        let mut i: usize = 0;
        while i < self.path.len()
            invariant
                i <= self.path@.len(),
                segs == self.path.deep_view(),
                segs.len() == self.path@.len(),
                forall|j: int| 0 <= j < segs.len() ==> segs[j] == self.path@[j]@,
                acc@ == joined_prefix(segs.subrange(0, i as int)),
            decreases self.path@.len() - i,
        {
            acc.append(self.path[i].as_str());
            acc.append(".");
            proof {
                reveal_strlit(".");
                assert(segs.subrange(0, i + 1).drop_last() =~= segs.subrange(0, i as int));
                assert(segs.subrange(0, i + 1).last() == segs[i as int]);
                assert("."@ =~= seq!['.']);
                assert(acc@ =~= joined_prefix(segs.subrange(0, i + 1)));
            }
            i = i + 1;
        }
        proof {
            assert(segs.subrange(0, segs.len() as int) =~= segs);
        }
        acc.append(tensor_name);
        acc
    }
}

/// Whether a shape's data fits in one host buffer at the given element
/// type.
pub open spec fn size_fits(shape: Seq<usize>, dtype: DType) -> bool {
    prods_fit(shape) && prod(shape) * dtype.size() <= usize::MAX
}

/// What resolution against an in-memory table returns: the first value
/// under the key if its shape is the declared one, a shape mismatch if not,
/// and a not-found failure if the key is absent.
pub open spec fn map_source_post(
    ts: Seq<(String, Tensor)>,
    key: Seq<char>,
    shape: Seq<usize>,
    r: Result<Tensor, Error>,
) -> bool {
    &&& (map_find(ts, key) is None ==> (r matches Err(e) && e matches Error::NotFound {
        path: p,
    } && p@ == key))
    &&& (map_find(ts, key) matches Some(m) ==> {
        &&& (m.shape == shape ==> (r matches Ok(t) && t@ == m))
        &&& (m.shape != shape ==> (r matches Err(e) && e matches Error::ShapeMismatch {
            path: p,
            expected,
            got,
        } && p@ == key && expected@ == shape && got@ == m.shape))
    })
}

impl<'a> VarBuilder<'a> {
    /// What `get` returns, by backing source. Every successful resolution
    /// returns a tensor whose shape equals the declared shape exactly.
    pub open spec fn get_post(
        self,
        shape: Seq<usize>,
        name: Seq<char>,
        r: Result<Tensor, Error>,
    ) -> bool {
        let key = lookup_key(self.prefix(), name);
        let dd = self.default_dtype();
        let dv = self.default_device();
        match self.source() {
            Tensors::Zeros => {
                &&& (r is Ok <==> size_fits(shape, dd))
                &&& (r matches Ok(t) ==> t@ == (TensorModel {
                    dtype: dd,
                    device: dv,
                    shape,
                    data: Seq::new((prod(shape) * dd.size()) as nat, |i: int| 0u8),
                }))
            },
            Tensors::TensorMap(ts) => map_source_post(ts@, key, shape, r),
            Tensors::Npz(ts) => map_source_post(ts@, key, shape, r),
            Tensors::VarMap(_) => {
                &&& (r matches Ok(t) ==> t@.shape == shape && t@.wf())
                &&& (r matches Err(err) ==> ((err matches Error::NotFound { path: p } && p@
                    == key) || (err matches Error::ShapeMismatch { path: p, expected, got } && p@
                    == key && expected@ == shape && got@ != shape)))
            },
            Tensors::SafeTensorWithRouting { routing, safetensors } => {
                &&& (!routed(routing@, key) ==> (r matches Err(e) && e matches Error::NotFound {
                    path: p,
                } && p@ == key))
                &&& (routed(routing@, key) ==> {
                    let e = st_model(safetensors@[route_of(routing@, key)])[key];
                    &&& (e.dtype != Some(dd) ==> (r matches Err(err)
                        && err is UnsupportedOperation))
                    &&& (e.dtype == Some(dd) && e.shape != shape ==> (r matches Err(err)
                        && err matches Error::ShapeMismatch { path: p, expected, got } && p@ == key
                        && expected@ == shape && got@ == e.shape))
                    &&& (e.dtype == Some(dd) && e.shape == shape ==> (r matches Ok(t) && t@ == (
                    TensorModel { dtype: dd, device: dv, shape, data: e.data })))
                })
            },
        }
    }

    /// Retrieve the tensor associated with the given name under the current
    /// path prefix. A zero-generator builds a fresh all-zero tensor; an
    /// in-memory table or archive returns its stored value; a variable
    /// store returns the registered value; a serialized source reads the
    /// entry at the resolver's default element type and places it on the
    /// resolver's default device. The resolved shape must equal the
    /// declared shape exactly.
    pub fn get(&self, shape: &Vec<usize>, tensor_name: &str) -> (r: Result<Tensor, Error>)
        ensures
            self.get_post(shape@, tensor_name@, r),
            r matches Ok(t) ==> t@.shape == shape@ && t@.wf(),
    {
        proof {
            use_type_invariant(self);
        }
        let key = self.path(tensor_name);
        proof {
            crate::shape::lemma_prod_nonneg(shape@);
            vstd::arithmetic::mul::lemma_mul_nonnegative(
                prod(shape@),
                self.data.dtype.size() as int,
            );
        }
        match &self.data.tensors {
            Tensors::Zeros => Tensor::zeros(shape, self.data.dtype, &self.data.device),
            Tensors::TensorMap(ts) => map_source_get(ts, &key, shape),
            Tensors::Npz(ts) => map_source_get(ts, &key, shape),
            Tensors::VarMap(vm) => {
                match vm.lookup(key.as_str()) {
                    Some(t) => {
                        if crate::shape::dims_eq(t.shape(), shape) {
                            Ok(t)
                        } else {
                            let got = crate::tensor::copy_dims(t.shape());
                            Err(
                                Error::ShapeMismatch {
                                    path: key,
                                    expected: copy_dims(shape),
                                    got,
                                },
                            )
                        }
                    },
                    None => Err(Error::NotFound { path: key }),
                }
            },
            Tensors::SafeTensorWithRouting { routing, safetensors } => {
                let f = match route_find(routing, &key) {
                    Some(f) => f,
                    None => {
                        return Err(Error::NotFound { path: key });
                    },
                };
                proof {
                    lemma_route_of_is_entry(routing@, key@);
                }
                let view = match crate::stfile::st_tensor(&safetensors[f], key.as_str()) {
                    Some(v) => v,
                    None => {
                        proof {
                            assert(false);
                        }
                        return Err(Error::NotFound { path: key });
                    },
                };
                let d = match crate::stfile::view_dtype(&view) {
                    Some(d) => d,
                    None => {
                        return Err(
                            Error::UnsupportedOperation {
                                reason: "stored element type is not carried by this crate"
                                    .to_owned(),
                            },
                        );
                    },
                };
                if d != self.data.dtype {
                    return Err(
                        Error::UnsupportedOperation {
                            reason: "stored element type differs from the resolver's".to_owned(),
                        },
                    );
                }
                let vshape = crate::stfile::view_shape(&view);
                if !crate::shape::dims_eq(&vshape, shape) {
                    return Err(
                        Error::ShapeMismatch { path: key, expected: copy_dims(shape), got: vshape },
                    );
                }
                let bytes = crate::stfile::view_data(&view);
                match Tensor::from_raw_buffer(
                    vstd::slice::slice_to_vec(bytes),
                    d,
                    shape,
                    &self.data.device,
                ) {
                    Ok(t) => Ok(t),
                    Err(e) => {
                        proof {
                            assert(false);
                        }
                        Err(e)
                    },
                }
            },
        }
    }

    /// Retrieve the tensor associated with the given name, or initialize a
    /// new one under the policy if it is missing. Initialization is only
    /// available against a variable-store backing; on every other source
    /// this is `get`.
    pub fn get_or_init(&self, shape: &Vec<usize>, tensor_name: &str, init: Init) -> (r: Result<
        Tensor,
        Error,
    >)
        ensures
            !(self.source() is VarMap) ==> self.get_post(shape@, tensor_name@, r),
            self.source() is VarMap ==> (r matches Err(e) ==> ((e matches Error::ShapeMismatch {
                path: p,
                expected,
                got,
            } && p@ == lookup_key(self.prefix(), tensor_name@) && expected@ == shape@ && got@
                != shape@) || e is UnsupportedOperation)),
            r matches Ok(t) ==> t@.shape == shape@ && t@.wf(),
    {
        proof {
            use_type_invariant(self);
        }
        match &self.data.tensors {
            Tensors::VarMap(vm) => {
                let key = self.path(tensor_name);
                vm.get(shape, key.as_str(), init, self.data.dtype, &self.data.device)
            },
            _ => self.get(shape, tensor_name),
        }
    }
}

impl<'a> VarBuilder<'a> {
    /// What `get_sharded` returns. Only the routed serialized-file backing
    /// supports sharded reads; on it, the named entry is cut along the
    /// dimension into `world_size` equal block ranges and the `rank`-th
    /// range is gathered, row by row, into a tensor of the original shape
    /// with the sharded extent divided.
    pub open spec fn get_sharded_post(
        self,
        name: Seq<char>,
        dim: int,
        rank: int,
        world_size: int,
        r: Result<Tensor, Error>,
    ) -> bool {
        match self.source() {
            Tensors::SafeTensorWithRouting { routing, safetensors } => {
                let key = lookup_key(self.prefix(), name);
                &&& (!routed(routing@, key) ==> (r matches Err(e) && e matches Error::NotFound {
                    path: p,
                } && p@ == key))
                &&& (routed(routing@, key) ==> {
                    let e = st_model(safetensors@[route_of(routing@, key)])[key];
                    &&& (dim >= e.shape.len() ==> (r matches Err(err)
                        && err is UnsupportedOperation))
                    &&& (dim < e.shape.len() ==> {
                        let size = e.shape[dim] as int;
                        let b = size / world_size;
                        &&& (size % world_size != 0 ==> (r matches Err(err)
                            && err matches Error::ShapeMismatchSplit { shape: sh, dim: d, n_parts }
                            && sh@ == e.shape && d == dim && n_parts == world_size))
                        &&& (size % world_size == 0 && dim > 1 ==> (r matches Err(err)
                            && err is UnsupportedOperation))
                        &&& (size % world_size == 0 && dim <= 1 && e.dtype is None ==> (
                        r matches Err(err) && err is UnsupportedOperation))
                        &&& (size % world_size == 0 && dim <= 1 ==> (e.dtype matches Some(d) ==> (
                        r matches Ok(t) && t@ == (TensorModel {
                            dtype: d,
                            device: self.default_device(),
                            shape: e.shape.update(dim, b as usize),
                            data: gather(
                                e.data,
                                prod(e.shape.subrange(0, dim)),
                                size,
                                prod(e.shape.subrange(dim + 1, e.shape.len() as int)) * d.size(),
                                rank * b,
                                (rank + 1) * b,
                            ),
                        }))))
                    })
                })
            },
            _ => (r matches Err(err) && err is UnsupportedOperation),
        }
    }

    /// Get part of a tensor, typically used to do tensor parallelism
    /// sharding: the `rank`-th of `world_size` equal partitions of the
    /// named entry along dimension `dim`, read from the serialized bytes
    /// without materializing the whole tensor. The extent along `dim` must
    /// divide evenly; nothing is read before that is checked.
    pub fn get_sharded(&self, tensor_name: &str, dim: usize, rank: usize, world_size: usize) -> (r:
        Result<Tensor, Error>)
        requires
            rank < world_size,
        ensures
            self.get_sharded_post(
                tensor_name@,
                dim as int,
                rank as int,
                world_size as int,
                r,
            ),
    {
        proof {
            use_type_invariant(self);
        }
        let (routing, safetensors) = match &self.data.tensors {
            Tensors::SafeTensorWithRouting { routing, safetensors } => (routing, safetensors),
            _ => {
                return Err(
                    Error::UnsupportedOperation {
                        reason: "sharded reads need a serialized-file backing".to_owned(),
                    },
                );
            },
        };
        let key = self.path(tensor_name);
        let f = match route_find(routing, &key) {
            Some(f) => f,
            None => {
                return Err(Error::NotFound { path: key });
            },
        };
        proof {
            lemma_route_of_is_entry(routing@, key@);
        }
        let view = match crate::stfile::st_tensor(&safetensors[f], key.as_str()) {
            Some(v) => v,
            None => {
                proof {
                    assert(false);
                }
                return Err(Error::NotFound { path: key });
            },
        };
        let ghost e = tv_entry(view);
        let vshape = crate::stfile::view_shape(&view);
        if dim >= vshape.len() {
            return Err(
                Error::UnsupportedOperation {
                    reason: "sharding dimension exceeds the tensor's rank".to_owned(),
                },
            );
        }
        let size = vshape[dim];
        if size % world_size != 0 {
            return Err(Error::ShapeMismatchSplit { shape: vshape, dim, n_parts: world_size });
        }
        let block_size = size / world_size;
        proof {
            vstd::arithmetic::div_mod::lemma_fundamental_div_mod(size as int, world_size as int);
            assert(world_size * block_size == size);
            assert(rank * block_size + block_size <= size) by (nonlinear_arith)
                requires
                    rank < world_size,
                    world_size * block_size == size,
                    block_size >= 0,
            ;
            assert(0 <= rank * block_size) by (nonlinear_arith)
                requires
                    rank >= 0,
                    block_size >= 0,
            ;
        }
        let start = rank * block_size;
        let stop = start + block_size;
        proof {
            assert((rank as int + 1) * (block_size as int) == rank as int * (block_size as int)
                + block_size as int) by (nonlinear_arith);
        }
        if dim > 1 {
            return Err(
                Error::UnsupportedOperation {
                    reason: "sharding is supported along the first two dimensions only".to_owned(),
                },
            );
        }
        let dtype = match crate::stfile::view_dtype(&view) {
            Some(d) => d,
            None => {
                return Err(
                    Error::UnsupportedOperation {
                        reason: "stored element type is not carried by this crate".to_owned(),
                    },
                );
            },
        };
        let bytes = crate::stfile::view_data(&view);
        let z = dtype.size_in_bytes();
        let total = bytes.len();
        let rows: usize = if dim == 0 {
            1
        } else {
            vshape[0]
        };
        let cols: usize = size;
        let tail = tail_from(&vshape, dim + 1);
        let ghost dd = dim as int;
        let ghost suf = prod(e.shape.subrange(dd + 1, e.shape.len() as int));
        let ghost pre = prod(e.shape.subrange(0, dd));
        proof {
            crate::shape::lemma_prod_decompose(e.shape, dd);
            assert(prod(Seq::<usize>::empty()) == 1);
            if dim == 1 {
                assert(e.shape.subrange(0, 1).drop_last() =~= Seq::<usize>::empty());
                assert(e.shape.subrange(0, 1).last() == e.shape[0]);
                assert(prod(e.shape.subrange(0, 1)) == e.shape[0]);
            } else {
                assert(e.shape.subrange(0, 0) =~= Seq::<usize>::empty());
            }
            assert(rows == pre);
            crate::shape::lemma_prod_nonneg(e.shape.subrange(0, dd));
            crate::shape::lemma_prod_nonneg(e.shape.subrange(dd + 1, e.shape.len() as int));
            assert(rows * cols == prod(e.shape.subrange(0, dd + 1)));
            assert(prod(e.shape.subrange(0, dd + 1)) <= usize::MAX);
        }
        let blk_opt = byte_count(&tail, z);
        let blk: usize = match blk_opt {
            Some(x) => x,
            None => 0,
        };
        let ghost blk_spec = suf * z;
        proof {
            assert(total == pre * (size as int) * suf * z) by (nonlinear_arith)
                requires
                    total == prod(e.shape) * z,
                    prod(e.shape) == pre * (e.shape[dd] as int) * suf,
                    size == e.shape[dd],
            ;
        }
        proof {
            if blk_opt is None && total != 0 {
                if prod(e.shape.subrange(0, dd + 1)) >= 1 {
                    crate::shape::lemma_suffix_fits(e.shape, dd + 1, z as nat, total as int);
                    assert(false);
                }
                crate::shape::lemma_prod_nonneg(e.shape.subrange(0, dd + 1));
                assert(rows * cols == 0);
                assert(false) by (nonlinear_arith)
                    requires
                        total == pre * (size as int) * suf * z,
                        rows as int * cols as int == 0,
                        rows == pre,
                        cols == size,
                        total > 0,
                ;
            }
            if blk_opt is Some {
                assert(blk == suf * z);
                assert(total == rows * cols * blk) by (nonlinear_arith)
                    requires
                        total == pre * (size as int) * suf * z,
                        rows == pre,
                        cols == size,
                        blk == suf * z,
                ;
            } else {
                assert(total == rows * cols * blk) by (nonlinear_arith)
                    requires
                        total == 0,
                        blk == 0,
                ;
            }
        }
        let raw = crate::shard::gather_bytes(bytes, rows, cols, blk, start, stop);
        let ghost out_dims = e.shape.update(dd, block_size as usize);
        proof {
            assert(block_size <= size) by (nonlinear_arith)
                requires
                    world_size * block_size == size,
                    world_size >= 1,
                    block_size >= 0,
            ;
            crate::shape::lemma_prods_fit_update(e.shape, dd, block_size);
            crate::shape::lemma_prod_decompose(out_dims, dd);
            assert(out_dims.subrange(0, dd) =~= e.shape.subrange(0, dd));
            assert(out_dims.subrange(dd + 1, out_dims.len() as int) =~= e.shape.subrange(
                dd + 1,
                e.shape.len() as int,
            ));
            assert(prod(out_dims) == pre * (block_size as int) * suf);
            crate::shard::lemma_gather_len(
                e.data,
                rows as int,
                cols as int,
                blk as int,
                start as int,
                stop as int,
            );
            assert(raw@.len() == rows * (block_size as int) * blk);
            if blk as int == blk_spec {
                assert(prod(out_dims) * z == rows * (block_size as int) * blk)
                    by (nonlinear_arith)
                    requires
                        prod(out_dims) == pre * (block_size as int) * suf,
                        rows == pre,
                        blk == suf * z,
                ;
            } else {
                assert(blk == 0 && total == 0);
                crate::shard::lemma_gather_zero_blk(
                    e.data,
                    rows as int,
                    cols as int,
                    start as int,
                    stop as int,
                );
                assert(rows as int * cols as int == 0 || suf * z == 0) by (nonlinear_arith)
                    requires
                        total == 0,
                        total == pre * (size as int) * suf * z,
                        rows == pre,
                        cols == size,
                        0 <= pre,
                        0 <= size,
                        0 <= suf,
                        0 <= z,
                ;
                if rows as int == 0 {
                    assert(gather(e.data, rows as int, cols as int, blk_spec, start as int, stop as int)
                        == Seq::<u8>::empty());
                } else {
                    assert(cols == 0) by (nonlinear_arith)
                        requires
                            rows as int * cols as int == 0,
                            rows as int > 0,
                            cols as int >= 0,
                    ;
                    assert(block_size == 0) by (nonlinear_arith)
                        requires
                            world_size * block_size == size,
                            size == 0,
                            world_size >= 1,
                            block_size >= 0,
                    ;
                    assert(start == 0) by (nonlinear_arith)
                        requires
                            start == rank * block_size,
                            block_size == 0,
                    ;
                    assert(e.data.len() == rows as int * cols as int * blk_spec)
                        by (nonlinear_arith)
                        requires
                            e.data.len() == 0,
                            cols as int == 0,
                    ;
                    crate::shard::lemma_gather_empty_range(
                        e.data,
                        rows as int,
                        cols as int,
                        blk_spec,
                    );
                }
                assert(raw@ == gather(
                    e.data,
                    rows as int,
                    cols as int,
                    blk_spec,
                    start as int,
                    stop as int,
                ));
                assert(prod(out_dims) * z == 0) by (nonlinear_arith)
                    requires
                        prod(out_dims) == pre * (block_size as int) * suf,
                        rows == pre,
                        rows as int * cols as int == 0 || suf * z == 0,
                        world_size as int * block_size as int == size as int,
                        world_size as int >= 1,
                        cols == size,
                        0 <= pre,
                        0 <= suf,
                        0 <= z,
                        0 <= block_size,
                ;
                assert(rows * (block_size as int) * blk == 0) by (nonlinear_arith)
                    requires
                        blk == 0,
                ;
            }
        }
        let mut out_shape = vshape;
        out_shape[dim] = block_size;
        proof {
            assert(out_shape@ =~= out_dims);
        }
        match Tensor::from_raw_buffer(raw, dtype, &out_shape, &self.data.device) {
            Ok(t) => Ok(t),
            Err(err) => {
                proof {
                    assert(false);
                }
                Err(err)
            },
        }
    }
}

/// The extents after a position.
fn tail_from(v: &Vec<usize>, k: usize) -> (r: Vec<usize>)
    requires
        k <= v@.len(),
    ensures
        r@ == v@.subrange(k as int, v@.len() as int),
{
    let mut r: Vec<usize> = Vec::new();
    let mut i: usize = k;
    while i < v.len()
        invariant
            k <= i <= v@.len(),
            r@ == v@.subrange(k as int, i as int),
        decreases v@.len() - i,
    {
        r.push(v[i]);
        proof {
            assert(r@ =~= v@.subrange(k as int, i + 1));
        }
        i = i + 1;
    }
    proof {
        assert(r@ =~= v@.subrange(k as int, v@.len() as int));
    }
    r
}

/// Resolution against an in-memory table: first match wins.
fn map_source_get(ts: &Vec<(String, Tensor)>, key: &String, shape: &Vec<usize>) -> (r: Result<
    Tensor,
    Error,
>)
    ensures
        map_source_post(ts@, key@, shape@, r),
        r matches Ok(t) ==> t@.shape == shape@ && t@.wf(),
{
    let n = ts.len();
    proof {
        assert(ts@.subrange(0, n as int) =~= ts@);
    }
    let mut i: usize = 0;
    while i < n
        invariant
            i <= n,
            n == ts@.len(),
            map_find(ts@, key@) == map_find(ts@.subrange(i as int, n as int), key@),
            forall|j: int| 0 <= j < i ==> (#[trigger] ts@[j]).0@ != key@,
        decreases n - i,
    {
        proof {
            assert(ts@.subrange(i as int, n as int).first() == ts@[i as int]);
            assert(ts@.subrange(i as int, n as int).drop_first() =~= ts@.subrange(
                i + 1,
                n as int,
            ));
        }
        if ts[i].0 == *key {
            let t = &ts[i].1;
            if crate::shape::dims_eq(t.shape(), shape) {
                return Ok(t.clone());
            } else {
                let got = crate::tensor::copy_dims(t.shape());
                return Err(
                    Error::ShapeMismatch { path: key.clone(), expected: copy_dims(shape), got },
                );
            }
        }
        i = i + 1;
    }
    proof {
        assert(ts@.subrange(n as int, n as int).len() == 0);
    }
    Err(Error::NotFound { path: key.clone() })
}

/// The container a key routes to, scanning from the end so that later
/// containers override earlier ones.
fn route_find(routing: &Vec<(String, usize)>, key: &String) -> (r: Option<usize>)
    ensures
        r matches Some(f) ==> routed(routing@, key@) && f as int == route_of(routing@, key@),
        r is None ==> !routed(routing@, key@),
{
    let mut i: usize = routing.len();
    proof {
        assert(routing@.subrange(0, routing@.len() as int) =~= routing@);
    }
    while i > 0
        invariant
            i <= routing@.len(),
            route_of(routing@, key@) == route_of(routing@.subrange(0, i as int), key@),
            forall|j: int| i <= j < routing@.len() ==> (#[trigger] routing@[j]).0@ != key@,
        decreases i,
    {
        i = i - 1;
        proof {
            assert(routing@.subrange(0, i + 1).drop_last() =~= routing@.subrange(0, i as int));
            assert(routing@.subrange(0, i + 1).last() == routing@[i as int]);
        }
        if routing[i].0 == *key {
            return Some(routing[i].1);
        }
    }
    proof {
        assert(routing@.subrange(0, 0).len() == 0);
        if routed(routing@, key@) {
            let j = choose|j: int| 0 <= j < routing@.len() && routing@[j].0@ == key@;
            assert(routing@[j].0@ != key@);
        }
    }
    None
}

/// A fresh copy of a list of segments.
fn clone_strings(v: &Vec<String>) -> (r: Vec<String>)
    ensures
        r.deep_view() == v.deep_view(),
{
    let mut r: Vec<String> = Vec::new();
    let mut i: usize = 0;
    while i < v.len()
        invariant
            i <= v@.len(),
            r@.len() == i,
            forall|j: int| 0 <= j < i ==> r@[j]@ == v@[j]@,
        decreases v@.len() - i,
    {
        r.push(v[i].clone());
        i = i + 1;
    }
    proof {
        assert(r.deep_view() =~= v.deep_view());
    }
    r
}

} // verus!
