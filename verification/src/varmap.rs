//! A concurrent registry of mutable named tensors.
//!
//! The data of a store is a list of name/variable pairs with distinct names;
//! [`VarMapData`] carries the full contracts of every operation, and
//! [`VarMap`] guards one such value behind a reference-counted
//! reader-writer lock, so cloning a store handle shares its state.

use vstd::prelude::*;
use vstd::rwlock::{RwLock, RwLockPredicate};
use std::sync::Arc;
use crate::dtype::DType;
use crate::device::Device;
use crate::error::Error;
use crate::init::Init;
use crate::stfile::{st_file, st_model, tv_entry, StEntry};
use crate::tensor::{copy_dims, Tensor, TensorModel};
use crate::variable::Variable;

verus! {

/// The registered variables: name/variable pairs with distinct names.
/// Entries are only ever appended; nothing removes a name.
pub struct VarMapData {
    pub entries: Vec<(String, Variable)>,
}

impl VarMapData {
    /// Names are distinct.
    pub open spec fn wf(self) -> bool {
        forall|i: int, j: int|
            0 <= i < j < self.entries@.len() ==> self.entries@[i].0@ != self.entries@[j].0@
    }

    /// Whether a name is registered.
    pub open spec fn contains_name(self, n: Seq<char>) -> bool {
        exists|i: int| 0 <= i < self.entries@.len() && self.entries@[i].0@ == n
    }

    /// The position of a registered name.
    pub open spec fn idx_of(self, n: Seq<char>) -> int {
        choose|i: int| 0 <= i < self.entries@.len() && self.entries@[i].0@ == n
    }

    /// The current value of the variable registered under a name.
    pub open spec fn value_at(self, n: Seq<char>) -> TensorModel {
        self.entries@[self.idx_of(n)].1@
    }

    pub proof fn lemma_idx_of(self, i: int, n: Seq<char>)
        requires
            self.wf(),
            0 <= i < self.entries@.len(),
            self.entries@[i].0@ == n,
        ensures
            self.idx_of(n) == i,
            self.contains_name(n),
    {
        let j = self.idx_of(n);
        assert(0 <= j < self.entries@.len() && self.entries@[j].0@ == n);
        if i != j {
            assert(self.entries@[i].0@ != self.entries@[j].0@);
        }
    }

    /// The position of a name, by linear scan.
    fn find(&self, key: &String) -> (r: Option<usize>)
        requires
            self.wf(),
        ensures
            r matches Some(i) ==> 0 <= i < self.entries@.len() && self.entries@[i as int].0@
                == key@ && self.contains_name(key@) && self.idx_of(key@) == i,
            r is None ==> !self.contains_name(key@),
    {
        let mut i: usize = 0;
        while i < self.entries.len()
            invariant
                i <= self.entries@.len(),
                self.wf(),
                forall|j: int| 0 <= j < i ==> self.entries@[j].0@ != key@,
            decreases self.entries@.len() - i,
        {
            if self.entries[i].0 == *key {
                proof {
                    self.lemma_idx_of(i as int, key@);
                }
                return Some(i);
            }
            i = i + 1;
        }
        None
    }

    /// Retrieve or add a new variable.
    ///
    /// A registered name is re-fetched: the declared shape must equal the
    /// stored one, and a disagreement changes nothing. A missing name is
    /// materialized under the policy, registered, and its value returned;
    /// this is the only path that creates entries.
    pub fn get_or_create(
        &mut self,
        shape: &Vec<usize>,
        path: &str,
        init: Init,
        dtype: DType,
        device: &Device,
    ) -> (r: Result<Tensor, Error>)
        requires
            old(self).wf(),
        ensures
            final(self).wf(),
            old(self).contains_name(path@) && old(self).value_at(path@).shape == shape@ ==> (
            r matches Ok(t) && t@ == old(self).value_at(path@) && *final(self) == *old(self)),
            old(self).contains_name(path@) && old(self).value_at(path@).shape != shape@ ==> (
            r matches Err(e) && (e matches Error::ShapeMismatch { path: p, expected, got }
                && p@ == path@ && expected@ == shape@ && got@ == old(self).value_at(path@).shape)
                && *final(self) == *old(self)),
            !old(self).contains_name(path@) ==> {
                &&& r is Ok <==> crate::shape::prods_fit(shape@) && crate::shape::prod(shape@)
                    * dtype.size() <= usize::MAX
                &&& r is Err ==> *final(self) == *old(self)
                &&& r matches Err(e) ==> e is UnsupportedOperation
                &&& r matches Ok(t) ==> {
                    &&& t@.shape == shape@
                    &&& t@.dtype == dtype
                    &&& t@.device == *device
                    &&& init is Zeros ==> t@.data == Seq::new(
                        (crate::shape::prod(shape@) * dtype.size()) as nat,
                        |i: int| 0u8,
                    )
                    &&& init is Ones ==> t@.data == crate::device::repeated(
                        crate::device::one_bytes(dtype),
                        crate::shape::prod(shape@) as nat,
                    )
                    &&& final(self).entries@.len() == old(self).entries@.len() + 1
                    &&& final(self).entries@.subrange(0, old(self).entries@.len() as int) == old(
                        self,
                    ).entries@
                    &&& final(self).entries@.last().0@ == path@
                    &&& final(self).entries@.last().1@ == t@
                    &&& final(self).contains_name(path@)
                    &&& final(self).value_at(path@) == t@
                }
            },
            r matches Ok(t) ==> t@.shape == shape@ && t@.wf(),
    {
        let key: String = path.to_owned();
        match self.find(&key) {
            Some(i) => {
                let t = self.entries[i].1.as_tensor();
                if crate::shape::dims_eq(shape, t.shape()) {
                    Ok(t.clone())
                } else {
                    Err(
                        Error::ShapeMismatch {
                            path: key,
                            expected: copy_dims(shape),
                            got: copy_dims(t.shape()),
                        },
                    )
                }
            },
            None => {
                let var = init.var(shape, dtype, device)?;
                let tensor = var.as_tensor().clone();
                self.entries.push((key, var));
                proof {
                    let n = self.entries@.len();
                    assert(self.entries@.subrange(0, n - 1) =~= old(self).entries@);
                    assert forall|i: int, j: int|
                        0 <= i < j < n implies self.entries@[i].0@ != self.entries@[j].0@ by {
                        if j < n - 1 {
                            assert(old(self).entries@[i].0@ != old(self).entries@[j].0@);
                        } else {
                            assert(self.entries@[j].0@ == path@);
                            assert(!old(self).contains_name(path@));
                        }
                    }
                    self.lemma_idx_of(n - 1, path@);
                }
                Ok(tensor)
            },
        }
    }

    /// The current value under a name, without creating anything.
    pub fn lookup(&self, key: &String) -> (r: Option<Tensor>)
        requires
            self.wf(),
        ensures
            r matches Some(t) ==> self.contains_name(key@) && t@ == self.value_at(key@)
                && t@.wf(),
            r is None ==> !self.contains_name(key@),
    {
        match self.find(key) {
            Some(i) => Some(self.entries[i].1.as_tensor().clone()),
            None => None,
        }
    }

    /// A snapshot of the registered variables, in registration order.
    pub fn all_vars(&self) -> (r: Vec<Variable>)
        ensures
            r@.len() == self.entries@.len(),
            forall|i: int| 0 <= i < r@.len() ==> r@[i]@ == self.entries@[i].1@,
    {
        let mut out: Vec<Variable> = Vec::new();
        let mut i: usize = 0;
        while i < self.entries.len()
            invariant
                i <= self.entries@.len(),
                out@.len() == i,
                forall|j: int| 0 <= j < i ==> out@[j]@ == self.entries@[j].1@,
            decreases self.entries@.len() - i,
        {
            out.push(self.entries[i].1.clone());
            i = i + 1;
        }
        out
    }

    /// What the store's contents say a serialized file of it must hold.
    pub open spec fn snapshot(s: Seq<(String, Variable)>) -> Map<Seq<char>, StEntry>
        decreases s.len(),
    {
        if s.len() == 0 {
            Map::empty()
        } else {
            Self::snapshot(s.drop_last()).insert(
                s.last().0@,
                StEntry {
                    dtype: Some(s.last().1@.dtype),
                    shape: s.last().1@.shape,
                    data: s.last().1@.data,
                },
            )
        }
    }

    /// The total data length of a list of entries.
    pub open spec fn entries_data_len(s: Seq<(String, Variable)>) -> int
        decreases s.len(),
    {
        if s.len() == 0 {
            0
        } else {
            Self::entries_data_len(s.drop_last()) + s.last().1@.data.len()
        }
    }

    proof fn lemma_entries_len_monotone(s: Seq<(String, Variable)>, k: int)
        requires
            0 <= k <= s.len(),
        ensures
            Self::entries_data_len(s.subrange(0, k)) <= Self::entries_data_len(s),
        decreases s.len(),
    {
        if k == s.len() {
            assert(s.subrange(0, k) =~= s);
        } else {
            assert(s.drop_last().subrange(0, k) =~= s.subrange(0, k));
            Self::lemma_entries_len_monotone(s.drop_last(), k);
        }
    }

    /// Whether a store's contents can be persisted: no path uses the header
    /// key the format reserves for its file-level string map, every tensor
    /// and their total stay within the byte gates, and the format itself
    /// accepts the contents.
    pub open spec fn saveable(s: Seq<(String, Variable)>) -> bool {
        &&& forall|i: int| 0 <= i < s.len() ==> (#[trigger] s[i]).0@ != "__metadata__"@
        &&& forall|i: int| 0 <= i < s.len() ==> (#[trigger] s[i]).1@.data.len() <= usize::MAX / 8
        &&& Self::entries_data_len(s) <= usize::MAX / 4
        &&& crate::stfile::st_serialize_ok(Self::snapshot(s))
    }

    /// Serialize every registered variable's path and current value into
    /// the external persisted format, as one byte buffer. This succeeds
    /// exactly when the contents are saveable; nothing else decides.
    pub fn save_to_bytes(&self) -> (r: Result<Vec<u8>, Error>)
        requires
            self.wf(),
        ensures
            r is Ok <==> Self::saveable(self.entries@),
            r matches Ok(b) ==> st_file(b@) == Some(Self::snapshot(self.entries@)),
            r matches Err(e) ==> (e is UnsupportedOperation || e is Io),
    {
        let reserved: String = "__metadata__".to_owned();
        let mut pairs: Vec<(String, safetensors::tensor::TensorView<'_>)> = Vec::new();
        let mut total: usize = 0;
        let mut i: usize = 0;
        while i < self.entries.len()
            invariant
                i <= self.entries@.len(),
                self.wf(),
                reserved@ == "__metadata__"@,
                pairs@.len() == i,
                forall|j: int|
                    0 <= j < i ==> (#[trigger] pairs@[j]).0@ == self.entries@[j].0@ && tv_entry(
                        pairs@[j].1,
                    ) == (StEntry {
                        dtype: Some(self.entries@[j].1@.dtype),
                        shape: self.entries@[j].1@.shape,
                        data: self.entries@[j].1@.data,
                    }),
                forall|j: int|
                    0 <= j < i ==> (#[trigger] self.entries@[j]).0@ != "__metadata__"@,
                forall|j: int|
                    0 <= j < i ==> (#[trigger] self.entries@[j]).1@.data.len() <= usize::MAX / 8,
                crate::stfile::views_data_len(pairs@) == total,
                Self::entries_data_len(self.entries@.subrange(0, i as int)) == total,
                total <= usize::MAX / 4,
            decreases self.entries@.len() - i,
        {
            proof {
                assert(self.entries@.subrange(0, i + 1).drop_last() =~= self.entries@.subrange(
                    0,
                    i as int,
                ));
                assert(self.entries@.subrange(0, i + 1).last() == self.entries@[i as int]);
            }
            if self.entries[i].0 == reserved {
                return Err(
                    Error::UnsupportedOperation {
                        reason: "the path __metadata__ is reserved by the persisted format"
                            .to_owned(),
                    },
                );
            }
            let t = self.entries[i].1.as_tensor();
            let data = t.data();
            if data.len() > usize::MAX / 8 {
                return Err(
                    Error::UnsupportedOperation {
                        reason: "tensor too large to serialize".to_owned(),
                    },
                );
            }
            total = match total.checked_add(data.len()) {
                Some(x) if x <= usize::MAX / 4 => x,
                _ => {
                    proof {
                        Self::lemma_entries_len_monotone(self.entries@, i + 1);
                    }
                    return Err(
                        Error::UnsupportedOperation {
                            reason: "store too large to serialize".to_owned(),
                        },
                    );
                },
            };
            let view = crate::stfile::tv_new(t.dtype(), t.shape(), data.as_slice());
            let ghost pairs_pre = pairs@;
            pairs.push((self.entries[i].0.clone(), view));
            proof {
                assert(pairs@.drop_last() =~= pairs_pre);
            }
            i = i + 1;
        }
        proof {
            assert(self.entries@.subrange(0, self.entries@.len() as int) =~= self.entries@);
            assert(pairs@.len() == self.entries@.len());
            Self::lemma_views_snapshot(pairs@, self.entries@);
        }
        match crate::stfile::st_serialize(pairs) {
            Ok(b) => Ok(b),
            Err(s) => Err(Error::Io { reason: s }),
        }
    }

    proof fn lemma_views_snapshot(
        pairs: Seq<(String, safetensors::tensor::TensorView<'_>)>,
        entries: Seq<(String, Variable)>,
    )
        requires
            pairs.len() == entries.len(),
            forall|j: int|
                0 <= j < pairs.len() ==> (#[trigger] pairs[j]).0@ == entries[j].0@ && tv_entry(
                    pairs[j].1,
                ) == (StEntry {
                    dtype: Some(entries[j].1@.dtype),
                    shape: entries[j].1@.shape,
                    data: entries[j].1@.data,
                }),
        ensures
            crate::stfile::views_map(pairs) == Self::snapshot(entries),
        decreases pairs.len(),
    {
        if pairs.len() > 0 {
            Self::lemma_views_snapshot(pairs.drop_last(), entries.drop_last());
        }
    }

    proof fn lemma_snapshot_at(s: Seq<(String, Variable)>, i: int)
        requires
            forall|p: int, q: int|
                0 <= p < q < s.len() ==> (#[trigger] s[p]).0@ != (#[trigger] s[q]).0@,
            0 <= i < s.len(),
        ensures
            Self::snapshot(s).dom().contains(s[i].0@),
            Self::snapshot(s)[s[i].0@] == (StEntry {
                dtype: Some(s[i].1@.dtype),
                shape: s[i].1@.shape,
                data: s[i].1@.data,
            }),
        decreases s.len(),
    {
        if i == s.len() - 1 {
        } else {
            assert(forall|p: int, q: int|
                0 <= p < q < s.drop_last().len() ==> (#[trigger] s.drop_last()[p]).0@ != (
                #[trigger] s.drop_last()[q]).0@);
            Self::lemma_snapshot_at(s.drop_last(), i);
            assert(s.drop_last()[i] == s[i]);
            assert(s[i].0@ != s.last().0@);
        }
    }

    /// Saving a store and loading the result back restores every variable
    /// to its current value: the persisted snapshot holds, under every
    /// registered path, an entry of the variable's own element type, shape
    /// and bytes, so loading it succeeds and is the identity on every
    /// variable.
    pub proof fn lemma_save_load_round_trip(data: VarMapData)
        requires
            data.wf(),
        ensures
            forall|i: int|
                0 <= i < data.entries@.len() ==> Self::entry_ok(
                    Self::snapshot(data.entries@),
                    (#[trigger] data.entries@[i]).0@,
                    data.entries@[i].1@,
                ) && Self::loaded(
                    Self::snapshot(data.entries@),
                    data.entries@[i].0@,
                    data.entries@[i].1@,
                ) == data.entries@[i].1@,
    {
        assert forall|i: int| 0 <= i < data.entries@.len() implies Self::entry_ok(
            Self::snapshot(data.entries@),
            (#[trigger] data.entries@[i]).0@,
            data.entries@[i].1@,
        ) && Self::loaded(
            Self::snapshot(data.entries@),
            data.entries@[i].0@,
            data.entries@[i].1@,
        ) == data.entries@[i].1@ by {
            Self::lemma_snapshot_at(data.entries@, i);
        }
    }

    /// The persisted snapshot of a source store restores any store that is
    /// pre-populated with the same names at the same shapes and element
    /// types: every such variable is restorable from it, and restoring
    /// gives it the source's bytes on its own device.
    pub proof fn lemma_snapshot_load_compat(target: VarMapData, source: VarMapData)
        requires
            target.wf(),
            source.wf(),
            forall|i: int|
                0 <= i < target.entries@.len() ==> {
                    &&& source.contains_name((#[trigger] target.entries@[i]).0@)
                    &&& source.value_at(target.entries@[i].0@).dtype
                        == target.entries@[i].1@.dtype
                    &&& source.value_at(target.entries@[i].0@).shape
                        == target.entries@[i].1@.shape
                },
        ensures
            forall|i: int|
                0 <= i < target.entries@.len() ==> {
                    let m = Self::snapshot(source.entries@);
                    let n = (#[trigger] target.entries@[i]).0@;
                    &&& Self::entry_ok(m, n, target.entries@[i].1@)
                    &&& Self::loaded(m, n, target.entries@[i].1@) == (TensorModel {
                        dtype: target.entries@[i].1@.dtype,
                        device: target.entries@[i].1@.device,
                        shape: target.entries@[i].1@.shape,
                        data: source.value_at(n).data,
                    })
                },
    {
        assert forall|i: int| 0 <= i < target.entries@.len() implies {
            let m = Self::snapshot(source.entries@);
            let n = (#[trigger] target.entries@[i]).0@;
            &&& Self::entry_ok(m, n, target.entries@[i].1@)
            &&& Self::loaded(m, n, target.entries@[i].1@) == (TensorModel {
                dtype: target.entries@[i].1@.dtype,
                device: target.entries@[i].1@.device,
                shape: target.entries@[i].1@.shape,
                data: source.value_at(n).data,
            })
        } by {
            let n = target.entries@[i].0@;
            let j = source.idx_of(n);
            assert(0 <= j < source.entries@.len() && source.entries@[j].0@ == n);
            Self::lemma_snapshot_at(source.entries@, j);
        }
    }

    /// Whether one registered variable can be restored from a file's
    /// contents: its name is present with the variable's element type and
    /// shape.
    pub open spec fn entry_ok(m: Map<Seq<char>, StEntry>, name: Seq<char>, v: TensorModel) -> bool {
        &&& m.dom().contains(name)
        &&& m[name].dtype == Some(v.dtype)
        &&& m[name].shape == v.shape
    }

    /// The value a variable takes when restored from a file's contents: the
    /// file's bytes, on the variable's own device.
    pub open spec fn loaded(
        m: Map<Seq<char>, StEntry>,
        name: Seq<char>,
        v: TensorModel,
    ) -> TensorModel {
        TensorModel { dtype: v.dtype, device: v.device, shape: v.shape, data: m[name].data }
    }

    /// For every registered variable in registration order, look its path
    /// up in the parsed file and replace its value in place, coerced to the
    /// variable's device. The walk stops at the first variable that cannot
    /// be restored: earlier variables keep their new values, later ones
    /// their old — the operation is not transactional.
    pub fn load(&mut self, st: &safetensors::SafeTensors<'_>) -> (r: Result<(), Error>)
        requires
            old(self).wf(),
        ensures
            final(self).wf(),
            final(self).entries@.len() == old(self).entries@.len(),
            forall|i: int|
                0 <= i < old(self).entries@.len() ==> (#[trigger] final(self).entries@[i]).0@
                    == old(self).entries@[i].0@,
            r is Ok <==> forall|i: int|
                0 <= i < old(self).entries@.len() ==> Self::entry_ok(
                    st_model(*st),
                    (#[trigger] old(self).entries@[i]).0@,
                    old(self).entries@[i].1@,
                ),
            r is Ok ==> forall|i: int|
                0 <= i < old(self).entries@.len() ==> (#[trigger] final(self).entries@[i]).1@
                    == Self::loaded(
                    st_model(*st),
                    old(self).entries@[i].0@,
                    old(self).entries@[i].1@,
                ),
            r matches Err(e) ==> exists|k: int|
                {
                    &&& 0 <= k < old(self).entries@.len()
                    &&& !Self::entry_ok(
                        st_model(*st),
                        (#[trigger] old(self).entries@[k]).0@,
                        old(self).entries@[k].1@,
                    )
                    &&& forall|i: int|
                        0 <= i < k ==> Self::entry_ok(
                            st_model(*st),
                            (#[trigger] old(self).entries@[i]).0@,
                            old(self).entries@[i].1@,
                        ) && final(self).entries@[i].1@ == Self::loaded(
                            st_model(*st),
                            old(self).entries@[i].0@,
                            old(self).entries@[i].1@,
                        )
                    &&& forall|i: int|
                        k <= i < old(self).entries@.len() ==> (
                        #[trigger] final(self).entries@[i]).1@ == old(self).entries@[i].1@
                    &&& (e is NotFound <==> !st_model(*st).dom().contains(
                        old(self).entries@[k].0@,
                    ))
                    &&& (e matches Error::NotFound { path: p } ==> p@ == old(
                        self,
                    ).entries@[k].0@)
                    &&& (st_model(*st).dom().contains(old(self).entries@[k].0@) && st_model(
                        *st,
                    )[old(self).entries@[k].0@].dtype != Some(old(self).entries@[k].1@.dtype)
                        ==> e is UnsupportedOperation)
                    &&& (st_model(*st).dom().contains(old(self).entries@[k].0@) && st_model(
                        *st,
                    )[old(self).entries@[k].0@].dtype == Some(old(self).entries@[k].1@.dtype)
                        ==> (e matches Error::ShapeMismatch { path: p, expected, got }
                        && p@ == old(self).entries@[k].0@ && expected@ == old(
                        self,
                    ).entries@[k].1@.shape && got@ == st_model(*st)[old(self).entries@[k].0@].shape))
                },
    {
        let n = self.entries.len();
        let mut i: usize = 0;
        while i < n
            invariant
                i <= n,
                n == old(self).entries@.len(),
                self.entries@.len() == old(self).entries@.len(),
                self.wf(),
                forall|j: int|
                    0 <= j < old(self).entries@.len() ==> (#[trigger] self.entries@[j]).0@ == old(
                        self,
                    ).entries@[j].0@,
                forall|j: int|
                    0 <= j < i ==> Self::entry_ok(
                        st_model(*st),
                        (#[trigger] old(self).entries@[j]).0@,
                        old(self).entries@[j].1@,
                    ) && self.entries@[j].1@ == Self::loaded(
                        st_model(*st),
                        old(self).entries@[j].0@,
                        old(self).entries@[j].1@,
                    ),
                forall|j: int|
                    i <= j < old(self).entries@.len() ==> (#[trigger] self.entries@[j]).1@ == old(
                        self,
                    ).entries@[j].1@,
            decreases n - i,
        {
            let view = match crate::stfile::st_tensor(st, self.entries[i].0.as_str()) {
                Some(v) => v,
                None => {
                    return Err(Error::NotFound { path: self.entries[i].0.clone() });
                },
            };
            let dtype = match crate::stfile::view_dtype(&view) {
                Some(d) => d,
                None => {
                    return Err(
                        Error::UnsupportedOperation {
                            reason: "stored element type is not carried by this store".to_owned(),
                        },
                    );
                },
            };
            if dtype != self.entries[i].1.as_tensor().dtype() {
                return Err(
                    Error::UnsupportedOperation {
                        reason: "stored element type differs from the variable's".to_owned(),
                    },
                );
            }
            let vshape = crate::stfile::view_shape(&view);
            if !crate::shape::dims_eq(&vshape, self.entries[i].1.as_tensor().shape()) {
                return Err(
                    Error::ShapeMismatch {
                        path: self.entries[i].0.clone(),
                        expected: copy_dims(self.entries[i].1.as_tensor().shape()),
                        got: vshape,
                    },
                );
            }
            let bytes = crate::stfile::view_data(&view);
            let dev = self.entries[i].1.as_tensor().device();
            let value = match Tensor::from_raw_buffer(
                vstd::slice::slice_to_vec(bytes),
                dtype,
                &vshape,
                &dev,
            ) {
                Ok(t) => t,
                Err(e) => {
                    proof {
                        assert(false);
                    }
                    return Err(e);
                },
            };
            match self.entries[i].1.set(&value) {
                Ok(()) => (),
                Err(e) => {
                    proof {
                        assert(false);
                    }
                    return Err(e);
                },
            }
            i = i + 1;
        }
        Ok(())
    }
}

/// The lock invariant of a store: its data is well formed.
pub struct StorePred;

impl RwLockPredicate<VarMapData> for StorePred {
    open spec fn inv(self, v: VarMapData) -> bool {
        v.wf()
    }
}

/// A `VarMap` is a store that holds named variables. Variables can be
/// retrieved from the store and new variables can be added by providing
/// some initialization policy in case they are missing. Cloning the handle
/// is cheap and shares the underlying registry; every operation holds the
/// store's one lock for its full duration.
#[derive(Clone)]
pub struct VarMap {
    data: Arc<RwLock<VarMapData, StorePred>>,
}

impl VarMap {
    /// Create a new empty `VarMap`.
    pub fn new() -> VarMap {
        let data = VarMapData { entries: Vec::new() };
        VarMap { data: Arc::new(RwLock::new(data, Ghost(StorePred))) }
    }

    /// Retrieve or add a new variable; see [`VarMapData::get_or_create`]
    /// for the full contract against the guarded data. A failure is either
    /// the shape disagreement of a re-fetch, carrying the path and both
    /// shapes, or a size refusal of the initializer.
    pub fn get(&self, shape: &Vec<usize>, path: &str, init: Init, dtype: DType, device: &Device)
        -> (r: Result<Tensor, Error>)
        ensures
            r matches Ok(t) ==> t@.shape == shape@ && t@.wf(),
            r matches Err(e) ==> ((e matches Error::ShapeMismatch { path: p, expected, got }
                && p@ == path@ && expected@ == shape@ && got@ != shape@)
                || e is UnsupportedOperation),
    {
        let (mut inner, handle) = self.data.acquire_write();
        let r = inner.get_or_create(shape, path, init, dtype, device);
        handle.release_write(inner);
        r
    }

    /// The current value under a name, without creating anything.
    pub fn lookup(&self, path: &str) -> (r: Option<Tensor>)
        ensures
            r matches Some(t) ==> t@.wf(),
    {
        let key: String = path.to_owned();
        let read = self.data.acquire_read();
        let out = read.borrow().lookup(&key);
        read.release_read();
        out
    }

    /// Retrieve all the variables currently stored in the map.
    pub fn all_vars(&self) -> (r: Vec<Variable>) {
        let read = self.data.acquire_read();
        let out = read.borrow().all_vars();
        read.release_read();
        out
    }

    /// Serialize the store's contents into the external persisted format,
    /// read-locking for the snapshot's duration; see
    /// [`VarMapData::save_to_bytes`] for the full contract against the
    /// guarded data. Writing the bytes to a destination is the caller's
    /// part.
    pub fn save_to_bytes(&self) -> (r: Result<Vec<u8>, Error>)
        ensures
            r matches Ok(b) ==> st_file(b@) is Some,
            r matches Err(e) ==> (e is UnsupportedOperation || e is Io),
    {
        let read = self.data.acquire_read();
        let out = read.borrow().save_to_bytes();
        read.release_read();
        out
    }

    /// Restore every registered variable from a parsed file, holding the
    /// lock throughout; see [`VarMapData::load`] for the full contract
    /// against the guarded data, including the partial state a failure
    /// leaves.
    pub fn load(&mut self, st: &safetensors::SafeTensors<'_>) -> (r: Result<(), Error>) {
        let (mut inner, handle) = self.data.acquire_write();
        let r = inner.load(st);
        handle.release_write(inner);
        r
    }

    /// Parse a serialized file and restore every registered variable from
    /// it; bytes that are not a well-formed file change nothing.
    pub fn load_from_bytes(&mut self, bytes: &[u8]) -> (r: Result<(), Error>)
        ensures
            st_file(bytes@) is None ==> (r matches Err(e) && e is Io),
            r is Ok ==> st_file(bytes@) is Some,
    {
        match crate::stfile::st_deserialize(bytes) {
            Some(st) => self.load(&st),
            None => Err(Error::Io { reason: "not a well-formed serialized file".to_owned() }),
        }
    }
}

} // verus!
