//! The trusted boundary to the `safetensors` crate.
//!
//! A serialized weight file maps tensor names to dtype-tagged, shaped byte
//! ranges. What a parsed file holds is named by [`st_model`], what raw bytes
//! parse to by [`st_file`], and what one borrowed view holds by [`tv_entry`];
//! every wrapper below states its result against those names, and nothing
//! else about the format is assumed.

use vstd::prelude::*;
use crate::dtype::DType;
use crate::shape::prod;

verus! {

#[verifier::external_type_specification]
#[verifier::external_body]
pub struct ExSafeTensors<'a>(safetensors::SafeTensors<'a>);

#[verifier::external_type_specification]
#[verifier::external_body]
pub struct ExTensorView<'a>(safetensors::tensor::TensorView<'a>);

/// What one entry of a serialized weight file holds: the element type (where
/// it is one this crate carries), the extents, and the raw data bytes.
pub ghost struct StEntry {
    pub dtype: Option<DType>,
    pub shape: Seq<usize>,
    pub data: Seq<u8>,
}

/// The contents of a parsed serialized file: the map from tensor name to
/// entry.
pub uninterp spec fn st_model(st: safetensors::SafeTensors<'_>) -> Map<Seq<char>, StEntry>;

/// The contents of a serialized weight file, as a function of its bytes:
/// `None` where the bytes are not a well-formed file, otherwise the map from
/// tensor name to entry.
pub uninterp spec fn st_file(file: Seq<u8>) -> Option<Map<Seq<char>, StEntry>>;

/// What one borrowed tensor view of the `safetensors` crate holds.
pub uninterp spec fn tv_entry(v: safetensors::tensor::TensorView<'_>) -> StEntry;

/// A well-formed entry: the running element count stays within `usize` and
/// the data length is the element count times the element width. The
/// `safetensors` crate validates both, with checked multiplication, for
/// every tensor of a file it parses or writes.
pub open spec fn entry_sized(e: StEntry) -> bool {
    &&& crate::shape::prods_fit(e.shape)
    &&& (e.dtype matches Some(d) ==> e.data.len() == prod(e.shape) * d.size())
}

/// Relies on `safetensors::SafeTensors::deserialize`: the bytes parse to a
/// file exactly when they are well formed, and the parsed file holds the
/// contents of the bytes.
#[verifier::external_body]
pub(crate) fn st_deserialize<'a>(file: &'a [u8]) -> (r: Option<safetensors::SafeTensors<'a>>)
    ensures
        r is Some <==> st_file(file@) is Some,
        r matches Some(st) ==> st_model(st) == st_file(file@).unwrap(),
{
    safetensors::SafeTensors::deserialize(file).ok()
}

/// Relies on `safetensors::SafeTensors::names`: all names of the file, each
/// once, in no promised order.
#[verifier::external_body]
pub(crate) fn st_names(st: &safetensors::SafeTensors<'_>) -> (r: Vec<String>)
    ensures
        forall|i: int, j: int| 0 <= i < j < r@.len() ==> r@[i]@ != r@[j]@,
        forall|i: int| 0 <= i < r@.len() ==> st_model(*st).dom().contains(#[trigger] r@[i]@),
        forall|n: Seq<char>|
            st_model(*st).dom().contains(n) ==> exists|i: int|
                0 <= i < r@.len() && #[trigger] r@[i]@ == n,
{
    st.names().iter().map(|s| s.to_string()).collect()
}

/// Relies on `safetensors::SafeTensors::tensor`: a view of the named tensor
/// exactly when the file holds the name, with the entry's dtype, shape and
/// data, whose length the crate has validated against shape and dtype.
#[verifier::external_body]
pub(crate) fn st_tensor<'d>(st: &safetensors::SafeTensors<'d>, name: &str) -> (r: Option<
    safetensors::tensor::TensorView<'d>,
>)
    ensures
        r is Some <==> st_model(*st).dom().contains(name@),
        r matches Some(v) ==> tv_entry(v) == st_model(*st)[name@] && entry_sized(tv_entry(v)),
{
    st.tensor(name).ok()
}

/// Relies on `safetensors::tensor::TensorView::dtype`, telling its variants
/// apart; `None` stands for an element type this crate does not carry.
#[verifier::external_body]
pub(crate) fn view_dtype(v: &safetensors::tensor::TensorView<'_>) -> (r: Option<DType>)
    ensures
        r == tv_entry(*v).dtype,
{
    match v.dtype() {
        safetensors::Dtype::U8 => Some(DType::U8),
        safetensors::Dtype::U32 => Some(DType::U32),
        safetensors::Dtype::BF16 => Some(DType::BF16),
        safetensors::Dtype::F16 => Some(DType::F16),
        safetensors::Dtype::F32 => Some(DType::F32),
        safetensors::Dtype::F64 => Some(DType::F64),
        _ => None,
    }
}

/// Relies on `safetensors::tensor::TensorView::shape`.
#[verifier::external_body]
pub(crate) fn view_shape(v: &safetensors::tensor::TensorView<'_>) -> (r: Vec<usize>)
    ensures
        r@ == tv_entry(*v).shape,
{
    v.shape().to_vec()
}

/// Relies on `safetensors::tensor::TensorView::data`: the raw bytes, borrowed
/// from the underlying file buffer.
#[verifier::external_body]
pub(crate) fn view_data<'d>(v: &safetensors::tensor::TensorView<'d>) -> (r: &'d [u8])
    ensures
        r@ == tv_entry(*v).data,
{
    v.data()
}

/// Relies on `safetensors::tensor::TensorView::new`: a view over the given
/// dtype, shape and bytes. The length precondition is what the crate's own
/// validation asks, so the call is owed success; the byte bound keeps its
/// internal bit count within `usize`.
#[verifier::external_body]
pub(crate) fn tv_new<'d>(dtype: DType, shape: &Vec<usize>, data: &'d [u8]) -> (r:
    safetensors::tensor::TensorView<'d>)
    requires
        crate::shape::prods_fit(shape@),
        data@.len() == prod(shape@) * dtype.size(),
        data@.len() * 8 <= usize::MAX,
    ensures
        tv_entry(r) == (StEntry { dtype: Some(dtype), shape: shape@, data: data@ }),
{
    let d = match dtype {
        DType::U8 => safetensors::Dtype::U8,
        DType::U32 => safetensors::Dtype::U32,
        DType::BF16 => safetensors::Dtype::BF16,
        DType::F16 => safetensors::Dtype::F16,
        DType::F32 => safetensors::Dtype::F32,
        DType::F64 => safetensors::Dtype::F64,
    };
    safetensors::tensor::TensorView::new(d, shape.clone(), data).unwrap()
}

/// The total data length of a batch of views.
pub open spec fn views_data_len(pairs: Seq<(String, safetensors::tensor::TensorView<'_>)>) -> int
    decreases pairs.len(),
{
    if pairs.len() == 0 {
        0
    } else {
        views_data_len(pairs.drop_last()) + tv_entry(pairs.last().1).data.len()
    }
}

/// Whether the format can serialize the given contents. Serialization
/// orders the tensors canonically (by element type, then name), so both its
/// outcome and its output are functions of the content map alone; what can
/// fail on admitted inputs is only the format's own header-size cap.
pub uninterp spec fn st_serialize_ok(m: Map<Seq<char>, StEntry>) -> bool;

/// The file contents that a batch of named views describes.
pub open spec fn views_map(pairs: Seq<(String, safetensors::tensor::TensorView<'_>)>) -> Map<
    Seq<char>,
    StEntry,
>
    decreases pairs.len(),
{
    if pairs.len() == 0 {
        Map::empty()
    } else {
        views_map(pairs.drop_last()).insert(pairs.last().0@, tv_entry(pairs.last().1))
    }
}

/// Relies on `safetensors::serialize`: success depends on the described
/// contents alone, and on success the bytes parse back to exactly the given
/// tensors. The name `__metadata__` is excluded: the format reserves that
/// header key for its file-level string map, so a tensor written under it
/// would not parse back. The byte bound keeps the crate's internal offset
/// and size arithmetic within `usize`.
#[verifier::external_body]
pub(crate) fn st_serialize(pairs: Vec<(String, safetensors::tensor::TensorView<'_>)>) -> (r: Result<
    Vec<u8>,
    String,
>)
    requires
        forall|i: int, j: int| 0 <= i < j < pairs@.len() ==> pairs@[i].0@ != pairs@[j].0@,
        forall|i: int| 0 <= i < pairs@.len() ==> (#[trigger] pairs@[i]).0@ != "__metadata__"@,
        views_data_len(pairs@) <= usize::MAX / 4,
    ensures
        r is Ok <==> st_serialize_ok(views_map(pairs@)),
        r matches Ok(b) ==> st_file(b@) == Some(views_map(pairs@)),
{
    match safetensors::serialize(pairs, None) {
        Ok(b) => Ok(b),
        Err(e) => Err(format!("{e}")),
    }
}

} // verus!
