use varstore::{Device, DType, Error, Init, Tensor, VarBuilder, VarMap};

fn f32_bytes(values: std::ops::Range<u32>) -> Vec<u8> {
    let mut data: Vec<u8> = Vec::new();
    for i in values {
        data.extend_from_slice(&(i as f32).to_le_bytes());
    }
    data
}

fn serialized_w_8x4() -> Vec<u8> {
    let data = f32_bytes(0..32);
    let view =
        safetensors::tensor::TensorView::new(safetensors::Dtype::F32, vec![8, 4], &data).unwrap();
    safetensors::serialize(vec![("w".to_string(), view)], None).unwrap()
}

#[test]
fn zero_generator_ignores_the_name() {
    let vb = VarBuilder::zeros(DType::F32, &Device::Cpu);
    let t = vb.get(&vec![2, 3], "anything").unwrap();
    assert_eq!(t.shape().clone(), vec![2, 3]);
    assert_eq!(t.dtype(), DType::F32);
    assert_eq!(t.data().len(), 24);
    assert!(t.data().iter().all(|b| *b == 0));
    let u = vb.get(&vec![2, 3], "entirely.other").unwrap();
    assert_eq!(u.data().clone(), t.data().clone());
}

#[test]
fn tensor_map_resolves_by_full_path() {
    let stored =
        Tensor::from_raw_buffer(vec![9; 8], DType::F32, &vec![2], &Device::Cpu).unwrap();
    let vb = VarBuilder::from_tensors(
        vec![("a.b.w".to_string(), stored)],
        DType::F32,
        &Device::Cpu,
    );
    let t = vb.pp("a").pp("b").get(&vec![2], "w").unwrap();
    assert_eq!(t.data().clone(), vec![9; 8]);
    assert!(matches!(
        vb.get(&vec![2], "w"),
        Err(Error::NotFound { .. })
    ));
    assert!(matches!(
        vb.pp("a").pp("b").get(&vec![3], "w"),
        Err(Error::ShapeMismatch { .. })
    ));
}

#[test]
fn archive_entries_resolve_like_a_table() {
    let stored =
        Tensor::from_raw_buffer(vec![5; 4], DType::F32, &vec![1], &Device::Cpu).unwrap();
    let vb = VarBuilder::from_npz(vec![("w".to_string(), stored)], DType::F32, &Device::Cpu);
    assert_eq!(vb.get(&vec![1], "w").unwrap().data().clone(), vec![5; 4]);
    assert!(matches!(
        vb.get_sharded("w", 0, 0, 1),
        Err(Error::UnsupportedOperation { .. })
    ));
}

#[test]
fn builder_defaults_are_exposed() {
    let cuda = Device::new_cuda(1).unwrap();
    let vb = VarBuilder::zeros(DType::BF16, &cuda);
    assert_eq!(vb.dtype(), DType::BF16);
    assert!(vb.device().is_cuda());
}

#[test]
fn varmap_backed_builder_creates_through_get_or_init() {
    let vm = VarMap::new();
    let vb = VarBuilder::from_varmap(&vm, DType::F32, &Device::Cpu);
    let t = vb.pp("layer").get_or_init(&vec![2, 2], "w", Init::Zeros).unwrap();
    assert_eq!(t.shape().clone(), vec![2, 2]);
    assert_eq!(vm.all_vars().len(), 1);
    assert!(vm.lookup("layer.w").is_some());
    // plain get resolves but never creates
    assert!(vb.pp("layer").get(&vec![2, 2], "w").is_ok());
    assert!(matches!(
        vb.get(&vec![2], "missing"),
        Err(Error::NotFound { .. })
    ));
    assert_eq!(vm.all_vars().len(), 1);
}

#[test]
fn serialized_source_resolves_at_declared_shape() {
    let bytes = serialized_w_8x4();
    let st = safetensors::SafeTensors::deserialize(&bytes).unwrap();
    let vb = VarBuilder::from_safetensors(vec![st], DType::F32, &Device::Cpu);
    let t = vb.get(&vec![8, 4], "w").unwrap();
    assert_eq!(t.shape().clone(), vec![8, 4]);
    assert_eq!(t.data().clone(), f32_bytes(0..32));
    assert!(matches!(
        vb.get(&vec![4, 8], "w"),
        Err(Error::ShapeMismatch { .. })
    ));
    assert!(matches!(
        vb.get(&vec![8, 4], "missing"),
        Err(Error::NotFound { .. })
    ));
}

#[test]
fn serialized_source_rejects_dtype_cast() {
    let bytes = serialized_w_8x4();
    let st = safetensors::SafeTensors::deserialize(&bytes).unwrap();
    let vb = VarBuilder::from_safetensors(vec![st], DType::F64, &Device::Cpu);
    assert!(matches!(
        vb.get(&vec![8, 4], "w"),
        Err(Error::UnsupportedOperation { .. })
    ));
}

#[test]
fn sharded_read_along_rows() {
    // rows 4..8 of an 8x4 tensor
    let bytes = serialized_w_8x4();
    let st = safetensors::SafeTensors::deserialize(&bytes).unwrap();
    let vb = VarBuilder::from_safetensors(vec![st], DType::F32, &Device::Cpu);
    let t = vb.get_sharded("w", 0, 1, 2).unwrap();
    assert_eq!(t.shape().clone(), vec![4, 4]);
    assert_eq!(t.data().clone(), f32_bytes(16..32));
}

#[test]
fn sharded_read_along_columns() {
    // columns 2..4 of every row of an 8x4 tensor
    let bytes = serialized_w_8x4();
    let st = safetensors::SafeTensors::deserialize(&bytes).unwrap();
    let vb = VarBuilder::from_safetensors(vec![st], DType::F32, &Device::Cpu);
    let t = vb.get_sharded("w", 1, 1, 2).unwrap();
    assert_eq!(t.shape().clone(), vec![8, 2]);
    let mut expected: Vec<u8> = Vec::new();
    for row in 0..8u32 {
        for col in 2..4u32 {
            expected.extend_from_slice(&((row * 4 + col) as f32).to_le_bytes());
        }
    }
    assert_eq!(t.data().clone(), expected);
}

#[test]
fn shards_concatenate_back_to_the_original() {
    let bytes = serialized_w_8x4();
    let st = safetensors::SafeTensors::deserialize(&bytes).unwrap();
    let vb = VarBuilder::from_safetensors(vec![st], DType::F32, &Device::Cpu);
    // along dimension 0 the shards are contiguous
    let mut rebuilt: Vec<u8> = Vec::new();
    for rank in 0..4 {
        rebuilt.extend_from_slice(vb.get_sharded("w", 0, rank, 4).unwrap().data());
    }
    assert_eq!(rebuilt, f32_bytes(0..32));
    // along dimension 1 the shards interleave row by row
    let left = vb.get_sharded("w", 1, 0, 2).unwrap();
    let right = vb.get_sharded("w", 1, 1, 2).unwrap();
    let mut rebuilt1: Vec<u8> = Vec::new();
    for row in 0..8 {
        rebuilt1.extend_from_slice(&left.data()[row * 8..row * 8 + 8]);
        rebuilt1.extend_from_slice(&right.data()[row * 8..row * 8 + 8]);
    }
    assert_eq!(rebuilt1, f32_bytes(0..32));
}

#[test]
fn sharding_rejects_uneven_split() {
    let bytes = serialized_w_8x4();
    let st = safetensors::SafeTensors::deserialize(&bytes).unwrap();
    let vb = VarBuilder::from_safetensors(vec![st], DType::F32, &Device::Cpu);
    assert!(matches!(
        vb.get_sharded("w", 0, 0, 3),
        Err(Error::ShapeMismatchSplit { .. })
    ));
}

#[test]
fn sharding_rejects_other_backings_and_dimensions() {
    let vb = VarBuilder::zeros(DType::F32, &Device::Cpu);
    assert!(matches!(
        vb.get_sharded("w", 0, 0, 2),
        Err(Error::UnsupportedOperation { .. })
    ));
    let bytes = serialized_w_8x4();
    let st = safetensors::SafeTensors::deserialize(&bytes).unwrap();
    let vbs = VarBuilder::from_safetensors(vec![st], DType::F32, &Device::Cpu);
    assert!(matches!(
        vbs.get_sharded("w", 2, 0, 2),
        Err(Error::UnsupportedOperation { .. })
    ));
    assert!(matches!(
        vbs.get_sharded("missing", 0, 0, 2),
        Err(Error::NotFound { .. })
    ));
}

#[test]
fn later_containers_override_earlier_ones() {
    let data_a = f32_bytes(0..4);
    let view_a =
        safetensors::tensor::TensorView::new(safetensors::Dtype::F32, vec![4], &data_a).unwrap();
    let file_a = safetensors::serialize(vec![("w".to_string(), view_a)], None).unwrap();
    let data_b = f32_bytes(4..8);
    let view_b =
        safetensors::tensor::TensorView::new(safetensors::Dtype::F32, vec![4], &data_b).unwrap();
    let file_b = safetensors::serialize(vec![("w".to_string(), view_b)], None).unwrap();
    let st_a = safetensors::SafeTensors::deserialize(&file_a).unwrap();
    let st_b = safetensors::SafeTensors::deserialize(&file_b).unwrap();
    let vb = VarBuilder::from_safetensors(vec![st_a, st_b], DType::F32, &Device::Cpu);
    assert_eq!(vb.get(&vec![4], "w").unwrap().data().clone(), f32_bytes(4..8));
}

#[test]
fn serialized_entries_are_placed_on_the_default_device() {
    let bytes = serialized_w_8x4();
    let st = safetensors::SafeTensors::deserialize(&bytes).unwrap();
    let cuda = Device::new_cuda(0).unwrap();
    let vb = VarBuilder::from_safetensors(vec![st], DType::F32, &cuda);
    let t = vb.get(&vec![8, 4], "w").unwrap();
    assert!(t.device().is_cuda());
}
