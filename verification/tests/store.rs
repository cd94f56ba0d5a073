use varstore::{Device, DType, Error, Init, VarMap};

#[test]
fn empty_store_creates_one_variable() {
    let vm = VarMap::new();
    let t = vm.get(&vec![4, 4], "w", Init::Zeros, DType::F32, &Device::Cpu).unwrap();
    assert_eq!(t.shape().clone(), vec![4, 4]);
    assert_eq!(t.dtype(), DType::F32);
    assert!(t.data().iter().all(|b| *b == 0));
    assert_eq!(t.data().len(), 64);
    let vars = vm.all_vars();
    assert_eq!(vars.len(), 1);
    assert!(vars[0].as_tensor().data().iter().all(|b| *b == 0));
}

#[test]
fn refetch_returns_the_same_variable() {
    let vm = VarMap::new();
    let a = vm.get(&vec![2, 3], "w", Init::RandUniform, DType::F32, &Device::Cpu).unwrap();
    let b = vm.get(&vec![2, 3], "w", Init::RandUniform, DType::F32, &Device::Cpu).unwrap();
    assert_eq!(a.data().clone(), b.data().clone());
    assert_eq!(vm.all_vars().len(), 1);
}

#[test]
fn refetch_with_other_shape_fails_and_keeps_the_store() {
    let vm = VarMap::new();
    let a = vm.get(&vec![2, 3], "w", Init::RandUniform, DType::F32, &Device::Cpu).unwrap();
    let r = vm.get(&vec![3, 2], "w", Init::Zeros, DType::F32, &Device::Cpu);
    assert!(matches!(r, Err(Error::ShapeMismatch { .. })));
    let vars = vm.all_vars();
    assert_eq!(vars.len(), 1);
    assert_eq!(vars[0].as_tensor().data().clone(), a.data().clone());
    assert_eq!(vars[0].as_tensor().shape().clone(), vec![2, 3]);
}

#[test]
fn cloned_handles_share_the_registry() {
    let vm = VarMap::new();
    let vm2 = vm.clone();
    vm.get(&vec![2], "a", Init::Zeros, DType::F32, &Device::Cpu).unwrap();
    assert_eq!(vm2.all_vars().len(), 1);
    assert!(vm2.lookup("a").is_some());
    assert!(vm2.lookup("b").is_none());
}

#[test]
fn save_then_load_restores_bit_identical_values() {
    let source = VarMap::new();
    source.get(&vec![4, 4], "w", Init::RandUniform, DType::F32, &Device::Cpu).unwrap();
    source.get(&vec![3], "b", Init::RandNormal, DType::F32, &Device::Cpu).unwrap();
    let bytes = source.save_to_bytes().unwrap();

    let mut target = VarMap::new();
    target.get(&vec![4, 4], "w", Init::Zeros, DType::F32, &Device::Cpu).unwrap();
    target.get(&vec![3], "b", Init::Zeros, DType::F32, &Device::Cpu).unwrap();
    let st = safetensors::SafeTensors::deserialize(&bytes).unwrap();
    target.load(&st).unwrap();

    assert_eq!(
        target.lookup("w").unwrap().data().clone(),
        source.lookup("w").unwrap().data().clone()
    );
    assert_eq!(
        target.lookup("b").unwrap().data().clone(),
        source.lookup("b").unwrap().data().clone()
    );
}

#[test]
fn load_missing_name_fails_after_partial_overwrite() {
    // The walk is not transactional: variables before the failing name keep
    // their freshly loaded values, later ones keep their old values.
    let donor = VarMap::new();
    donor.get(&vec![2], "a", Init::Ones, DType::F32, &Device::Cpu).unwrap();
    let bytes = donor.save_to_bytes().unwrap();

    let mut target = VarMap::new();
    target.get(&vec![2], "a", Init::Zeros, DType::F32, &Device::Cpu).unwrap();
    target.get(&vec![2], "b", Init::Zeros, DType::F32, &Device::Cpu).unwrap();
    let st = safetensors::SafeTensors::deserialize(&bytes).unwrap();
    let r = target.load(&st);
    assert!(matches!(r, Err(Error::NotFound { .. })));
    // "a" was updated to the donor's ones before the walk stopped at "b".
    assert_eq!(
        target.lookup("a").unwrap().data().clone(),
        donor.lookup("a").unwrap().data().clone()
    );
    assert!(target.lookup("a").unwrap().data().iter().any(|b| *b != 0));
    assert!(target.lookup("b").unwrap().data().iter().all(|b| *b == 0));
}

#[test]
fn load_shape_conflict_fails() {
    let donor = VarMap::new();
    donor.get(&vec![2], "a", Init::Ones, DType::F32, &Device::Cpu).unwrap();
    let bytes = donor.save_to_bytes().unwrap();

    let mut target = VarMap::new();
    target.get(&vec![4], "a", Init::Zeros, DType::F32, &Device::Cpu).unwrap();
    let st = safetensors::SafeTensors::deserialize(&bytes).unwrap();
    assert!(matches!(target.load(&st), Err(Error::ShapeMismatch { .. })));
    assert!(target.lookup("a").unwrap().data().iter().all(|b| *b == 0));
}

#[test]
fn load_dtype_conflict_fails() {
    let donor = VarMap::new();
    donor.get(&vec![2], "a", Init::Ones, DType::F32, &Device::Cpu).unwrap();
    let bytes = donor.save_to_bytes().unwrap();

    let mut target = VarMap::new();
    target.get(&vec![2], "a", Init::Zeros, DType::F64, &Device::Cpu).unwrap();
    let st = safetensors::SafeTensors::deserialize(&bytes).unwrap();
    assert!(matches!(target.load(&st), Err(Error::UnsupportedOperation { .. })));
}

#[test]
fn saved_bytes_parse_with_the_codec_itself() {
    let vm = VarMap::new();
    vm.get(&vec![2, 2], "w", Init::Ones, DType::F32, &Device::Cpu).unwrap();
    let bytes = vm.save_to_bytes().unwrap();
    let st = safetensors::SafeTensors::deserialize(&bytes).unwrap();
    let view = st.tensor("w").unwrap();
    assert_eq!(view.shape(), &[2, 2]);
    assert_eq!(view.dtype(), safetensors::Dtype::F32);
    let mut expected: Vec<u8> = Vec::new();
    for _ in 0..4 {
        expected.extend_from_slice(&1.0f32.to_le_bytes());
    }
    assert_eq!(view.data(), &expected[..]);
}

#[test]
fn load_from_bytes_rejects_malformed_files() {
    let mut vm = VarMap::new();
    vm.get(&vec![2], "a", Init::Zeros, DType::F32, &Device::Cpu).unwrap();
    let r = vm.load_from_bytes(&[1, 2, 3]);
    assert!(matches!(r, Err(Error::Io { .. })));
    assert!(vm.lookup("a").unwrap().data().iter().all(|b| *b == 0));
}

#[test]
fn load_from_bytes_round_trips() {
    let source = VarMap::new();
    source.get(&vec![2, 2], "w", Init::RandNormal, DType::F32, &Device::Cpu).unwrap();
    let bytes = source.save_to_bytes().unwrap();
    let mut target = VarMap::new();
    target.get(&vec![2, 2], "w", Init::Zeros, DType::F32, &Device::Cpu).unwrap();
    target.load_from_bytes(&bytes).unwrap();
    assert_eq!(
        target.lookup("w").unwrap().data().clone(),
        source.lookup("w").unwrap().data().clone()
    );
}

#[test]
fn save_rejects_the_reserved_header_key() {
    // The persisted format reserves __metadata__ for its file-level string
    // map; a tensor saved under that path would not parse back, so the
    // store refuses to save it.
    let vm = VarMap::new();
    vm.get(&vec![2], "__metadata__", Init::Zeros, DType::F32, &Device::Cpu).unwrap();
    assert!(matches!(
        vm.save_to_bytes(),
        Err(Error::UnsupportedOperation { .. })
    ));
}
