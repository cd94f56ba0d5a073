use varstore::{Device, DeviceLocation, DType, Error, NdArray, Tensor, Variable};

#[test]
fn same_device_cpu_cpu() {
    assert!(Device::Cpu.same_device(&Device::Cpu));
}

#[test]
fn same_device_cpu_cuda() {
    let cuda0 = Device::new_cuda(0).unwrap();
    assert!(!Device::Cpu.same_device(&cuda0));
    assert!(!cuda0.same_device(&Device::Cpu));
}

#[test]
fn same_device_cuda_same_ordinal() {
    let a = Device::new_cuda(0).unwrap();
    let b = Device::new_cuda(0).unwrap();
    assert!(a.same_device(&b));
}

#[test]
fn same_device_cuda_different_ordinal() {
    let a = Device::new_cuda(0).unwrap();
    let b = Device::new_cuda(1).unwrap();
    assert!(!a.same_device(&b));
}

#[test]
fn device_location_and_kind() {
    assert_eq!(Device::Cpu.location(), DeviceLocation::Cpu);
    assert!(!Device::Cpu.is_cuda());
    let cuda = Device::new_cuda(3).unwrap();
    assert_eq!(cuda.location(), DeviceLocation::Cuda { gpu_id: 3 });
    assert!(cuda.is_cuda());
}

#[test]
fn cuda_if_available_yields_accelerator() {
    let d = Device::cuda_if_available(2).unwrap();
    assert_eq!(d.location(), DeviceLocation::Cuda { gpu_id: 2 });
}

#[test]
fn zeros_storage_is_all_zero() {
    let s = Device::Cpu.zeros(&vec![2, 3], DType::F32).unwrap();
    assert_eq!(s.dtype(), DType::F32);
    assert_eq!(s.data().len(), 24);
    assert!(s.data().iter().all(|b| *b == 0));
}

#[test]
fn ones_storage_repeats_the_one_pattern() {
    let s = Device::Cpu.ones(&vec![3], DType::F32).unwrap();
    let expected: Vec<u8> = vec![0, 0, 128, 63, 0, 0, 128, 63, 0, 0, 128, 63];
    assert_eq!(s.data().clone(), expected);
    let one = 1.0f32.to_le_bytes();
    assert_eq!(&s.data()[0..4], &one);
    let h = Device::Cpu.ones(&vec![2], DType::F64).unwrap();
    assert_eq!(&h.data()[0..8], &1.0f64.to_le_bytes());
}

#[test]
fn random_fills_have_the_right_size_and_placement() {
    let s = Device::Cpu.rand_uniform(&vec![4, 2], DType::F32).unwrap();
    assert_eq!(s.data().len(), 32);
    let cuda = Device::new_cuda(0).unwrap();
    let s2 = cuda.rand_normal(&vec![5], DType::BF16).unwrap();
    assert_eq!(s2.data().len(), 10);
    assert!(s2.device().is_cuda());
}

#[test]
fn storage_ingests_nested_host_arrays() {
    let s = Device::Cpu.storage(&[[1u8, 2u8], [3u8, 4u8]]).unwrap();
    assert_eq!(s.dtype(), DType::U8);
    assert_eq!(s.data().clone(), vec![1, 2, 3, 4]);
    let s3 = Device::Cpu.storage(&[[[1u8], [2u8]], [[3u8], [4u8]]]).unwrap();
    assert_eq!(s3.data().clone(), vec![1, 2, 3, 4]);
}

#[test]
fn storage_owned_encodes_little_endian() {
    let s = Device::Cpu.storage_owned(vec![1u32, 258u32]).unwrap();
    assert_eq!(s.dtype(), DType::U32);
    assert_eq!(s.data().clone(), vec![1, 0, 0, 0, 2, 1, 0, 0]);
}

#[test]
fn storage_transfer_keeps_bytes_on_accelerator() {
    let cuda = Device::new_cuda(1).unwrap();
    let s = cuda.storage(&[7u8, 8u8]).unwrap();
    assert!(s.device().is_cuda());
    assert_eq!(s.data().clone(), vec![7, 8]);
}

#[test]
fn variable_set_replaces_and_checks() {
    let t = Tensor::zeros(&vec![2, 2], DType::F32, &Device::Cpu).unwrap();
    let mut v = Variable::new(t);
    let replacement =
        Tensor::from_raw_buffer(vec![1; 16], DType::F32, &vec![2, 2], &Device::Cpu).unwrap();
    v.set(&replacement).unwrap();
    assert_eq!(v.as_tensor().data().clone(), vec![1; 16]);

    let wrong_shape =
        Tensor::from_raw_buffer(vec![1; 16], DType::F32, &vec![4], &Device::Cpu).unwrap();
    assert!(matches!(v.set(&wrong_shape), Err(Error::ShapeMismatch { .. })));

    let wrong_dtype =
        Tensor::from_raw_buffer(vec![1; 16], DType::U32, &vec![2, 2], &Device::Cpu).unwrap();
    assert!(matches!(v.set(&wrong_dtype), Err(Error::UnsupportedOperation { .. })));

    let cuda = Device::new_cuda(0).unwrap();
    let wrong_device = Tensor::from_raw_buffer(vec![1; 16], DType::F32, &vec![2, 2], &cuda).unwrap();
    assert!(matches!(v.set(&wrong_device), Err(Error::DeviceMismatch)));

    assert_eq!(v.as_tensor().data().clone(), vec![1; 16]);
    let inner = v.into_inner();
    assert_eq!(inner.shape().clone(), vec![2, 2]);
}

#[test]
fn tensor_rejects_wrong_byte_length() {
    let r = Tensor::from_raw_buffer(vec![0; 10], DType::F32, &vec![2, 2], &Device::Cpu);
    assert!(matches!(r, Err(Error::UnsupportedOperation { .. })));
}

#[test]
fn storage_ingests_scalars_and_slices() {
    let s = Device::Cpu.storage(7u8).unwrap();
    assert_eq!(s.data().clone(), vec![7]);
    let xs: &[u32] = &[1, 2];
    let s2 = Device::Cpu.storage(xs).unwrap();
    assert_eq!(s2.dtype(), DType::U32);
    assert_eq!(s2.data().clone(), vec![1, 0, 0, 0, 2, 0, 0, 0]);
    let arr: &[u8; 3] = &[9, 8, 7];
    let s3 = Device::Cpu.storage(arr).unwrap();
    assert_eq!(s3.data().clone(), vec![9, 8, 7]);
}

#[test]
fn nd_array_shapes_are_exposed() {
    assert_eq!(7u8.shape(), Vec::<usize>::new());
    let xs: &[u32] = &[1, 2];
    assert_eq!(xs.shape(), vec![2]);
    let grid = &[[1u8, 2u8, 3u8], [4u8, 5u8, 6u8]];
    assert_eq!(grid.shape(), vec![2, 3]);
    let cube = &[[[1u8], [2u8]], [[3u8], [4u8]]];
    assert_eq!(cube.shape(), vec![2, 2, 1]);
}
