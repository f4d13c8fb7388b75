use safetensors::device::{parse_device, parse_framework, Device, Framework};
use safetensors::dtype::{parse_dtype, Dtype};
use safetensors::error::SafetensorError;
use safetensors::name_map::NameMap;
use safetensors::reader::SafeOpen;
use safetensors::validate::parse_header;
use safetensors::view::{element_count, TensorView};
use safetensors::writer::{encode_header, serialize};

fn container(header: &str, data: &[u8]) -> Vec<u8> {
    let mut out = (header.len() as u64).to_le_bytes().to_vec();
    out.extend_from_slice(header.as_bytes());
    out.extend_from_slice(data);
    out
}

fn single_w() -> Vec<u8> {
    let data: Vec<u8> = (0u8..16).collect();
    let mut m = NameMap::new();
    m.insert(b"w".to_vec(), TensorView::new(Dtype::F32, vec![2, 2], &data).unwrap());
    serialize(&m, &None).unwrap()
}

#[test]
fn encodes_single_tensor_exactly() {
    let out = single_w();
    let expected = br#"{"w":{"dtype":"float32","shape":[2,2],"data_offsets":[0,16]}}"#;
    let hl = u64::from_le_bytes(out[0..8].try_into().unwrap()) as usize;
    assert_eq!(hl, expected.len());
    assert_eq!(&out[8..8 + hl], &expected[..]);
    assert_eq!(out.len(), 8 + hl + 16);
    let data: Vec<u8> = (0u8..16).collect();
    assert_eq!(&out[8 + hl..], &data[..]);
}

#[test]
fn missing_tensor_is_not_found() {
    let out = single_w();
    let h = SafeOpen::new(&out, Framework::Pytorch, None).unwrap();
    assert_eq!(h.keys().unwrap(), vec![b"w".to_vec()]);
    assert_eq!(h.get_tensor(b"missing").err(), Some(SafetensorError::NotFound));
}

#[test]
fn reads_after_close_fail() {
    let out = single_w();
    let mut h = SafeOpen::new(&out, Framework::Pytorch, None).unwrap();
    assert!(h.is_open());
    h.close();
    assert!(!h.is_open());
    assert_eq!(h.keys().err(), Some(SafetensorError::ClosedHandle));
    assert_eq!(h.metadata().err(), Some(SafetensorError::ClosedHandle));
    assert_eq!(h.get_tensor(b"w").err(), Some(SafetensorError::ClosedHandle));
}

#[test]
fn unknown_dtype_fails_at_encode_and_decode() {
    assert_eq!(parse_dtype(b"int9"), Err(SafetensorError::UnsupportedDtype));
    let c = container(r#"{"w":{"dtype":"int9","shape":[1],"data_offsets":[0,1]}}"#, &[0]);
    assert_eq!(parse_header(&c).err(), Some(SafetensorError::UnsupportedDtype));
}

#[test]
fn dtype_names_and_widths() {
    let all = [
        (Dtype::Bool, "bool", 1), (Dtype::I8, "int8", 1), (Dtype::U8, "uint8", 1),
        (Dtype::I16, "int16", 2), (Dtype::U16, "uint16", 2), (Dtype::I32, "int32", 4),
        (Dtype::U32, "uint32", 4), (Dtype::I64, "int64", 8), (Dtype::U64, "uint64", 8),
        (Dtype::F16, "float16", 2), (Dtype::F32, "float32", 4), (Dtype::F64, "float64", 8),
        (Dtype::BF16, "bfloat16", 2), (Dtype::F8E4M3, "float8_e4m3", 1), (Dtype::F8E5M2, "float8_e5m2", 1),
    ];
    for (d, n, w) in all {
        assert_eq!(d.name(), n.as_bytes().to_vec());
        assert_eq!(d.width(), w);
        assert_eq!(parse_dtype(n.as_bytes()), Ok(d));
    }
}

#[test]
fn overlapping_ranges_are_rejected() {
    let c = container(
        r#"{"a":{"dtype":"uint8","shape":[4],"data_offsets":[0,4]},"b":{"dtype":"uint8","shape":[4],"data_offsets":[2,6]}}"#,
        &[0; 6],
    );
    assert_eq!(parse_header(&c).err(), Some(SafetensorError::InvalidOffsets));
}

#[test]
fn empty_range_inside_another_is_rejected() {
    let c = container(
        r#"{"a":{"dtype":"uint8","shape":[4],"data_offsets":[0,4]},"b":{"dtype":"uint8","shape":[0],"data_offsets":[2,2]}}"#,
        &[0; 4],
    );
    assert_eq!(parse_header(&c).err(), Some(SafetensorError::InvalidOffsets));
}

#[test]
fn short_inputs_are_truncated() {
    assert_eq!(parse_header(&[1, 0, 0]).err(), Some(SafetensorError::TruncatedInput));
    assert_eq!(parse_header(&[]).err(), Some(SafetensorError::TruncatedInput));
    let mut c = container("{}", &[]);
    c.pop();
    assert_eq!(parse_header(&c).err(), Some(SafetensorError::TruncatedInput));
    let c = (u64::MAX).to_le_bytes();
    assert_eq!(parse_header(&c).err(), Some(SafetensorError::TruncatedInput));
}

#[test]
fn header_over_the_ceiling_is_too_large() {
    let n: u64 = 100_000_001;
    let mut c = n.to_le_bytes().to_vec();
    c.resize(8 + n as usize, b' ');
    assert_eq!(parse_header(&c).err(), Some(SafetensorError::HeaderTooLarge));
}

#[test]
fn length_mismatch_fails_at_encode_and_decode() {
    let data = [0u8; 15];
    assert_eq!(
        TensorView::new(Dtype::F32, vec![2, 2], &data).err(),
        Some(SafetensorError::ByteLengthMismatch)
    );
    let c = container(r#"{"w":{"dtype":"float32","shape":[2,2],"data_offsets":[0,15]}}"#, &[0; 15]);
    assert_eq!(parse_header(&c).err(), Some(SafetensorError::InvalidOffsets));
}

#[test]
fn range_past_the_end_is_rejected() {
    let c = container(r#"{"w":{"dtype":"uint8","shape":[4],"data_offsets":[0,4]}}"#, &[0; 3]);
    assert_eq!(parse_header(&c).err(), Some(SafetensorError::InvalidOffsets));
    let c = container(r#"{"w":{"dtype":"uint8","shape":[0],"data_offsets":[4,0]}}"#, &[0; 4]);
    assert_eq!(parse_header(&c).err(), Some(SafetensorError::InvalidOffsets));
}

#[test]
fn shape_overflow_is_detected() {
    assert_eq!(element_count(&[usize::MAX, 2]), Err(SafetensorError::ShapeOverflow));
    assert_eq!(element_count(&[usize::MAX, 2, 0]), Ok(0));
    assert_eq!(element_count(&[3, 4, 5]), Ok(60));
    assert_eq!(element_count(&[]), Ok(1));
    let data = [0u8; 1];
    assert_eq!(
        TensorView::new(Dtype::U8, vec![usize::MAX, 2], &data).err(),
        Some(SafetensorError::ShapeOverflow)
    );
}

#[test]
fn malformed_headers_are_rejected() {
    let cases = [
        "",
        "[]",
        "{",
        r#"{"w":{"dtype":"uint8","shape":[1]}}"#,
        r#"{"w":{"dtype":"uint8","shape":[1],"data_offsets":[0,1],"extra":1}}"#,
        r#"{"w":{"dtype":"uint8","shape":[01],"data_offsets":[0,1]}}"#,
        r#"{"w":{"dtype":"uint8","shape":[1],"data_offsets":[0,1,2]}}"#,
        r#"{"w":{"dtype":"uint8","shape":[1.0],"data_offsets":[0,1]}}"#,
        r#"{"w":{"dtype":"uint8","dtype":"uint8","shape":[1],"data_offsets":[0,1]}}"#,
        r#"{"w":{"dtype":"uint8","shape":[1],"data_offsets":[0,1]},"w":{"dtype":"uint8","shape":[1],"data_offsets":[0,1]}}"#,
        r#"{"w":{"dtype":"uint8","shape":[1],"data_offsets":[0,1]}} x"#,
        r#"{"w":{"dtype":"uint8","shape":[1],"data_offsets":[0,99999999999999999999999]}}"#,
        r#"{"__metadata__":{"a":1}}"#,
    ];
    for h in cases {
        let c = container(h, &[0]);
        assert_eq!(parse_header(&c).err(), Some(SafetensorError::MalformedHeader), "{h}");
    }
}

#[test]
fn whitespace_and_escapes_are_read() {
    let h = " { \"__metadata__\" : { \"k\\\"\\u0041\" : \"v\\n\" } ,\n \"b\\\\\" : { \"shape\" : [ ] , \"data_offsets\" : [ 0 , 1 ] , \"dtype\" : \"bool\" } }  ";
    let c = container(h, &[1]);
    let (off, header) = parse_header(&c).unwrap();
    assert_eq!(off, 8 + h.len());
    let meta = header.metadata.unwrap();
    assert_eq!(meta.len(), 1);
    assert_eq!(meta.name_at(0), b"k\"A");
    assert_eq!(meta.value_at(0), &b"v\n".to_vec());
    assert_eq!(header.tensors.len(), 1);
    assert_eq!(header.tensors.name_at(0), b"b\\");
    let info = header.tensors.value_at(0);
    assert_eq!(info.dtype, Dtype::Bool);
    assert!(info.shape.is_empty());
    assert_eq!(info.data_offsets, (0, 1));
}

#[test]
fn round_trip_keeps_tensors_and_metadata() {
    let a: Vec<u8> = (0u8..6).collect();
    let b: Vec<u8> = vec![9; 8];
    let z: Vec<u8> = vec![];
    let mut m = NameMap::new();
    m.insert(b"zeta".to_vec(), TensorView::new(Dtype::I16, vec![3], &a).unwrap());
    m.insert(b"al\"pha\x01".to_vec(), TensorView::new(Dtype::F64, vec![1, 1], &b).unwrap());
    m.insert(b"empty".to_vec(), TensorView::new(Dtype::U8, vec![0, 5], &z).unwrap());
    let mut meta = NameMap::new();
    meta.insert(b"format".to_vec(), b"pt".to_vec());
    meta.insert(b"note".to_vec(), b"tab\there".to_vec());
    let out = serialize(&m, &Some(meta)).unwrap();
    let h = SafeOpen::new(&out, Framework::Numo, None).unwrap();
    assert_eq!(
        h.keys().unwrap(),
        vec![b"al\"pha\x01".to_vec(), b"empty".to_vec(), b"zeta".to_vec()]
    );
    let md = h.metadata().unwrap().as_ref().unwrap();
    assert_eq!(md.len(), 2);
    assert_eq!(md.name_at(0), b"format");
    assert_eq!(md.value_at(1), &b"tab\there".to_vec());
    for (name, dtype, shape, data) in [
        (&b"zeta"[..], Dtype::I16, vec![3], &a),
        (&b"al\"pha\x01"[..], Dtype::F64, vec![1, 1], &b),
        (&b"empty"[..], Dtype::U8, vec![0, 5], &z),
    ] {
        let t = h.get_tensor(name).unwrap();
        assert_eq!(t.dtype, dtype);
        assert_eq!(t.shape, shape);
        assert_eq!(&out[t.start..t.end], &data[..]);
    }
}

#[test]
fn encoding_ignores_insertion_order() {
    let a = [1u8, 2];
    let b = [3u8];
    let mut m1 = NameMap::new();
    m1.insert(b"b".to_vec(), TensorView::new(Dtype::U8, vec![1], &b).unwrap());
    m1.insert(b"a".to_vec(), TensorView::new(Dtype::U8, vec![2], &a).unwrap());
    let mut m2 = NameMap::new();
    m2.insert(b"a".to_vec(), TensorView::new(Dtype::U8, vec![2], &a).unwrap());
    m2.insert(b"b".to_vec(), TensorView::new(Dtype::U8, vec![1], &b).unwrap());
    let o1 = serialize(&m1, &None).unwrap();
    assert_eq!(o1, serialize(&m2, &None).unwrap());
    assert_eq!(o1, serialize(&m1, &None).unwrap());
    let hl = u64::from_le_bytes(o1[0..8].try_into().unwrap()) as usize;
    assert_eq!(&o1[8 + hl..], &[1, 2, 3]);
    let h = SafeOpen::new(&o1, Framework::Pytorch, None).unwrap();
    assert_eq!(h.keys().unwrap(), vec![b"a".to_vec(), b"b".to_vec()]);
}

#[test]
fn keys_are_sorted_whatever_the_header_order() {
    let c = container(
        r#"{"c":{"dtype":"uint8","shape":[1],"data_offsets":[0,1]},"a":{"dtype":"uint8","shape":[1],"data_offsets":[1,2]},"B":{"dtype":"uint8","shape":[0],"data_offsets":[2,2]}}"#,
        &[7, 8],
    );
    let h = SafeOpen::new(&c, Framework::Pytorch, None).unwrap();
    assert_eq!(h.keys().unwrap(), vec![b"B".to_vec(), b"a".to_vec(), b"c".to_vec()]);
    let t = h.get_tensor(b"a").unwrap();
    assert_eq!((t.start, t.end), (c.len() - 1, c.len()));
}

#[test]
fn reserved_name_and_empty_input() {
    let d = [0u8];
    let mut m = NameMap::new();
    m.insert(b"__metadata__".to_vec(), TensorView::new(Dtype::U8, vec![1], &d).unwrap());
    assert_eq!(serialize(&m, &None).err(), Some(SafetensorError::MalformedHeader));
    let empty: NameMap<TensorView> = NameMap::new();
    assert_eq!(encode_header(&empty, &None).unwrap(), container("{}", &[]));
    let mut meta = NameMap::new();
    meta.insert(b"k".to_vec(), b"v".to_vec());
    assert_eq!(serialize(&empty, &Some(meta)).unwrap(), container(r#"{"__metadata__":{"k":"v"}}"#, &[]));
}

#[test]
fn replacing_a_name_keeps_one_entry() {
    let a = [1u8];
    let b = [2u8, 3];
    let mut m = NameMap::new();
    m.insert(b"x".to_vec(), TensorView::new(Dtype::U8, vec![1], &a).unwrap());
    m.insert(b"x".to_vec(), TensorView::new(Dtype::U8, vec![2], &b).unwrap());
    assert_eq!(m.len(), 1);
    assert_eq!(m.value_at(0).data(), &b[..]);
}

#[test]
fn devices_and_frameworks() {
    assert_eq!(parse_device(b"cpu"), Ok(Device::Cpu));
    assert_eq!(parse_device(b"mps"), Ok(Device::Mps));
    assert_eq!(parse_device(b"cuda"), Ok(Device::Cuda(0)));
    assert_eq!(parse_device(b"cuda:3"), Ok(Device::Cuda(3)));
    assert_eq!(parse_device(b"npu"), Ok(Device::Npu(0)));
    assert_eq!(parse_device(b"npu:12"), Ok(Device::Npu(12)));
    assert_eq!(parse_device(b"xpu:0"), Ok(Device::Xpu(0)));
    for bad in [&b"cuda:"[..], b"cuda:x", b"cuda:1:2", b"gpu", b"CPU", b"cuda:99999999999999999999999"] {
        assert_eq!(parse_device(bad), Err(SafetensorError::UnsupportedDevice));
    }
    for (s, f) in [("pt", Framework::Pytorch), ("torch", Framework::Pytorch), ("pytorch", Framework::Pytorch),
                   ("nm", Framework::Numo), ("numo", Framework::Numo)] {
        assert_eq!(parse_framework(s.as_bytes()), Ok(f));
    }
    assert_eq!(parse_framework(b"jax"), Err(SafetensorError::UnsupportedFramework));
    let (k, n) = Device::Cuda(2).kind();
    assert_eq!((k, n), (b"cuda".to_vec(), Some(2)));
    let out = single_w();
    assert_eq!(
        SafeOpen::new(&out, Framework::Numo, Some(Device::Cuda(0))).err(),
        Some(SafetensorError::UnsupportedDevice)
    );
    assert!(SafeOpen::new(&out, Framework::Pytorch, Some(Device::Cuda(1))).is_ok());
    assert!(SafeOpen::new(&out, Framework::Numo, Some(Device::Cpu)).is_ok());
}

#[test]
fn framework_dtype_symbols() {
    assert_eq!(Framework::Pytorch.dtype_symbol(Dtype::F8E4M3), Ok(b"float8_e4m3fn".to_vec()));
    assert_eq!(Framework::Pytorch.dtype_symbol(Dtype::BF16), Ok(b"bfloat16".to_vec()));
    assert_eq!(Framework::Pytorch.dtype_symbol(Dtype::Bool), Ok(b"bool".to_vec()));
    assert_eq!(Framework::Numo.dtype_symbol(Dtype::F64), Ok(b"DFloat".to_vec()));
    assert_eq!(Framework::Numo.dtype_symbol(Dtype::F32), Ok(b"SFloat".to_vec()));
    assert_eq!(Framework::Numo.dtype_symbol(Dtype::U8), Ok(b"UInt8".to_vec()));
    assert_eq!(Framework::Numo.dtype_symbol(Dtype::I64), Ok(b"Int64".to_vec()));
    assert_eq!(Framework::Numo.dtype_symbol(Dtype::F16), Err(SafetensorError::UnsupportedDtype));
    assert_eq!(Framework::Numo.dtype_symbol(Dtype::Bool), Err(SafetensorError::UnsupportedDtype));
}

#[test]
fn views_from_parts() {
    let data = [0u8; 8];
    let v = TensorView::from_parts(b"int16", vec![2, 2], &data).unwrap();
    assert_eq!(v.dtype(), Dtype::I16);
    assert_eq!(v.shape(), &[2, 2]);
    assert_eq!(v.data(), &data[..]);
    assert_eq!(TensorView::from_parts(b"int9", vec![2, 2], &data).err(), Some(SafetensorError::UnsupportedDtype));
    assert_eq!(TensorView::from_parts(b"int8", vec![2, 2], &data).err(), Some(SafetensorError::ByteLengthMismatch));
    let empty: [u8; 0] = [];
    assert!(TensorView::from_parts(b"float64", vec![3, 0], &empty).is_ok());
}

#[test]
fn error_messages_are_distinct() {
    let all = [
        SafetensorError::IoError, SafetensorError::TruncatedInput, SafetensorError::HeaderTooLarge,
        SafetensorError::MalformedHeader, SafetensorError::InvalidOffsets, SafetensorError::ShapeOverflow,
        SafetensorError::ByteLengthMismatch, SafetensorError::UnsupportedDtype, SafetensorError::UnsupportedDevice,
        SafetensorError::UnsupportedFramework, SafetensorError::NotFound, SafetensorError::ClosedHandle,
    ];
    for (i, a) in all.iter().enumerate() {
        for b in &all[i + 1..] {
            assert_ne!(a.message(), b.message());
        }
    }
}

#[test]
fn unicode_escapes_are_decoded_to_utf8() {
    let h = r#"{"__metadata__":{"aé":"€","b":"😀","c":"\u0000"}}"#;
    let (_, header) = parse_header(&container(h, &[])).unwrap();
    let meta = header.metadata.unwrap();
    assert_eq!(meta.name_at(0), "aé".as_bytes());
    assert_eq!(meta.value_at(0), &"€".as_bytes().to_vec());
    assert_eq!(meta.value_at(1), &"😀".as_bytes().to_vec());
    assert_eq!(meta.value_at(2), &vec![0u8]);
    for bad in [r#"{"__metadata__":{"a":"\udc00"}}"#, r#"{"__metadata__":{"a":"\ud83d"}}"#,
                r#"{"__metadata__":{"a":"\u12g4"}}"#, r#"{"__metadata__":{"a":"\q"}}"#,
                "{\"__metadata__\":{\"a\":\"\x01\"}}"] {
        assert_eq!(parse_header(&container(bad, &[])).err(), Some(SafetensorError::MalformedHeader), "{bad}");
    }
}

#[test]
fn non_ascii_names_round_trip() {
    let d = [5u8];
    let mut m = NameMap::new();
    m.insert("größe".as_bytes().to_vec(), TensorView::new(Dtype::U8, vec![1], &d).unwrap());
    let out = serialize(&m, &None).unwrap();
    let h = SafeOpen::new(&out, Framework::Pytorch, None).unwrap();
    assert_eq!(h.keys().unwrap(), vec!["größe".as_bytes().to_vec()]);
    let t = h.get_tensor("größe".as_bytes()).unwrap();
    assert_eq!(&out[t.start..t.end], &d[..]);
}
