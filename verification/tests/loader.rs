use wasmicro::error::Error;
use wasmicro::loader::{cast_error, CastFailure, Dtype, ModelFile, TensorView};
use wasmicro::tensor::Tensor;

/// Builds a synthetic safetensors file containing the given tensors.
fn build_test_file(tensors: &[(&str, Dtype, Vec<usize>, Vec<u8>)]) -> Vec<u8> {
    let mut header = String::from("{");
    let mut offset = 0usize;
    for (i, (name, dtype, shape, data)) in tensors.iter().enumerate() {
        if i > 0 {
            header.push(',');
        }
        let dtype_str = match dtype {
            Dtype::F32 => "F32",
            Dtype::F16 => "F16",
            Dtype::BF16 => "BF16",
            Dtype::I8 => "I8",
            Dtype::U8 => "U8",
            Dtype::I32 => "I32",
            Dtype::I64 => "I64",
            Dtype::Bool => "BOOL",
        };
        let shape_str = shape
            .iter()
            .map(|x| x.to_string())
            .collect::<Vec<_>>()
            .join(",");
        header.push_str(&format!(
            r#""{}":{{"dtype":"{}","shape":[{}],"data_offsets":[{},{}]}}"#,
            name,
            dtype_str,
            shape_str,
            offset,
            offset + data.len()
        ));
        offset += data.len();
    }
    // Add a metadata block to ensure the parser ignores it.
    header.push_str(r#","__metadata__":{"format":"pt"}"#);
    header.push('}');

    let header_bytes = header.into_bytes();
    let mut out = Vec::new();
    out.extend_from_slice(&(header_bytes.len() as u64).to_le_bytes());
    out.extend_from_slice(&header_bytes);
    for (_, _, _, data) in tensors {
        out.extend_from_slice(data);
    }
    out
}

/// A file with the given header and payload.
fn file_with(header: &str, payload: &[u8]) -> Vec<u8> {
    let mut file = (header.len() as u64).to_le_bytes().to_vec();
    file.extend_from_slice(header.as_bytes());
    file.extend_from_slice(payload);
    file
}

fn f32_bytes(vals: &[f32]) -> Vec<u8> {
    let mut out = Vec::with_capacity(vals.len() * 4);
    for &v in vals {
        out.extend_from_slice(&v.to_le_bytes());
    }
    out
}

fn to_f32(view: &TensorView<'_>) -> Result<Tensor<f32>, Error> {
    view.to_tensor(&f32::from_bits)
}

#[test]
fn parse_single_tensor() {
    let data = f32_bytes(&[1.0, 2.0, 3.0, 4.0]);
    let file = build_test_file(&[("weight", Dtype::F32, vec![2, 2], data)]);
    let m = ModelFile::parse(&file).expect("parse");
    assert_eq!(m.len(), 1);
    let v = m.get("weight").expect("get");
    assert_eq!(v.dtype, Dtype::F32);
    assert_eq!(v.shape, &[2, 2]);
    let t = to_f32(&v).expect("to_tensor");
    assert_eq!(t.data(), &[1.0, 2.0, 3.0, 4.0]);
}

#[test]
fn parse_multiple_tensors_preserves_order() {
    let a = f32_bytes(&[1.0, 2.0]);
    let b = f32_bytes(&[10.0, 20.0, 30.0]);
    let file = build_test_file(&[
        ("layer.weight", Dtype::F32, vec![2], a),
        ("layer.bias", Dtype::F32, vec![3], b),
    ]);
    let m = ModelFile::parse(&file).expect("parse");
    let names: Vec<&str> = m.names();
    assert_eq!(names, vec!["layer.weight", "layer.bias"]);

    let bias = to_f32(&m.get("layer.bias").unwrap()).unwrap();
    assert_eq!(bias.data(), &[10.0, 20.0, 30.0]);
}

#[test]
fn missing_tensor_returns_error() {
    let data = f32_bytes(&[1.0]);
    let file = build_test_file(&[("w", Dtype::F32, vec![1], data)]);
    let m = ModelFile::parse(&file).unwrap();
    assert!(matches!(m.get("missing"), Err(Error::TensorNotFound)));
}

#[test]
fn truncated_file_is_rejected() {
    let short = vec![0u8; 4];
    assert!(matches!(ModelFile::parse(&short), Err(Error::HeaderTooShort)));
}

#[test]
fn header_length_past_buffer_is_rejected() {
    let mut bad = (1024u64).to_le_bytes().to_vec();
    bad.extend_from_slice(b"{}");
    assert!(matches!(
        ModelFile::parse(&bad),
        Err(Error::HeaderLengthOutOfBounds)
    ));
    let mut huge = u64::MAX.to_le_bytes().to_vec();
    huge.extend_from_slice(b"{}");
    assert!(matches!(
        ModelFile::parse(&huge),
        Err(Error::HeaderLengthOutOfBounds)
    ));
}

#[test]
fn shape_data_mismatch_is_rejected() {
    // Header claims a [2, 2] F32 tensor (= 16 bytes) but we provide only 8.
    let header = r#"{"w":{"dtype":"F32","shape":[2,2],"data_offsets":[0,8]}}"#;
    let header_bytes = header.as_bytes();
    let mut file = (header_bytes.len() as u64).to_le_bytes().to_vec();
    file.extend_from_slice(header_bytes);
    file.extend_from_slice(&[0u8; 8]);
    assert!(matches!(
        ModelFile::parse(&file),
        Err(Error::ShapeDataMismatch)
    ));
}

#[test]
fn empty_header_holds_no_tensors() {
    let file = file_with("  { } trailing", &[]);
    let m = ModelFile::parse(&file).unwrap();
    assert_eq!(m.len(), 0);
    assert!(m.is_empty());
    assert!(m.names().is_empty());
}

#[test]
fn invalid_utf8_header_is_rejected() {
    let mut file = 2u64.to_le_bytes().to_vec();
    file.extend_from_slice(&[0xff, 0xfe]);
    assert!(matches!(ModelFile::parse(&file), Err(Error::HeaderNotUtf8)));
}

#[test]
fn header_errors_name_their_reason() {
    let cases: [(&str, &str); 19] = [
        ("", "unexpected byte"),
        ("[]", "unexpected byte"),
        ("{1", "expected string"),
        (r#"{"w"#, "unterminated string"),
        (r#"{"w\"#, "truncated escape"),
        (r#"{"w\u0041":{}}"#, "unsupported escape"),
        (r#"{"w" {}}"#, "unexpected byte"),
        (r#"{"w":{}}"#, "empty tensor object"),
        (r#"{"w":{"shape":[x]}}"#, "expected integer"),
        (r#"{"w":{"shape":[18446744073709551616]}}"#, "integer overflow"),
        (r#"{"w":{"shape":[1 2]}}"#, "expected ',' or ']'"),
        (r#"{"w":{"data_offsets":[0]}}"#, "data_offsets must have 2 entries"),
        (r#"{"w":{"shape":[1]]}"#, "expected ',' or '}' in tensor object"),
        (r#"{"w":{"shape":[1],"data_offsets":[0,4]}}"#, "missing dtype"),
        (r#"{"w":{"dtype":"F32","data_offsets":[0,4]}}"#, "missing shape"),
        (r#"{"w":{"dtype":"F32","shape":[1]}}"#, "missing data_offsets"),
        (r#"{"__metadata__":tru}"#, "bad literal"),
        (r#"{"__metadata__":?}"#, "unexpected token"),
        (r#"{"__metadata__":{"a":1}]"#, "expected ',' or '}' after entry"),
    ];
    for (header, reason) in cases {
        let file = file_with(header, &[0; 4]);
        assert_eq!(
            ModelFile::parse(&file).err(),
            Some(Error::InvalidHeader(reason)),
            "header {header}"
        );
    }
}

#[test]
fn unsupported_dtype_and_offsets_out_of_bounds_are_rejected() {
    let file = file_with(r#"{"w":{"dtype":"F64","shape":[1],"data_offsets":[0,8]}}"#, &[0; 8]);
    assert_eq!(ModelFile::parse(&file).err(), Some(Error::UnsupportedDtype));
    let file = file_with(r#"{"w":{"dtype":"F32","shape":[1],"data_offsets":[0,4]}}"#, &[0; 3]);
    assert_eq!(ModelFile::parse(&file).err(), Some(Error::DataOffsetsOutOfBounds));
    let file = file_with(r#"{"w":{"dtype":"F32","shape":[1],"data_offsets":[4,0]}}"#, &[0; 8]);
    assert_eq!(ModelFile::parse(&file).err(), Some(Error::DataOffsetsOutOfBounds));
}

#[test]
fn skips_nested_values_and_unknown_fields() {
    let header = concat_header();
    let file = file_with(&header, &[7, 8]);
    let m = ModelFile::parse(&file).unwrap();
    assert_eq!(m.names(), vec!["a\"b\n"]);
    let v = m.get("a\"b\n").unwrap();
    assert_eq!(v.dtype, Dtype::U8);
    assert_eq!(v.raw, &[7, 8]);
    assert_eq!(v.as_u8().unwrap(), &[7, 8]);
    assert_eq!(v.as_i8(), Err(Error::DtypeMismatch));
    assert!(matches!(to_f32(&v), Err(Error::DtypeMismatch)));
    assert_eq!(v.as_f32(), Err(Error::DtypeMismatch));
}

fn concat_header() -> String {
    let mut header = String::from(r#"{ "__metadata__" : {"x":[1,-2.5e+3,{"y":null}],"z":[],"t":true,"f":false,"o":{}}, "#);
    header.push_str(r#""a\"b\n" : {"extra":{"k":[true]}, "dtype":"U8", "dtype":"U8", "shape":[ 2 , 1 ], "data_offsets":[0, 2]} }"#);
    header
}

#[test]
fn first_of_two_equal_names_is_found() {
    let header = r#"{"w":{"dtype":"I8","shape":[1],"data_offsets":[0,1]},"w":{"dtype":"I8","shape":[1],"data_offsets":[1,2]}}"#;
    let file = file_with(header, &[0xff, 2]);
    let m = ModelFile::parse(&file).unwrap();
    assert_eq!(m.len(), 2);
    assert_eq!(m.get("w").unwrap().as_i8().unwrap(), vec![-1]);
    assert_eq!(m.get("w").unwrap().as_u8(), Err(Error::DtypeMismatch));
}

#[test]
fn views_read_words_aligned_or_not() {
    let mut buffer = vec![0u8; 12];
    buffer[0..8].copy_from_slice(&f32_bytes(&[1.5, -2.0]));
    let shape = [2usize];
    for offset in 0..4 {
        buffer.copy_within(0..8, offset);
        let view = TensorView { dtype: Dtype::F32, shape: &shape, raw: &buffer[offset..offset + 8] };
        let t = to_f32(&view).unwrap();
        assert_eq!(t.data(), &[1.5, -2.0]);
        match view.as_f32() {
            Ok(words) => {
                let values: Vec<f32> = words.iter().map(|w| f32::from_bits(*w)).collect();
                assert_eq!(values, vec![1.5, -2.0]);
            }
            Err(e) => assert_eq!(e, Error::Alignment),
        }
        buffer.copy_within(offset..offset + 8, 0);
    }
    // Among four neighbouring offsets exactly one is aligned to four bytes.
    let aligned = (0..4)
        .filter(|&offset| {
            TensorView { dtype: Dtype::F32, shape: &shape, raw: &buffer[offset..offset + 8] }
                .as_f32()
                .is_ok()
        })
        .count();
    assert_eq!(aligned, 1);
}

#[test]
fn uneven_and_mismatched_views_are_rejected() {
    let raw = [0u8; 8];
    let shape = [3usize];
    let uneven = TensorView { dtype: Dtype::F32, shape: &shape, raw: &raw[0..6] };
    assert!(matches!(to_f32(&uneven), Err(Error::UnevenLength)));
    assert!(matches!(uneven.as_f32(), Err(Error::UnevenLength) | Err(Error::Alignment)));
    let mismatched = TensorView { dtype: Dtype::F32, shape: &shape, raw: &raw };
    assert!(matches!(to_f32(&mismatched), Err(Error::ShapeDataMismatch)));
}

#[test]
fn cast_failures_map_to_errors() {
    assert_eq!(cast_error(CastFailure::NotAligned), Error::Alignment);
    assert_eq!(cast_error(CastFailure::Slop), Error::UnevenLength);
    assert_eq!(cast_error(CastFailure::SizeMismatch), Error::UnevenLength);
    assert_eq!(cast_error(CastFailure::AlignmentMismatch), Error::Alignment);
}

#[test]
fn dtype_sizes() {
    assert_eq!(Dtype::F32.size(), 4);
    assert_eq!(Dtype::I32.size(), 4);
    assert_eq!(Dtype::F16.size(), 2);
    assert_eq!(Dtype::BF16.size(), 2);
    assert_eq!(Dtype::I8.size(), 1);
    assert_eq!(Dtype::U8.size(), 1);
    assert_eq!(Dtype::Bool.size(), 1);
    assert_eq!(Dtype::I64.size(), 8);
    assert_eq!(Dtype::from_str("BOOL"), Ok(Dtype::Bool));
    assert_eq!(Dtype::from_str("bool"), Err(Error::UnsupportedDtype));
}

#[test]
fn names_beyond_ascii_are_read() {
    let name = "caf\u{e9}.\u{4e16}\u{1f600}";
    let header = format!(
        r#"{{"{name}":{{"dtype":"U8","shape":[1],"data_offsets":[0,1]}},"\b\f\n":{{"dtype":"U8","shape":[1],"data_offsets":[1,2]}}}}"#
    );
    let file = file_with(&header, &[7, 8]);
    let m = ModelFile::parse(&file).unwrap();
    assert_eq!(m.names(), vec![name, "\u{8}\u{c}\n"]);
    assert_eq!(m.get(name).unwrap().raw, &[7]);
    assert!(matches!(m.get("cafe"), Err(Error::TensorNotFound)));
}

#[test]
fn numbers_beyond_thirty_two_bits_are_not_wrapped() {
    // A length of two and a multiple of 2^32.
    let mut file = ((1u64 << 32) + 2).to_le_bytes().to_vec();
    file.extend_from_slice(b"{}");
    assert!(matches!(ModelFile::parse(&file), Err(Error::HeaderLengthOutOfBounds)));
    // Offsets and dimensions that would fit without their upper half.
    for (shape, offsets) in [("1", "0,4294967297"), ("1", "4294967296,4294967297")] {
        let header =
            format!(r#"{{"a":{{"dtype":"U8","shape":[{shape}],"data_offsets":[{offsets}]}}}}"#);
        assert!(matches!(
            ModelFile::parse(&file_with(&header, &[0])),
            Err(Error::DataOffsetsOutOfBounds)
        ));
    }
    let header = r#"{"a":{"dtype":"U8","shape":[4294967297],"data_offsets":[0,1]}}"#;
    assert!(matches!(
        ModelFile::parse(&file_with(header, &[0])),
        Err(Error::ShapeDataMismatch)
    ));
}

#[test]
fn skipped_strings_may_hold_code_points() {
    let header = r#"{"__metadata__":{"k\u00e9y":"\u0001\ud83d\uDE00"},"w":{"note":["\u0041"],"dtype":"U8","shape":[1],"data_offsets":[0,1]}}"#;
    let file = file_with(header, &[7]);
    let m = ModelFile::parse(&file).unwrap();
    assert_eq!(m.names(), vec!["w"]);
    assert_eq!(m.get("w").unwrap().raw, &[7]);
    for value in [r#""\u00g1""#, r#""\u00"#, r#""\q""#] {
        let header = format!(r#"{{"__metadata__":{value}}}"#);
        assert_eq!(
            ModelFile::parse(&file_with(&header, &[])).err(),
            Some(Error::InvalidHeader("unsupported escape"))
        );
    }
}
