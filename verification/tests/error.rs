use wasmicro::error::Error;

#[test]
fn messages() {
    let cases = [
        (Error::HeaderTooShort, "safetensors header is too short"),
        (Error::HeaderLengthOutOfBounds, "header length exceeds buffer size"),
        (Error::HeaderNotUtf8, "header is not valid UTF-8"),
        (Error::InvalidHeader("reason"), "invalid safetensors header: reason"),
        (Error::UnsupportedDtype, "unsupported tensor dtype"),
        (Error::DataOffsetsOutOfBounds, "tensor data offsets are out of bounds"),
        (Error::TensorNotFound, "tensor not found in model file"),
        (Error::DtypeMismatch, "tensor dtype does not match the requested type"),
        (Error::Alignment, "tensor data is not aligned for the requested type"),
        (Error::UnevenLength, "tensor byte length is not a multiple of element size"),
        (Error::ShapeDataMismatch, "declared shape does not match data length"),
        (Error::InvalidTokenizer("reason"), "invalid tokenizer: reason"),
        (Error::InvalidInput("reason"), "invalid input: reason"),
    ];
    for (error, text) in cases {
        assert_eq!(error.message(), text);
    }
}
