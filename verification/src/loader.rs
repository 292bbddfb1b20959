//! Safetensors model file loader.

use vstd::prelude::*;
use vstd::slice::slice_subrange;
use vstd::utf8::valid_utf8;
use crate::ascii::{COMMA, OPEN_BRACE};
use crate::bytes::{le_value, read_u32, read_u64};
use crate::cursor::{TensorEntry, byte_size_is, entry_views, parse_header_object};
use crate::error::{Error, Result};
use crate::header::{
    EntryView, header_entries, header_member_at, header_tail, lemma_header_member_at,
    lemma_space_end, punct_end, space_end, stands_at,
};
use crate::tensor::{MAX_DIMS, Tensor, product};
use crate::text::{same_text, utf8_text};

verus! {

/// Supported tensor element types.
#[derive(Clone, Copy, Debug, PartialEq, Eq, Structural)]
pub enum Dtype {
    /// 32-bit float.
    F32,
    /// 16-bit IEEE float.
    F16,
    /// 16-bit bfloat.
    BF16,
    /// 8-bit signed integer.
    I8,
    /// 8-bit unsigned integer.
    U8,
    /// 32-bit signed integer.
    I32,
    /// 64-bit signed integer.
    I64,
    /// Boolean (1 byte per element).
    Bool,
}

/// The dtype that a header names, if it is a supported one.
pub open spec fn dtype_named(name: Seq<char>) -> Result<Dtype> {
    if name == "F32"@ {
        Ok(Dtype::F32)
    } else if name == "F16"@ {
        Ok(Dtype::F16)
    } else if name == "BF16"@ {
        Ok(Dtype::BF16)
    } else if name == "I8"@ {
        Ok(Dtype::I8)
    } else if name == "U8"@ {
        Ok(Dtype::U8)
    } else if name == "I32"@ {
        Ok(Dtype::I32)
    } else if name == "I64"@ {
        Ok(Dtype::I64)
    } else if name == "BOOL"@ {
        Ok(Dtype::Bool)
    } else {
        Err(Error::UnsupportedDtype)
    }
}

impl Dtype {
    /// The size in bytes of a single element of this dtype.
    pub open spec fn width(self) -> usize {
        match self {
            Dtype::F32 | Dtype::I32 => 4,
            Dtype::F16 | Dtype::BF16 => 2,
            Dtype::I8 | Dtype::U8 | Dtype::Bool => 1,
            Dtype::I64 => 8,
        }
    }

    /// Returns the size in bytes of a single element of this dtype.
    pub fn size(self) -> (res: usize)
        ensures
            res == self.width(),
    {
        match self {
            Dtype::F32 | Dtype::I32 => 4,
            Dtype::F16 | Dtype::BF16 => 2,
            Dtype::I8 | Dtype::U8 | Dtype::Bool => 1,
            Dtype::I64 => 8,
        }
    }

    /// The dtype with the given header name.
    pub fn from_str(s: &str) -> (res: Result<Self>)
        ensures
            res == dtype_named(s@),
    {
        if same_text(s, "F32") {
            Ok(Dtype::F32)
        } else if same_text(s, "F16") {
            Ok(Dtype::F16)
        } else if same_text(s, "BF16") {
            Ok(Dtype::BF16)
        } else if same_text(s, "I8") {
            Ok(Dtype::I8)
        } else if same_text(s, "U8") {
            Ok(Dtype::U8)
        } else if same_text(s, "I32") {
            Ok(Dtype::I32)
        } else if same_text(s, "I64") {
            Ok(Dtype::I64)
        } else if same_text(s, "BOOL") {
            Ok(Dtype::Bool)
        } else {
            Err(Error::UnsupportedDtype)
        }
    }
}

// ---------------------------------------------------------------------------
// Model files
// ---------------------------------------------------------------------------

/// What a safetensors file holds: its tensor entries in declaration order, or
/// the error that the bytes deserve.
///
/// The file is a little-endian `u64` header length, a UTF-8 JSON header of that
/// many bytes, and the tensor data.
pub open spec fn file_entries(bytes: Seq<u8>) -> Result<Seq<EntryView>> {
    if bytes.len() < 8 {
        Err(Error::HeaderTooShort)
    } else {
        let payload_start = 8 + le_value(bytes.subrange(0, 8)) as int;
        if payload_start > bytes.len() {
            Err(Error::HeaderLengthOutOfBounds)
        } else {
            let header = bytes.subrange(8, payload_start);
            if !valid_utf8(header) {
                Err(Error::HeaderNotUtf8)
            } else {
                header_entries(header, payload_start, bytes.len() - payload_start)
            }
        }
    }
}

/// The index at or after `i` of the first entry with the given name.
pub open spec fn index_of_entry(entries: Seq<EntryView>, name: Seq<char>, i: int) -> Option<int>
    decreases entries.len() - i,
{
    if !(0 <= i < entries.len()) {
        None
    } else if entries[i].name == name {
        Some(i)
    } else {
        index_of_entry(entries, name, i + 1)
    }
}

/// The first entry with the given name.
pub open spec fn entry_named(entries: Seq<EntryView>, name: Seq<char>) -> Option<EntryView> {
    match index_of_entry(entries, name, 0) {
        Some(k) => Some(entries[k]),
        None => None,
    }
}

/// An entry lies inside a file of `len` bytes and takes as many bytes as its
/// shape and element type say.
pub open spec fn entry_fits(entry: EntryView, len: nat) -> bool {
    &&& 0 <= entry.data_start <= entry.data_end <= len
    &&& product(entry.shape) * entry.dtype.width() == entry.data_end - entry.data_start
}

proof fn lemma_header_tail_fits(
    s: Seq<u8>,
    i: int,
    payload_start: int,
    payload_len: int,
    acc: Seq<EntryView>,
)
    requires
        0 <= payload_start,
        0 <= payload_len,
        forall|k: int|
            0 <= k < acc.len() ==> entry_fits(
                #[trigger] acc[k],
                (payload_start + payload_len) as nat,
            ),
    ensures
        header_tail(s, i, payload_start, payload_len, acc) matches Ok(entries) ==> forall|k: int|
            0 <= k < entries.len() ==> entry_fits(
                #[trigger] entries[k],
                (payload_start + payload_len) as nat,
            ),
    decreases s.len() - i,
{
    if i >= 0 {
        lemma_header_member_at(s, i, payload_start, payload_len, acc);
        if let Ok((entries, c)) = header_member_at(s, i, payload_start, payload_len, acc) {
            lemma_space_end(s, c);
            if stands_at(s, space_end(s, c), COMMA) {
                lemma_header_tail_fits(
                    s,
                    space_end(s, c) + 1,
                    payload_start,
                    payload_len,
                    entries,
                );
            }
        }
    }
}

/// In a file that parses, every entry lies inside the file and takes as many
/// bytes as its shape and element type say.
pub proof fn lemma_file_entries_fit(bytes: Seq<u8>)
    ensures
        file_entries(bytes) matches Ok(entries) ==> forall|k: int|
            0 <= k < entries.len() ==> entry_fits(#[trigger] entries[k], bytes.len()),
{
    if file_entries(bytes) is Ok {
        let payload_start = 8 + le_value(bytes.subrange(0, 8)) as int;
        let header = bytes.subrange(8, payload_start);
        if let Ok(a) = punct_end(header, 0, OPEN_BRACE) {
            lemma_header_tail_fits(
                header,
                space_end(header, a),
                payload_start,
                bytes.len() - payload_start,
                Seq::empty(),
            );
        }
    }
}

/// Every name that a file lists is a name under which a tensor is found: the
/// first one of that name.
pub proof fn lemma_listed_names_are_found(entries: Seq<EntryView>, k: int)
    requires
        0 <= k < entries.len(),
    ensures
        entry_named(entries, entries[k].name) matches Some(entry) && entry.name == entries[k].name,
        (forall|j: int| 0 <= j < k ==> #[trigger] entries[j].name != entries[k].name)
            ==> entry_named(entries, entries[k].name) == Some(entries[k]),
{
    lemma_index_of_entry(entries, entries[k].name, 0, k);
}

proof fn lemma_header_tail_names(
    s: Seq<u8>,
    i: int,
    payload_start: int,
    payload_len: int,
    acc: Seq<EntryView>,
)
    requires
        0 <= i,
        forall|k: int| 0 <= k < acc.len() ==> (#[trigger] acc[k]).name != "__metadata__"@,
    ensures
        header_tail(s, i, payload_start, payload_len, acc) matches Ok(entries) ==> forall|k: int|
            0 <= k < entries.len() ==> (#[trigger] entries[k]).name != "__metadata__"@,
    decreases s.len() - i,
{
    if let Ok((entries, c)) = header_member_at(s, i, payload_start, payload_len, acc) {
        lemma_header_member_at(s, i, payload_start, payload_len, acc);
        lemma_space_end(s, c);
        if stands_at(s, space_end(s, c), COMMA) {
            lemma_header_tail_names(s, space_end(s, c) + 1, payload_start, payload_len, entries);
        }
    }
}

/// The metadata block is no tensor.
pub proof fn lemma_no_metadata_entry(bytes: Seq<u8>)
    ensures
        file_entries(bytes) matches Ok(entries) ==> forall|k: int|
            0 <= k < entries.len() ==> (#[trigger] entries[k]).name != "__metadata__"@,
{
    if file_entries(bytes) is Ok {
        let payload_start = 8 + le_value(bytes.subrange(0, 8)) as int;
        let header = bytes.subrange(8, payload_start);
        lemma_space_end(header, 0);
        if let Ok(a) = punct_end(header, 0, OPEN_BRACE) {
            lemma_space_end(header, a);
            lemma_header_tail_names(
                header,
                space_end(header, a),
                payload_start,
                bytes.len() - payload_start,
                Seq::empty(),
            );
        }
    }
}

proof fn lemma_index_of_entry(entries: Seq<EntryView>, name: Seq<char>, i: int, k: int)
    requires
        0 <= i <= k < entries.len(),
        entries[k].name == name,
    ensures
        index_of_entry(entries, name, i) matches Some(j) && i <= j <= k && entries[j].name == name,
        (forall|j: int| i <= j < k ==> #[trigger] entries[j].name != name) ==> index_of_entry(
            entries,
            name,
            i,
        ) == Some(k),
    decreases k - i,
{
    if entries[i].name != name {
        lemma_index_of_entry(entries, name, i + 1, k);
    }
}

/// A parsed safetensors file. Does not own the bytes: it borrows from the
/// caller so the data can stay in an `mmap`, an `ArrayBuffer`, or any other
/// non-`Vec` storage.
#[derive(Debug)]
pub struct ModelFile<'a> {
    bytes: &'a [u8],
    tensors: Vec<TensorEntry>,
}

impl<'a> ModelFile<'a> {
    /// The bytes of the whole file.
    pub closed spec fn bytes(&self) -> Seq<u8> {
        self.bytes@
    }

    /// The tensor entries in declaration order.
    pub closed spec fn entries(&self) -> Seq<EntryView> {
        entry_views(self.tensors@)
    }

    /// The entries are what the bytes say.
    #[verifier::type_invariant]
    spec fn inv(&self) -> bool {
        file_entries(self.bytes@) == Ok::<Seq<EntryView>, Error>(entry_views(self.tensors@))
    }

    /// Parses a safetensors file from a byte slice.
    pub fn parse(bytes: &'a [u8]) -> (res: Result<Self>)
        ensures
            match file_entries(bytes@) {
                Ok(entries) => res matches Ok(file) && file.bytes() == bytes@ && file.entries()
                    == entries,
                Err(e) => res == Err::<Self, Error>(e),
            },
    {
        if bytes.len() < 8 {
            return Err(Error::HeaderTooShort);
        }
        let header_len: u64 = read_u64(slice_subrange(bytes, 0, 8));
        if header_len > (bytes.len() - 8) as u64 {
            return Err(Error::HeaderLengthOutOfBounds);
        }
        let payload_start: usize = 8 + header_len as usize;
        let payload_len: usize = bytes.len() - payload_start;
        let header = slice_subrange(bytes, 8, payload_start);
        // The header MUST be valid UTF-8: safetensors mandates it.
        match utf8_text(header) {
            Some(_) => {},
            None => {
                return Err(Error::HeaderNotUtf8);
            },
        }
        match parse_header_object(header, payload_start, payload_len) {
            Ok(tensors) => Ok(ModelFile { bytes, tensors }),
            Err(e) => Err(e),
        }
    }

    /// Number of tensors in the file (excluding the `__metadata__` block).
    pub fn len(&self) -> (res: usize)
        ensures
            res == self.entries().len(),
    {
        self.tensors.len()
    }

    /// Returns `true` if the file contains no tensors.
    pub fn is_empty(&self) -> (res: bool)
        ensures
            res == (self.entries().len() == 0),
    {
        self.tensors.len() == 0
    }

    /// Tensor names in declaration order.
    pub fn names(&self) -> (res: Vec<&str>)
        ensures
            res@.len() == self.entries().len(),
            forall|k: int|
                0 <= k < res@.len() ==> (#[trigger] res@[k])@ == self.entries()[k].name,
    {
        let n: usize = self.tensors.len();
        let mut out: Vec<&str> = Vec::new();
        let mut i: usize = 0;
        while i < n
            invariant
                i <= n,
                n == self.tensors@.len(),
                out@.len() == i,
                forall|k: int| 0 <= k < i ==> (#[trigger] out@[k])@ == self.tensors@[k].name@,
            decreases n - i,
        {
            out.push(self.tensors[i].name.as_str());
            i = i + 1;
        }
        assert(forall|k: int|
            0 <= k < n ==> (#[trigger] self.entries()[k]).name == self.tensors@[k].name@);
        out
    }

    /// Returns a borrowed view of the named tensor: the first one of that name.
    pub fn get(&self, name: &str) -> (res: Result<TensorView<'_>>)
        ensures
            match entry_named(self.entries(), name@) {
                Some(entry) => res matches Ok(view) && view.shows(entry, self.bytes()),
                None => res == Err::<TensorView<'_>, Error>(Error::TensorNotFound),
            },
            res matches Ok(view) ==> view.consistent(),
    {
        let n: usize = self.tensors.len();
        let mut i: usize = 0;
        let ghost entries = self.entries();
        proof {
            use_type_invariant(self);
            lemma_file_entries_fit(self.bytes@);
            assert(file_entries(self.bytes@)->Ok_0 == entries);
        }
        while i < n
            invariant
                i <= n,
                n == self.tensors@.len(),
                entries == self.entries(),
                entries == entry_views(self.tensors@),
                forall|k: int|
                    0 <= k < entries.len() ==> entry_fits(
                        #[trigger] entries[k],
                        self.bytes@.len(),
                    ),
                index_of_entry(entries, name@, 0) == index_of_entry(entries, name@, i as int),
            decreases n - i,
        {
            let entry = &self.tensors[i];
            assert(entries[i as int] == entry@);
            if same_text(entry.name.as_str(), name) {
                return Ok(
                    TensorView {
                        dtype: entry.dtype,
                        shape: entry.shape.as_slice(),
                        raw: slice_subrange(self.bytes, entry.data_start, entry.data_end),
                    },
                );
            }
            i = i + 1;
        }
        Err(Error::TensorNotFound)
    }
}

// ---------------------------------------------------------------------------
// Tensor views
// ---------------------------------------------------------------------------

/// A view into a tensor inside a [`ModelFile`]. Borrows the underlying bytes.
#[derive(Debug, Clone, Copy)]
pub struct TensorView<'a> {
    /// On-disk element type.
    pub dtype: Dtype,
    /// Shape, in declared order.
    pub shape: &'a [usize],
    /// Raw little-endian tensor bytes.
    pub raw: &'a [u8],
}

/// The little-endian word number `i` of the raw bytes.
pub open spec fn word_at(raw: Seq<u8>, i: int) -> u32 {
    le_value(raw.subrange(4 * i, 4 * i + 4)) as u32
}

/// The big-endian word number `i` of the raw bytes.
pub open spec fn swapped_word_at(raw: Seq<u8>, i: int) -> u32 {
    le_value(raw.subrange(4 * i, 4 * i + 4).reverse()) as u32
}

/// The words are the raw bytes read four at a time.
pub open spec fn words_of(words: Seq<u32>, raw: Seq<u8>, little_endian: bool) -> bool {
    &&& words.len() * 4 == raw.len()
    &&& forall|i: int|
        0 <= i < words.len() ==> #[trigger] words[i] == if little_endian {
            word_at(raw, i)
        } else {
            swapped_word_at(raw, i)
        }
}

/// The elements are what `decode` makes of the little-endian words.
pub open spec fn decoded<T, F: Fn(u32) -> T>(elems: Seq<T>, raw: Seq<u8>, decode: F) -> bool {
    &&& elems.len() * 4 == raw.len()
    &&& forall|i: int|
        0 <= i < elems.len() ==> call_ensures(decode, (word_at(raw, i),), #[trigger] elems[i])
}

/// Why a cast of a byte slice to a word slice failed.
#[derive(Clone, Copy, Debug, PartialEq, Eq, Structural)]
pub enum CastFailure {
    /// The bytes are not aligned to the word size.
    NotAligned,
    /// The bytes are not a whole number of words.
    Slop,
    /// The sizes of two single values differ.
    SizeMismatch,
    /// The alignments of two allocations differ.
    AlignmentMismatch,
}

/// Calls `bytemuck::try_cast_slice::<u8, u32>` and tells its four failures
/// apart. A success holds the same bytes read four at a time in the byte order
/// of the machine, which is one of two; which of them is left unsaid. Whether the
/// bytes are aligned depends on where they lie, so an alignment failure may come
/// for any bytes; a slop failure comes only when the length is not a multiple of
/// four. The other two failures do not come from a slice cast.
#[verifier::external_body]
fn cast_words(raw: &[u8]) -> (res: core::result::Result<&[u32], CastFailure>)
    ensures
        match res {
            Ok(words) => words_of(words@, raw@, true) || words_of(words@, raw@, false),
            Err(CastFailure::NotAligned) => true,
            Err(CastFailure::Slop) => raw@.len() % 4 != 0,
            Err(_) => false,
        },
{
    bytemuck::try_cast_slice::<u8, u32>(raw).map_err(|e| match e {
        bytemuck::PodCastError::TargetAlignmentGreaterAndInputNotAligned => CastFailure::NotAligned,
        bytemuck::PodCastError::OutputSliceWouldHaveSlop => CastFailure::Slop,
        bytemuck::PodCastError::SizeMismatch => CastFailure::SizeMismatch,
        bytemuck::PodCastError::AlignmentMismatch => CastFailure::AlignmentMismatch,
    })
}

/// The error that reports a failed cast.
pub open spec fn cast_error_of(failure: CastFailure) -> Error {
    match failure {
        CastFailure::NotAligned => Error::Alignment,
        CastFailure::Slop | CastFailure::SizeMismatch => Error::UnevenLength,
        CastFailure::AlignmentMismatch => Error::Alignment,
    }
}

/// The error that reports a failed cast.
pub fn cast_error(failure: CastFailure) -> (res: Error)
    ensures
        res == cast_error_of(failure),
{
    match failure {
        CastFailure::NotAligned => Error::Alignment,
        CastFailure::Slop | CastFailure::SizeMismatch => Error::UnevenLength,
        CastFailure::AlignmentMismatch => Error::Alignment,
    }
}

impl<'a> TensorView<'a> {
    /// The view shows the given entry of a file with the given bytes.
    pub open spec fn shows(&self, entry: EntryView, bytes: Seq<u8>) -> bool {
        &&& self.dtype == entry.dtype
        &&& self.shape@ == entry.shape
        &&& self.raw@ == bytes.subrange(entry.data_start, entry.data_end)
    }

    /// The raw bytes are as many as shape and element type say.
    pub open spec fn consistent(&self) -> bool {
        product(self.shape@) * self.dtype.width() == self.raw@.len()
    }

    /// Why the view cannot become an owned `F32` tensor, if it cannot.
    pub open spec fn tensor_error(&self) -> Option<Error> {
        if self.dtype != Dtype::F32 {
            Some(Error::DtypeMismatch)
        } else if self.raw@.len() % 4 != 0 {
            Some(Error::UnevenLength)
        } else if product(self.shape@) * 4 != self.raw@.len() {
            Some(Error::ShapeDataMismatch)
        } else {
            None
        }
    }

    /// Returns the bit patterns of the `F32` tensor data without copying, as
    /// this machine reads them.
    ///
    /// Fails if the dtype is not `F32` or if the byte buffer is not aligned
    /// to 4 bytes. Use [`to_tensor`](Self::to_tensor) for an owned copy that
    /// works regardless of alignment.
    pub fn as_f32(&self) -> (res: Result<&'a [u32]>)
        ensures
            self.dtype != Dtype::F32 ==> res == Err::<&'a [u32], Error>(Error::DtypeMismatch),
            self.dtype == Dtype::F32 ==> match res {
                Ok(words) => words_of(words@, self.raw@, true) || words_of(
                    words@,
                    self.raw@,
                    false,
                ),
                Err(e) => e == Error::Alignment || (e == Error::UnevenLength && self.raw@.len() % 4
                    != 0),
            },
    {
        if self.dtype != Dtype::F32 {
            return Err(Error::DtypeMismatch);
        }
        match cast_words(self.raw) {
            Ok(words) => Ok(words),
            Err(failure) => Err(cast_error(failure)),
        }
    }

    /// Returns the raw bytes of a `U8` tensor.
    pub fn as_u8(&self) -> (res: Result<&'a [u8]>)
        ensures
            res == if self.dtype == Dtype::U8 {
                Ok::<&'a [u8], Error>(self.raw)
            } else {
                Err::<&'a [u8], Error>(Error::DtypeMismatch)
            },
    {
        if self.dtype != Dtype::U8 {
            return Err(Error::DtypeMismatch);
        }
        Ok(self.raw)
    }

    /// Returns the elements of an `I8` tensor.
    pub fn as_i8(&self) -> (res: Result<Vec<i8>>)
        ensures
            match res {
                Ok(values) => self.dtype == Dtype::I8 && values@ == self.raw@.map_values(
                    |b: u8| b as i8,
                ),
                Err(e) => self.dtype != Dtype::I8 && e == Error::DtypeMismatch,
            },
    {
        if self.dtype != Dtype::I8 {
            return Err(Error::DtypeMismatch);
        }
        let n: usize = self.raw.len();
        let mut out: Vec<i8> = Vec::new();
        let mut i: usize = 0;
        while i < n
            invariant
                i <= n,
                n == self.raw@.len(),
                out@ == self.raw@.take(i as int).map_values(|b: u8| b as i8),
            decreases n - i,
        {
            out.push(self.raw[i] as i8);
            i = i + 1;
        }
        assert(self.raw@.take(n as int) =~= self.raw@);
        Ok(out)
    }

    /// Allocates an owned [`Tensor`] from this view (`F32` only). `decode` turns
    /// the bit pattern of an element into the element.
    ///
    /// The bytes are read as little-endian words on every machine, aligned or
    /// not.
    pub fn to_tensor<T, F: Fn(u32) -> T>(&self, decode: &F) -> (res: Result<Tensor<T>>)
        requires
            forall|word: u32| call_requires(*decode, (word,)),
            self.tensor_error() is None ==> self.shape@.len() <= MAX_DIMS,
        ensures
            match self.tensor_error() {
                Some(e) => res == Err::<Tensor<T>, Error>(e),
                None => res matches Ok(tensor) && tensor.wf() && tensor.dims() == self.shape@
                    && decoded(tensor.elems(), self.raw@, *decode),
            },
    {
        if self.dtype != Dtype::F32 {
            return Err(Error::DtypeMismatch);
        }
        let elem_size: usize = self.dtype.size();
        if self.raw.len() % elem_size != 0 {
            return Err(Error::UnevenLength);
        }
        if !byte_size_is(self.shape, self.dtype, self.raw.len()) {
            return Err(Error::ShapeDataMismatch);
        }
        let n: usize = self.raw.len() / 4;
        let mut data: Vec<T> = Vec::new();
        let mut i: usize = 0;
        while i < n
            invariant
                i <= n,
                n * 4 == self.raw@.len(),
                n * 4 <= usize::MAX,
                forall|word: u32| call_requires(*decode, (word,)),
                data@.len() == i,
                forall|k: int|
                    0 <= k < i ==> call_ensures(
                        *decode,
                        (word_at(self.raw@, k),),
                        #[trigger] data@[k],
                    ),
            decreases n - i,
        {
            let word: u32 = read_u32(self.raw, 4 * i);
            assert(word == word_at(self.raw@, i as int));
            data.push(decode(word));
            i = i + 1;
        }
        Ok(Tensor::from_vec(data, self.shape))
    }
}

// ---------------------------------------------------------------------------
// Loading by name
// ---------------------------------------------------------------------------

/// Why no `F32` tensor of this name can be loaded, if it cannot.
pub open spec fn load_error(entries: Seq<EntryView>, name: Seq<char>) -> Option<Error> {
    match entry_named(entries, name) {
        None => Some(Error::TensorNotFound),
        Some(entry) => if entry.dtype != Dtype::F32 {
            Some(Error::DtypeMismatch)
        } else {
            None
        },
    }
}

/// A tensor of this name, if it is loaded, has no more dimensions than a
/// [`Tensor`] can have.
pub open spec fn rank_fits(entries: Seq<EntryView>, name: Seq<char>) -> bool {
    load_error(entries, name) is None ==> entry_named(entries, name).unwrap().shape.len()
        <= MAX_DIMS
}

/// The tensor is the one that the file holds under this name.
pub open spec fn is_loaded<T, F: Fn(u32) -> T>(
    tensor: Tensor<T>,
    entries: Seq<EntryView>,
    bytes: Seq<u8>,
    name: Seq<char>,
    decode: F,
) -> bool {
    &&& tensor.wf()
    &&& entry_named(entries, name) matches Some(entry) && tensor.dims() == entry.shape && decoded(
        tensor.elems(),
        bytes.subrange(entry.data_start, entry.data_end),
        decode,
    )
}

impl<'a> ModelFile<'a> {
    /// Loads the named `F32` tensor.
    pub fn load<T, F: Fn(u32) -> T>(&self, name: &str, decode: &F) -> (res: Result<Tensor<T>>)
        requires
            forall|word: u32| call_requires(*decode, (word,)),
            rank_fits(self.entries(), name@),
        ensures
            match load_error(self.entries(), name@) {
                Some(e) => res == Err::<Tensor<T>, Error>(e),
                None => res matches Ok(tensor) && is_loaded(
                    tensor,
                    self.entries(),
                    self.bytes(),
                    name@,
                    *decode,
                ),
            },
    {
        match self.get(name) {
            Ok(view) => view.to_tensor(decode),
            Err(e) => Err(e),
        }
    }

    /// Whether the named tensor, if it can be loaded, has no more dimensions
    /// than a [`Tensor`] can have.
    pub fn rank_fits(&self, name: &str) -> (res: bool)
        ensures
            res == rank_fits(self.entries(), name@),
    {
        match self.get(name) {
            Ok(view) => view.dtype != Dtype::F32 || view.shape.len() <= MAX_DIMS,
            Err(_) => true,
        }
    }
}

} // verus!
