//! The GGUF container: metadata values, tensor descriptors, and the checks that
//! locate a tensor's bytes inside the file.
//!
//! Floating-point metadata is carried as its IEEE-754 bit pattern.

use vstd::prelude::*;
use crate::text::{push_str, push_decimal, spec_decimal, str_eq};

verus! {

/// Errors raised while reading a GGUF container.
#[derive(Debug, Clone, PartialEq, Eq)]
pub enum GgufError {
    /// The data ended before a field could be read.
    Io(String),
    /// The first word is not `GGUF`.
    InvalidMagic(u32),
    /// Only versions 2 and 3 are understood.
    UnsupportedVersion(u32),
    /// A string field is not valid UTF-8.
    InvalidString,
    /// A metadata value or tensor element type code is unknown.
    UnsupportedValueType(u32),
    /// No tensor carries the requested name.
    TensorNotFound(String),
    /// A count, length or offset is out of range.
    MalformedFile(String),
}

/// A metadata value.
#[derive(Debug)]
pub enum GgufValue {
    U8(u8),
    I8(i8),
    U16(u16),
    I16(i16),
    U32(u32),
    I32(i32),
    U64(u64),
    I64(i64),
    /// IEEE-754 bits of a 32-bit float.
    F32(u32),
    /// IEEE-754 bits of a 64-bit float.
    F64(u64),
    Bool(bool),
    String(String),
    Array(Vec<GgufValue>),
}


/// Mathematical form of a metadata value.
pub enum GgufValueView {
    U8(u8),
    I8(i8),
    U16(u16),
    I16(i16),
    U32(u32),
    I32(i32),
    U64(u64),
    I64(i64),
    F32(u32),
    F64(u64),
    Bool(bool),
    String(Seq<char>),
    Array(Seq<GgufValueView>),
}

impl GgufValue {
    /// The value with its text and nested arrays taken as sequences.
    pub open spec fn view_value(&self) -> GgufValueView
        decreases self,
    {
        match self {
            GgufValue::U8(x) => GgufValueView::U8(*x),
            GgufValue::I8(x) => GgufValueView::I8(*x),
            GgufValue::U16(x) => GgufValueView::U16(*x),
            GgufValue::I16(x) => GgufValueView::I16(*x),
            GgufValue::U32(x) => GgufValueView::U32(*x),
            GgufValue::I32(x) => GgufValueView::I32(*x),
            GgufValue::U64(x) => GgufValueView::U64(*x),
            GgufValue::I64(x) => GgufValueView::I64(*x),
            GgufValue::F32(x) => GgufValueView::F32(*x),
            GgufValue::F64(x) => GgufValueView::F64(*x),
            GgufValue::Bool(x) => GgufValueView::Bool(*x),
            GgufValue::String(s) => GgufValueView::String(s@),
            GgufValue::Array(v) => GgufValueView::Array(Seq::new(v@.len(), |i: int|
                if 0 <= i < v@.len() { v@[i].view_value() } else { GgufValueView::Bool(false) })),
        }
    }
}

/// The value as a non-negative machine-sized integer, when it is one.
pub open spec fn spec_value_usize(v: GgufValue) -> Option<usize> {
    match v {
        GgufValue::U8(x) => Some(x as usize),
        GgufValue::U16(x) => Some(x as usize),
        GgufValue::U32(x) => if x <= usize::MAX { Some(x as usize) } else { None },
        GgufValue::U64(x) => if x <= usize::MAX { Some(x as usize) } else { None },
        GgufValue::I8(x) => if x >= 0 { Some(x as usize) } else { None },
        GgufValue::I16(x) => if x >= 0 { Some(x as usize) } else { None },
        GgufValue::I32(x) => if x >= 0 && x <= usize::MAX { Some(x as usize) } else { None },
        GgufValue::I64(x) => if x >= 0 && x <= usize::MAX { Some(x as usize) } else { None },
        _ => None,
    }
}

impl GgufValue {
    /// The value as a `usize`: any integer variant whose value is non-negative and fits.
    pub fn as_usize(&self) -> (r: Option<usize>)
        ensures
            r == spec_value_usize(*self),
    {
        match self {
            GgufValue::U8(x) => Some(*x as usize),
            GgufValue::U16(x) => Some(*x as usize),
            GgufValue::U32(x) => if (*x as u64) <= (usize::MAX as u64) { Some(*x as usize) } else { None },
            GgufValue::U64(x) => if *x <= (usize::MAX as u64) { Some(*x as usize) } else { None },
            GgufValue::I8(x) => if *x >= 0 { Some(*x as usize) } else { None },
            GgufValue::I16(x) => if *x >= 0 { Some(*x as usize) } else { None },
            GgufValue::I32(x) => if *x >= 0 && (*x as u64) <= (usize::MAX as u64) { Some(*x as usize) } else { None },
            GgufValue::I64(x) => if *x >= 0 && (*x as u64) <= (usize::MAX as u64) { Some(*x as usize) } else { None },
            _ => None,
        }
    }

    /// The text of a `String` value.
    pub fn as_str(&self) -> (r: Option<&str>)
        ensures
            match *self {
                GgufValue::String(s) => r matches Some(t) && t@ == s@,
                _ => r is None,
            },
    {
        match self {
            GgufValue::String(s) => Some(s.as_str()),
            _ => None,
        }
    }

    /// The bit pattern of an `F32` value.
    pub fn as_f32_bits(&self) -> (r: Option<u32>)
        ensures
            match *self {
                GgufValue::F32(b) => r == Some(b),
                _ => r is None,
            },
    {
        match self {
            GgufValue::F32(b) => Some(*b),
            _ => None,
        }
    }
}

/// Descriptor of one tensor stored in the file.
#[derive(Debug, Clone)]
pub struct TensorInfo {
    pub name: String,
    pub n_dims: u32,
    pub dims: Vec<usize>,
    /// Raw element-type code as stored in the file.
    pub ggml_type: u32,
    /// Byte offset of the tensor relative to the data section.
    pub offset: u64,
}

/// The parsed header of a GGUF file: metadata, tensor table and where the data starts.
///
/// Metadata keys and tensor names are unique when produced by `parse_gguf`;
/// lookups return the first match.
#[derive(Debug)]
pub struct GgufFile {
    pub version: u32,
    pub metadata: Vec<(String, GgufValue)>,
    pub tensors: Vec<TensorInfo>,
    pub data_offset: usize,
    /// Total size of the file in bytes.
    pub file_len: usize,
}


/// Mathematical form of an error.
pub enum GgufErrorView {
    Io(Seq<char>),
    InvalidMagic(u32),
    UnsupportedVersion(u32),
    InvalidString,
    UnsupportedValueType(u32),
    TensorNotFound(Seq<char>),
    MalformedFile(Seq<char>),
}

impl View for GgufError {
    type V = GgufErrorView;

    open spec fn view(&self) -> GgufErrorView {
        match self {
            GgufError::Io(m) => GgufErrorView::Io(m@),
            GgufError::InvalidMagic(x) => GgufErrorView::InvalidMagic(*x),
            GgufError::UnsupportedVersion(x) => GgufErrorView::UnsupportedVersion(*x),
            GgufError::InvalidString => GgufErrorView::InvalidString,
            GgufError::UnsupportedValueType(x) => GgufErrorView::UnsupportedValueType(*x),
            GgufError::TensorNotFound(m) => GgufErrorView::TensorNotFound(m@),
            GgufError::MalformedFile(m) => GgufErrorView::MalformedFile(m@),
        }
    }
}

/// Mathematical form of a tensor descriptor.
pub struct TensorInfoView {
    pub name: Seq<char>,
    pub n_dims: u32,
    pub dims: Seq<usize>,
    pub ggml_type: u32,
    pub offset: u64,
}

impl TensorInfo {
    /// The descriptor with its name and dimensions taken as sequences.
    pub open spec fn view_info(&self) -> TensorInfoView {
        TensorInfoView {
            name: self.name@,
            n_dims: self.n_dims,
            dims: self.dims@,
            ggml_type: self.ggml_type,
            offset: self.offset,
        }
    }
}

/// Mathematical form of a parsed header.
pub struct GgufFileView {
    pub version: u32,
    pub metadata: Seq<(Seq<char>, GgufValueView)>,
    pub tensors: Seq<TensorInfoView>,
    pub data_offset: usize,
    pub file_len: usize,
}

/// The views of metadata entries.
pub open spec fn spec_meta_view(m: Seq<(String, GgufValue)>) -> Seq<(Seq<char>, GgufValueView)> {
    m.map_values(|p: (String, GgufValue)| (p.0@, p.1.view_value()))
}

/// The views of tensor descriptors.
pub open spec fn spec_tensors_view(t: Seq<TensorInfo>) -> Seq<TensorInfoView> {
    t.map_values(|x: TensorInfo| x.view_info())
}

impl GgufFile {
    /// The header with all text and arrays taken as sequences.
    pub open spec fn view_file(&self) -> GgufFileView {
        GgufFileView {
            version: self.version,
            metadata: spec_meta_view(self.metadata@),
            tensors: spec_tensors_view(self.tensors@),
            data_offset: self.data_offset,
            file_len: self.file_len,
        }
    }
}

/// Index of the first metadata entry at or after `from` whose key is `key`.
pub open spec fn spec_find_key(meta: Seq<(String, GgufValue)>, key: Seq<char>, from: int) -> Option<int>
    decreases meta.len() - from,
{
    if from < 0 || from >= meta.len() {
        None
    } else if meta[from].0@ == key {
        Some(from)
    } else {
        spec_find_key(meta, key, from + 1)
    }
}

/// The value stored under `key`.
pub open spec fn spec_meta_get(meta: Seq<(String, GgufValue)>, key: Seq<char>) -> Option<GgufValue> {
    match spec_find_key(meta, key, 0) {
        Some(i) => Some(meta[i].1),
        None => None,
    }
}

/// Index of the first tensor at or after `from` named `name`.
pub open spec fn spec_find_tensor(ts: Seq<TensorInfo>, name: Seq<char>, from: int) -> Option<int>
    decreases ts.len() - from,
{
    if from < 0 || from >= ts.len() {
        None
    } else if ts[from].name@ == name {
        Some(from)
    } else {
        spec_find_tensor(ts, name, from + 1)
    }
}

proof fn lemma_find_key_bounds(meta: Seq<(String, GgufValue)>, key: Seq<char>, from: int)
    ensures
        spec_find_key(meta, key, from) matches Some(i) ==> from <= i < meta.len() && meta[i].0@ == key,
        spec_find_key(meta, key, from) is None ==> forall|j: int| from <= j < meta.len() && from >= 0 ==> meta[j].0@ != key,
    decreases meta.len() - from,
{
    if from >= 0 && from < meta.len() && meta[from].0@ != key {
        lemma_find_key_bounds(meta, key, from + 1);
    }
}

proof fn lemma_find_tensor_bounds(ts: Seq<TensorInfo>, name: Seq<char>, from: int)
    ensures
        spec_find_tensor(ts, name, from) matches Some(i) ==> from <= i < ts.len() && ts[i].name@ == name,
    decreases ts.len() - from,
{
    if from >= 0 && from < ts.len() && ts[from].name@ != name {
        lemma_find_tensor_bounds(ts, name, from + 1);
    }
}

/// Index of the metadata entry keyed `key`.
pub fn find_meta(meta: &[(String, GgufValue)], key: &str) -> (r: Option<usize>)
    ensures
        r is None <==> spec_find_key(meta@, key@, 0) is None,
        r matches Some(i) ==> spec_find_key(meta@, key@, 0) == Some(i as int) && i < meta@.len(),
{
    let n = meta.len();
    let mut i: usize = 0;
    while i < n
        invariant
            n == meta@.len(),
            i <= n,
            spec_find_key(meta@, key@, i as int) == spec_find_key(meta@, key@, 0),
        decreases n - i,
    {
        if str_eq(meta[i].0.as_str(), key) {
            proof { lemma_find_key_bounds(meta@, key@, 0); }
            return Some(i);
        }
        i += 1;
    }
    proof { lemma_find_key_bounds(meta@, key@, 0); }
    None
}

/// Index of the tensor named `name`.
pub fn find_tensor(ts: &[TensorInfo], name: &str) -> (r: Option<usize>)
    ensures
        r is None <==> spec_find_tensor(ts@, name@, 0) is None,
        r matches Some(i) ==> spec_find_tensor(ts@, name@, 0) == Some(i as int) && i < ts@.len(),
{
    let n = ts.len();
    let mut i: usize = 0;
    while i < n
        invariant
            n == ts@.len(),
            i <= n,
            spec_find_tensor(ts@, name@, i as int) == spec_find_tensor(ts@, name@, 0),
        decreases n - i,
    {
        if str_eq(ts[i].name.as_str(), name) {
            proof { lemma_find_tensor_bounds(ts@, name@, 0); }
            return Some(i);
        }
        i += 1;
    }
    proof { lemma_find_tensor_bounds(ts@, name@, 0); }
    None
}

/// Product of the dimensions, or `None` when it exceeds `usize`.
pub open spec fn spec_checked_product(dims: Seq<usize>) -> Option<usize>
    decreases dims.len(),
{
    if dims.len() == 0 {
        Some(1)
    } else {
        match spec_checked_product(dims.drop_last()) {
            Some(p) => if p * dims.last() <= usize::MAX { Some((p * dims.last()) as usize) } else { None },
            None => None,
        }
    }
}

/// The `(start, end)` byte range of a tensor, or the reason it cannot be located.
pub open spec fn spec_tensor_range(
    data_offset: usize,
    info: TensorInfo,
    type_size: usize,
    block_size: usize,
    file_len: usize,
) -> Result<(usize, usize), Seq<char>> {
    let off = info.offset as usize;
    if data_offset + off > usize::MAX {
        Err("Integer overflow in tensor start offset"@)
    } else {
        let start = (data_offset + off) as usize;
        match spec_checked_product(info.dims@) {
            None => Err("Integer overflow in tensor dimensions"@),
            Some(n) => if block_size == 0 {
                Err("Block size cannot be zero"@)
            } else if n * type_size > usize::MAX {
                Err("Integer overflow in tensor byte length"@)
            } else {
                let len = ((n * type_size) / (block_size as int)) as usize;
                if start + len > usize::MAX {
                    Err("Integer overflow in tensor range"@)
                } else if start + len > file_len {
                    Err("Tensor '"@ + info.name@ + "' range ["@ + spec_decimal(start as nat) + ".."@
                        + spec_decimal((start + len) as nat) + "] exceeds mapped file size "@
                        + spec_decimal(file_len as nat))
                } else {
                    Ok((start, (start + len) as usize))
                }
            },
        }
    }
}

/// Product of `dims`, checked for overflow.
pub fn checked_product(dims: &[usize]) -> (r: Option<usize>)
    ensures
        r == spec_checked_product(dims@),
{
    let mut acc: usize = 1;
    let mut i: usize = 0;
    while i < dims.len()
        invariant
            i <= dims@.len(),
            spec_checked_product(dims@.take(i as int)) == Some(acc),
        decreases dims@.len() - i,
    {
        proof {
            assert(dims@.take(i + 1).drop_last() =~= dims@.take(i as int));
        }
        match acc.checked_mul(dims[i]) {
            Some(p) => {
                acc = p;
            },
            None => {
                proof { lemma_product_none_stays(dims@, i as int + 1); }
                return None;
            },
        }
        i += 1;
    }
    proof { assert(dims@.take(i as int) =~= dims@); }
    Some(acc)
}

proof fn lemma_product_none_stays(dims: Seq<usize>, k: int)
    requires
        0 <= k <= dims.len(),
        spec_checked_product(dims.take(k)) is None,
    ensures
        spec_checked_product(dims) is None,
    decreases dims.len() - k,
{
    if k < dims.len() {
        assert(dims.take(k + 1).drop_last() =~= dims.take(k));
        lemma_product_none_stays(dims, k + 1);
    } else {
        assert(dims.take(k) =~= dims);
    }
}

impl GgufFile {
    /// The value stored under `key`.
    pub fn get_meta(&self, key: &str) -> (r: Option<&GgufValue>)
        ensures
            match spec_meta_get(self.metadata@, key@) {
                Some(v) => r == Some(&v),
                None => r is None,
            },
    {
        let r = find_meta(self.metadata.as_slice(), key);
        match r {
            Some(i) => {
                Some(&self.metadata[i].1)
            },
            None => None,
        }
    }

    /// Whether a tensor named `name` is present.
    pub fn has_tensor(&self, name: &str) -> (r: bool)
        ensures
            r == spec_find_tensor(self.tensors@, name@, 0) is Some,
    {
        find_tensor(self.tensors.as_slice(), name).is_some()
    }

    /// The descriptor of the tensor named `name`.
    pub fn get_tensor_info(&self, name: &str) -> (r: Result<&TensorInfo, GgufError>)
        ensures
            match spec_find_tensor(self.tensors@, name@, 0) {
                Some(i) => r == Ok::<&TensorInfo, GgufError>(&self.tensors@[i]),
                None => r matches Err(GgufError::TensorNotFound(n)) && n@ == name@,
            },
    {
        let r = find_tensor(self.tensors.as_slice(), name);
        match r {
            Some(i) => {
                Ok(&self.tensors[i])
            },
            None => Err(GgufError::TensorNotFound(name.to_string())),
        }
    }

    /// The byte range `[start, end)` that holds the tensor's data, given the size in bytes of
    /// one block of its element type and the number of elements per block.
    pub fn tensor_data_range(&self, info: &TensorInfo, type_size: usize, block_size: usize) -> (r: Result<(usize, usize), GgufError>)
        ensures
            match spec_tensor_range(self.data_offset, *info, type_size, block_size, self.file_len) {
                Ok(p) => r == Ok::<(usize, usize), GgufError>(p),
                Err(m) => r matches Err(GgufError::MalformedFile(e)) && e@ == m,
            },
    {
        let off = info.offset as usize;
        let start = match self.data_offset.checked_add(off) {
            Some(s) => s,
            None => return Err(GgufError::MalformedFile("Integer overflow in tensor start offset".to_string())),
        };
        let n = match checked_product(info.dims.as_slice()) {
            Some(n) => n,
            None => return Err(GgufError::MalformedFile("Integer overflow in tensor dimensions".to_string())),
        };
        if block_size == 0 {
            return Err(GgufError::MalformedFile("Block size cannot be zero".to_string()));
        }
        let bytes = match n.checked_mul(type_size) {
            Some(b) => b / block_size,
            None => return Err(GgufError::MalformedFile("Integer overflow in tensor byte length".to_string())),
        };
        let end = match start.checked_add(bytes) {
            Some(e) => e,
            None => return Err(GgufError::MalformedFile("Integer overflow in tensor range".to_string())),
        };
        if end > self.file_len {
            let mut m = String::new();
            push_str(&mut m, "Tensor '");
            push_str(&mut m, info.name.as_str());
            push_str(&mut m, "' range [");
            push_decimal(&mut m, start);
            push_str(&mut m, "..");
            push_decimal(&mut m, end);
            push_str(&mut m, "] exceeds mapped file size ");
            push_decimal(&mut m, self.file_len);
            return Err(GgufError::MalformedFile(m));
        }
        Ok((start, end))
    }
}

} // verus!
