//! Decoding the header of a GGUF v2/v3 file from its bytes: magic, version, the
//! metadata key/value table and the tensor table, with size limits on every count.

use vstd::prelude::*;
use vstd::utf8::{valid_utf8, decode_utf8};
use crate::gguf::{
    GgufError, GgufErrorView, GgufFile, GgufFileView, GgufValue, GgufValueView, TensorInfo,
    TensorInfoView, spec_meta_view, spec_tensors_view,
};
use crate::kvc::{read_u32, read_u64, spec_read_u32, spec_read_u64};
use crate::text::{push_str, push_decimal, spec_decimal, str_eq};

verus! {

broadcast use vstd::string::group_string_axioms;

/// `GGUF` read as a little-endian word.
pub const GGUF_MAGIC: u32 = 0x4655_4747;

/// Longest string accepted (1 MiB).
pub const MAX_STRING_LEN: usize = 1048576;

/// Most metadata entries accepted.
pub const MAX_METADATA_COUNT: usize = 100000;

/// Most tensors accepted.
pub const MAX_TENSOR_COUNT: usize = 50000;

/// Longest metadata array accepted.
pub const MAX_ARRAY_LEN: usize = 10000000;

/// The error for data that ends early.
pub open spec fn spec_eof() -> GgufErrorView {
    GgufErrorView::Io("failed to fill whole buffer"@)
}

/// The 16-bit little-endian word at `off`.
pub open spec fn spec_read_u16(b: Seq<u8>, off: int) -> u16 {
    ((b[off] as u16) | ((b[off + 1] as u16) << 8u16)) as u16
}

/// A length-prefixed UTF-8 string at `pos`: its text and the position after it.
pub open spec fn spec_read_string(b: Seq<u8>, pos: int) -> Result<(Seq<char>, int), GgufErrorView> {
    if pos < 0 || pos + 8 > b.len() {
        Err(spec_eof())
    } else {
        let n = spec_read_u64(b, pos) as usize;
        if n > MAX_STRING_LEN {
            Err(GgufErrorView::MalformedFile("String length "@ + spec_decimal(n as nat) + " exceeds limit "@
                + spec_decimal(MAX_STRING_LEN as nat)))
        } else if pos + 8 + n > b.len() {
            Err(spec_eof())
        } else {
            let bytes = b.subrange(pos + 8, pos + 8 + n);
            if valid_utf8(bytes) {
                Ok((decode_utf8(bytes), pos + 8 + n))
            } else {
                Err(GgufErrorView::InvalidString)
            }
        }
    }
}

/// A scalar needing `w` bytes at `pos`.
pub open spec fn spec_fixed(b: Seq<u8>, pos: int, w: int, v: GgufValueView) -> Result<(GgufValueView, int), GgufErrorView> {
    if pos + w > b.len() { Err(spec_eof()) } else { Ok((v, pos + w)) }
}

/// A value of type code `ty` at `pos`: the value and the position after it.
pub open spec fn spec_read_value(b: Seq<u8>, pos: int, ty: u32) -> Result<(GgufValueView, int), GgufErrorView>
    decreases b.len() - pos, 0int, 0int,
{
    if pos < 0 || pos > b.len() {
        Err(spec_eof())
    } else if ty == 0 {
        spec_fixed(b, pos, 1, GgufValueView::U8(b[pos]))
    } else if ty == 1 {
        spec_fixed(b, pos, 1, GgufValueView::I8(b[pos] as i8))
    } else if ty == 2 {
        spec_fixed(b, pos, 2, GgufValueView::U16(spec_read_u16(b, pos)))
    } else if ty == 3 {
        spec_fixed(b, pos, 2, GgufValueView::I16(spec_read_u16(b, pos) as i16))
    } else if ty == 4 {
        spec_fixed(b, pos, 4, GgufValueView::U32(spec_read_u32(b, pos)))
    } else if ty == 5 {
        spec_fixed(b, pos, 4, GgufValueView::I32(spec_read_u32(b, pos) as i32))
    } else if ty == 6 {
        spec_fixed(b, pos, 4, GgufValueView::F32(spec_read_u32(b, pos)))
    } else if ty == 7 {
        spec_fixed(b, pos, 1, GgufValueView::Bool(b[pos] != 0))
    } else if ty == 8 {
        match spec_read_string(b, pos) {
            Ok((s, p)) => Ok((GgufValueView::String(s), p)),
            Err(e) => Err(e),
        }
    } else if ty == 9 {
        if pos + 12 > b.len() {
            Err(spec_eof())
        } else {
            let et = spec_read_u32(b, pos);
            let n = spec_read_u64(b, pos + 4) as usize;
            if n > MAX_ARRAY_LEN {
                Err(GgufErrorView::MalformedFile("Array length "@ + spec_decimal(n as nat) + " exceeds limit "@
                    + spec_decimal(MAX_ARRAY_LEN as nat)))
            } else {
                match spec_read_elems(b, pos + 12, et, n as nat, Seq::empty()) {
                    Ok((vs, p)) => Ok((GgufValueView::Array(vs), p)),
                    Err(e) => Err(e),
                }
            }
        }
    } else if ty == 10 {
        spec_fixed(b, pos, 8, GgufValueView::U64(spec_read_u64(b, pos)))
    } else if ty == 11 {
        spec_fixed(b, pos, 8, GgufValueView::I64(spec_read_u64(b, pos) as i64))
    } else if ty == 12 {
        spec_fixed(b, pos, 8, GgufValueView::F64(spec_read_u64(b, pos)))
    } else {
        Err(GgufErrorView::UnsupportedValueType(ty))
    }
}

/// `rem` more array elements of type `ty` from `pos`, appended to `acc`.
pub open spec fn spec_read_elems(b: Seq<u8>, pos: int, ty: u32, rem: nat, acc: Seq<GgufValueView>) -> Result<(Seq<GgufValueView>, int), GgufErrorView>
    decreases b.len() - pos, 1int, rem,
{
    if rem == 0 {
        Ok((acc, pos))
    } else if pos < 0 || pos > b.len() {
        Err(spec_eof())
    } else {
        match spec_read_value(b, pos, ty) {
            Err(e) => Err(e),
            Ok((v, p2)) => if pos <= p2 <= b.len() {
                spec_read_elems(b, p2, ty, (rem - 1) as nat, acc.push(v))
            } else {
                Err(spec_eof())
            },
        }
    }
}

/// Index of the first entry keyed `k`.
pub open spec fn spec_find_view_key(m: Seq<(Seq<char>, GgufValueView)>, k: Seq<char>, from: int) -> Option<int>
    decreases m.len() - from,
{
    if from < 0 || from >= m.len() {
        None
    } else if m[from].0 == k {
        Some(from)
    } else {
        spec_find_view_key(m, k, from + 1)
    }
}

/// Metadata after storing `v` under `k`: a later entry replaces an earlier one.
pub open spec fn spec_meta_insert(m: Seq<(Seq<char>, GgufValueView)>, k: Seq<char>, v: GgufValueView) -> Seq<(Seq<char>, GgufValueView)> {
    match spec_find_view_key(m, k, 0) {
        Some(i) => m.update(i, (k, v)),
        None => m.push((k, v)),
    }
}

/// `rem` more metadata entries from `pos`, stored into `acc`.
pub open spec fn spec_read_meta(b: Seq<u8>, pos: int, rem: nat, acc: Seq<(Seq<char>, GgufValueView)>) -> Result<(Seq<(Seq<char>, GgufValueView)>, int), GgufErrorView>
    decreases rem,
{
    if rem == 0 {
        Ok((acc, pos))
    } else {
        match spec_read_string(b, pos) {
            Err(e) => Err(e),
            Ok((k, p1)) => if p1 + 4 > b.len() {
                Err(spec_eof())
            } else {
                match spec_read_value(b, p1 + 4, spec_read_u32(b, p1)) {
                    Err(e) => Err(e),
                    Ok((v, p2)) => spec_read_meta(b, p2, (rem - 1) as nat, spec_meta_insert(acc, k, v)),
                }
            },
        }
    }
}

/// `n` more 64-bit dimensions from `pos`, appended to `acc`.
pub open spec fn spec_read_dims(b: Seq<u8>, pos: int, n: nat, acc: Seq<usize>) -> Result<(Seq<usize>, int), GgufErrorView>
    decreases n,
{
    if n == 0 {
        Ok((acc, pos))
    } else if pos < 0 || pos + 8 > b.len() {
        Err(spec_eof())
    } else {
        spec_read_dims(b, pos + 8, (n - 1) as nat, acc.push(spec_read_u64(b, pos) as usize))
    }
}

/// Index of the first descriptor named `k`.
pub open spec fn spec_find_view_tensor(t: Seq<TensorInfoView>, k: Seq<char>, from: int) -> Option<int>
    decreases t.len() - from,
{
    if from < 0 || from >= t.len() {
        None
    } else if t[from].name == k {
        Some(from)
    } else {
        spec_find_view_tensor(t, k, from + 1)
    }
}

/// The table after storing `x` under its name: a later descriptor replaces an earlier one.
pub open spec fn spec_tensor_insert(t: Seq<TensorInfoView>, x: TensorInfoView) -> Seq<TensorInfoView> {
    match spec_find_view_tensor(t, x.name, 0) {
        Some(i) => t.update(i, x),
        None => t.push(x),
    }
}

/// One tensor descriptor at `pos`.
pub open spec fn spec_read_tensor(b: Seq<u8>, pos: int) -> Result<(TensorInfoView, int), GgufErrorView> {
    match spec_read_string(b, pos) {
        Err(e) => Err(e),
        Ok((name, p1)) => if p1 + 4 > b.len() {
            Err(spec_eof())
        } else {
            let nd = spec_read_u32(b, p1);
            match spec_read_dims(b, p1 + 4, nd as nat, Seq::empty()) {
                Err(e) => Err(e),
                Ok((dims, p2)) => if p2 + 12 > b.len() {
                    Err(spec_eof())
                } else {
                    Ok((TensorInfoView {
                        name,
                        n_dims: nd,
                        dims,
                        ggml_type: spec_read_u32(b, p2),
                        offset: spec_read_u64(b, p2 + 4),
                    }, p2 + 12))
                },
            }
        },
    }
}

/// `rem` more tensor descriptors from `pos`, stored into `acc`.
pub open spec fn spec_read_tensors(b: Seq<u8>, pos: int, rem: nat, acc: Seq<TensorInfoView>) -> Result<(Seq<TensorInfoView>, int), GgufErrorView>
    decreases rem,
{
    if rem == 0 {
        Ok((acc, pos))
    } else {
        match spec_read_tensor(b, pos) {
            Err(e) => Err(e),
            Ok((x, p)) => spec_read_tensors(b, p, (rem - 1) as nat, spec_tensor_insert(acc, x)),
        }
    }
}

/// `p` rounded up to a multiple of the power of two `a`, with `usize` wrap-around.
pub open spec fn spec_align_up(p: usize, a: usize) -> usize {
    vstd::wrapping::usize_specs::wrapping_sub(vstd::wrapping::usize_specs::wrapping_add(p, a), 1)
        & !vstd::wrapping::usize_specs::wrapping_sub(a, 1)
}

/// The data alignment: a `U32` under `general.alignment`, else 32.
pub open spec fn spec_alignment(m: Seq<(Seq<char>, GgufValueView)>) -> usize {
    match spec_find_view_key(m, "general.alignment"@, 0) {
        Some(i) => match m[i].1 {
            GgufValueView::U32(v) => v as usize,
            _ => 32,
        },
        None => 32,
    }
}

/// The header encoded at the start of `b`, or the first problem met while reading it.
pub open spec fn spec_parse_gguf(b: Seq<u8>) -> Result<GgufFileView, GgufErrorView> {
    if b.len() < 16 {
        Err(GgufErrorView::MalformedFile("File too small to contain valid GGUF header"@))
    } else if spec_read_u32(b, 0) != GGUF_MAGIC {
        Err(GgufErrorView::InvalidMagic(spec_read_u32(b, 0)))
    } else if spec_read_u32(b, 4) != 2 && spec_read_u32(b, 4) != 3 {
        Err(GgufErrorView::UnsupportedVersion(spec_read_u32(b, 4)))
    } else {
        let tc = spec_read_u64(b, 8) as usize;
        if tc > MAX_TENSOR_COUNT {
            Err(GgufErrorView::MalformedFile("Tensor count "@ + spec_decimal(tc as nat) + " exceeds security limit "@
                + spec_decimal(MAX_TENSOR_COUNT as nat)))
        } else if b.len() < 24 {
            Err(spec_eof())
        } else {
            let mc = spec_read_u64(b, 16) as usize;
            if mc > MAX_METADATA_COUNT {
                Err(GgufErrorView::MalformedFile("Metadata count "@ + spec_decimal(mc as nat) + " exceeds security limit "@
                    + spec_decimal(MAX_METADATA_COUNT as nat)))
            } else {
                match spec_read_meta(b, 24, mc as nat, Seq::empty()) {
                    Err(e) => Err(e),
                    Ok((meta, p1)) => match spec_read_tensors(b, p1, tc as nat, Seq::empty()) {
                        Err(e) => Err(e),
                        Ok((ts, p2)) => Ok(GgufFileView {
                            version: spec_read_u32(b, 4),
                            metadata: meta,
                            tensors: ts,
                            data_offset: spec_align_up(p2 as usize, spec_alignment(meta)),
                            file_len: b.len() as usize,
                        }),
                    },
                }
            }
        }
    }
}


/// The views of array elements, as `GgufValue::view_value` takes them.
pub open spec fn spec_values_view(v: Seq<GgufValue>) -> Seq<GgufValueView> {
    Seq::new(v.len(), |i: int| if 0 <= i < v.len() { v[i].view_value() } else { GgufValueView::Bool(false) })
}

proof fn lemma_find_key_view(m: Seq<(String, GgufValue)>, k: Seq<char>, from: int)
    ensures
        crate::gguf::spec_find_key(m, k, from) == spec_find_view_key(spec_meta_view(m), k, from),
    decreases m.len() - from,
{
    if from >= 0 && from < m.len() {
        lemma_find_key_view(m, k, from + 1);
    }
}

proof fn lemma_find_tensor_view(t: Seq<TensorInfo>, k: Seq<char>, from: int)
    ensures
        crate::gguf::spec_find_tensor(t, k, from) == spec_find_view_tensor(spec_tensors_view(t), k, from),
    decreases t.len() - from,
{
    if from >= 0 && from < t.len() {
        lemma_find_tensor_view(t, k, from + 1);
    }
}

proof fn lemma_array_case(b: Seq<u8>, pos: int)
    requires
        0 <= pos,
        pos + 12 <= b.len(),
        (spec_read_u64(b, pos + 4) as usize) <= MAX_ARRAY_LEN,
    ensures
        spec_read_value(b, pos, 9) == (match spec_read_elems(b, pos + 12, spec_read_u32(b, pos), (spec_read_u64(b, pos + 4) as usize) as nat, Seq::empty()) {
            Ok((vs, p)) => Ok((GgufValueView::Array(vs), p)),
            Err(e) => Err(e),
        }),
{
}

proof fn lemma_array_view(arr: Vec<GgufValue>)
    ensures
        GgufValue::Array(arr).view_value() == GgufValueView::Array(spec_values_view(arr@)),
{
    let v = GgufValue::Array(arr);
    reveal_with_fuel(GgufValue::view_value, 2);
    assert(v.view_value() is Array);
    let s1 = v.view_value()->Array_0;
    assert(s1.len() == arr@.len());
    assert forall|i: int| 0 <= i < arr@.len() implies s1[i] == spec_values_view(arr@)[i] by {}
    assert(s1 =~= spec_values_view(arr@));
}

/// The error for data that ends early.
fn eof() -> (e: GgufError)
    ensures
        e@ == spec_eof(),
{
    GgufError::Io("failed to fill whole buffer".to_string())
}

/// `String::from_utf8`: the bytes decoded when they are valid UTF-8.
#[verifier::external_body]
fn utf8_string(bytes: Vec<u8>) -> (r: Option<String>)
    ensures
        r is Some <==> valid_utf8(bytes@),
        r matches Some(s) ==> s@ == decode_utf8(bytes@),
{
    String::from_utf8(bytes).ok()
}

/// Appends `text`, then `n` in decimal.
fn push_num(m: &mut String, text: &str, n: usize)
    ensures
        final(m)@ == old(m)@ + text@ + spec_decimal(n as nat),
{
    push_str(m, text);
    push_decimal(m, n);
}

/// `"<what> <n> exceeds <limit words> <limit>"`.
fn limit_message(what: &str, n: usize, words: &str, limit: usize) -> (r: String)
    ensures
        r@ == what@ + spec_decimal(n as nat) + words@ + spec_decimal(limit as nat),
{
    let mut m = String::new();
    push_num(&mut m, what, n);
    push_num(&mut m, words, limit);
    proof { assert(m@ =~= what@ + spec_decimal(n as nat) + words@ + spec_decimal(limit as nat)); }
    m
}

fn read_u16(b: &[u8], off: usize) -> (r: u16)
    requires
        off + 2 <= b@.len(),
    ensures
        r == spec_read_u16(b@, off as int),
{
    ((b[off] as u16) | ((b[off + 1] as u16) << 8u16)) as u16
}

fn read_string(b: &[u8], pos: usize) -> (r: Result<(String, usize), GgufError>)
    ensures
        match spec_read_string(b@, pos as int) {
            Ok((s, p)) => r matches Ok((t, q)) && t@ == s && q == p,
            Err(e) => r matches Err(x) && x@ == e,
        },
{
    if pos > b.len() || b.len() - pos < 8 {
        return Err(eof());
    }
    let n = read_u64(b, pos) as usize;
    if n > MAX_STRING_LEN {
        return Err(GgufError::MalformedFile(limit_message("String length ", n, " exceeds limit ", MAX_STRING_LEN)));
    }
    if b.len() - pos - 8 < n {
        return Err(eof());
    }
    let bytes = vstd::slice::slice_to_vec(vstd::slice::slice_subrange(b, pos + 8, pos + 8 + n));
    match utf8_string(bytes) {
        Some(t) => Ok((t, pos + 8 + n)),
        None => Err(GgufError::InvalidString),
    }
}

fn fixed_ok(b: &[u8], pos: usize, w: usize) -> (r: bool)
    ensures
        r == (pos + w <= b@.len()),
        b@.len() <= usize::MAX,
{
    pos <= b.len() && b.len() - pos >= w
}

fn read_value(b: &[u8], pos: usize, ty: u32) -> (r: Result<(GgufValue, usize), GgufError>)
    ensures
        match spec_read_value(b@, pos as int, ty) {
            Ok((v, p)) => r matches Ok((w, q)) && w.view_value() == v && q == p,
            Err(e) => r matches Err(x) && x@ == e,
        },
        r matches Ok((_, q)) ==> pos < q <= b@.len(),
    decreases b@.len() - pos,
{
    if pos > b.len() {
        return Err(eof());
    }
    if ty == 0 || ty == 1 || ty == 7 {
        if !fixed_ok(b, pos, 1) {
            return Err(eof());
        }
        let x = b[pos];
        let v = if ty == 0 { GgufValue::U8(x) } else if ty == 1 { GgufValue::I8(x as i8) } else { GgufValue::Bool(x != 0) };
        return Ok((v, pos + 1));
    }
    if ty == 2 || ty == 3 {
        if !fixed_ok(b, pos, 2) {
            return Err(eof());
        }
        let x = read_u16(b, pos);
        let v = if ty == 2 { GgufValue::U16(x) } else { GgufValue::I16(x as i16) };
        return Ok((v, pos + 2));
    }
    if ty == 4 || ty == 5 || ty == 6 {
        if !fixed_ok(b, pos, 4) {
            return Err(eof());
        }
        let x = read_u32(b, pos);
        let v = if ty == 4 { GgufValue::U32(x) } else if ty == 5 { GgufValue::I32(x as i32) } else { GgufValue::F32(x) };
        return Ok((v, pos + 4));
    }
    if ty == 10 || ty == 11 || ty == 12 {
        if !fixed_ok(b, pos, 8) {
            return Err(eof());
        }
        let x = read_u64(b, pos);
        let v = if ty == 10 { GgufValue::U64(x) } else if ty == 11 { GgufValue::I64(x as i64) } else { GgufValue::F64(x) };
        return Ok((v, pos + 8));
    }
    if ty == 8 {
        return match read_string(b, pos) {
            Ok((s, p)) => Ok((GgufValue::String(s), p)),
            Err(e) => Err(e),
        };
    }
    if ty != 9 {
        return Err(GgufError::UnsupportedValueType(ty));
    }
    if !fixed_ok(b, pos, 12) {
        return Err(eof());
    }
    let et = read_u32(b, pos);
    let n = read_u64(b, pos + 4) as usize;
    if n > MAX_ARRAY_LEN {
        return Err(GgufError::MalformedFile(limit_message("Array length ", n, " exceeds limit ", MAX_ARRAY_LEN)));
    }
    let mut arr: Vec<GgufValue> = Vec::new();
    proof {
        assert(spec_values_view(arr@) =~= Seq::<GgufValueView>::empty());
        lemma_array_case(b@, pos as int);
    }
    let mut p = pos + 12;
    let mut k: usize = 0;
    while k < n
        invariant
            pos + 12 <= p <= b@.len(),
            k <= n,
            ty == 9,
            et == spec_read_u32(b@, pos as int),
            n == spec_read_u64(b@, pos + 4) as usize,
            n <= MAX_ARRAY_LEN,
            spec_read_elems(b@, p as int, et, (n - k) as nat, spec_values_view(arr@))
                == spec_read_elems(b@, pos + 12, et, n as nat, Seq::empty()),
        decreases n - k,
    {
        match read_value(b, p, et) {
            Ok((v, p2)) => {
                let ghost before = spec_values_view(arr@);
                arr.push(v);
                proof { assert(spec_values_view(arr@) =~= before.push(v.view_value())); }
                p = p2;
            },
            Err(e) => {
                proof {
                    assert(spec_read_elems(b@, p as int, et, (n - k) as nat, spec_values_view(arr@)) == Err::<(Seq<GgufValueView>, int), GgufErrorView>(e@));
                    lemma_array_case(b@, pos as int);
                }
                return Err(e);
            },
        }
        k += 1;
    }
    let r = GgufValue::Array(arr);
    proof {
        assert(spec_values_view(arr@) =~= Seq::new(arr@.len(), |i: int| if 0 <= i < arr@.len() { arr@[i].view_value() } else { GgufValueView::Bool(false) }));
        lemma_array_view(arr);
        lemma_array_case(b@, pos as int);
    }
    Ok((r, p))
}


fn meta_insert(m: &mut Vec<(String, GgufValue)>, k: String, v: GgufValue)
    ensures
        spec_meta_view(final(m)@) == spec_meta_insert(spec_meta_view(old(m)@), k@, v.view_value()),
{
    proof { lemma_find_key_view(m@, k@, 0); }
    let ghost mv = spec_meta_view(m@);
    match crate::gguf::find_meta(m.as_slice(), k.as_str()) {
        Some(i) => {
            let ghost kv = k@;
            let ghost vv = v.view_value();
            m.set(i, (k, v));
            proof { assert(spec_meta_view(m@) =~= mv.update(i as int, (kv, vv))); }
        },
        None => {
            let ghost kv = k@;
            let ghost vv = v.view_value();
            m.push((k, v));
            proof { assert(spec_meta_view(m@) =~= mv.push((kv, vv))); }
        },
    }
}

fn tensor_insert(t: &mut Vec<TensorInfo>, x: TensorInfo)
    ensures
        spec_tensors_view(final(t)@) == spec_tensor_insert(spec_tensors_view(old(t)@), x.view_info()),
{
    proof { lemma_find_tensor_view(t@, x.name@, 0); }
    let ghost tv = spec_tensors_view(t@);
    let ghost xv = x.view_info();
    match crate::gguf::find_tensor(t.as_slice(), x.name.as_str()) {
        Some(i) => {
            t.set(i, x);
            proof { assert(spec_tensors_view(t@) =~= tv.update(i as int, xv)); }
        },
        None => {
            t.push(x);
            proof { assert(spec_tensors_view(t@) =~= tv.push(xv)); }
        },
    }
}

fn read_meta(b: &[u8], pos: usize, count: usize) -> (r: Result<(Vec<(String, GgufValue)>, usize), GgufError>)
    ensures
        match spec_read_meta(b@, pos as int, count as nat, Seq::empty()) {
            Ok((m, p)) => r matches Ok((w, q)) && spec_meta_view(w@) == m && q == p,
            Err(e) => r matches Err(x) && x@ == e,
        },
{
    let mut m: Vec<(String, GgufValue)> = Vec::new();
    proof { assert(spec_meta_view(m@) =~= Seq::<(Seq<char>, GgufValueView)>::empty()); }
    let mut p = pos;
    let mut k: usize = 0;
    while k < count
        invariant
            k <= count,
            spec_read_meta(b@, p as int, (count - k) as nat, spec_meta_view(m@))
                == spec_read_meta(b@, pos as int, count as nat, Seq::empty()),
        decreases count - k,
    {
        let (key, p1) = match read_string(b, p) {
            Ok(x) => x,
            Err(e) => {
                return Err(e);
            },
        };
        if !fixed_ok(b, p1, 4) {
            return Err(eof());
        }
        let ty = read_u32(b, p1);
        let (v, p2) = match read_value(b, p1 + 4, ty) {
            Ok(x) => x,
            Err(e) => {
                return Err(e);
            },
        };
        meta_insert(&mut m, key, v);
        p = p2;
        k += 1;
    }
    Ok((m, p))
}

fn read_dims(b: &[u8], pos: usize, n: u32) -> (r: Result<(Vec<usize>, usize), GgufError>)
    ensures
        match spec_read_dims(b@, pos as int, n as nat, Seq::empty()) {
            Ok((d, p)) => r matches Ok((w, q)) && w@ == d && q == p,
            Err(e) => r matches Err(x) && x@ == e,
        },
{
    let mut dims: Vec<usize> = Vec::new();
    let mut p = pos;
    let mut k: u32 = 0;
    while k < n
        invariant
            k <= n,
            spec_read_dims(b@, p as int, (n - k) as nat, dims@) == spec_read_dims(b@, pos as int, n as nat, Seq::empty()),
        decreases n - k,
    {
        if !fixed_ok(b, p, 8) {
            return Err(eof());
        }
        dims.push(read_u64(b, p) as usize);
        p = p + 8;
        k += 1;
    }
    Ok((dims, p))
}

fn read_tensor(b: &[u8], pos: usize) -> (r: Result<(TensorInfo, usize), GgufError>)
    ensures
        match spec_read_tensor(b@, pos as int) {
            Ok((t, p)) => r matches Ok((w, q)) && w.view_info() == t && q == p,
            Err(e) => r matches Err(x) && x@ == e,
        },
{
    let (name, p1) = match read_string(b, pos) {
        Ok(x) => x,
        Err(e) => {
            return Err(e);
        },
    };
    if !fixed_ok(b, p1, 4) {
        return Err(eof());
    }
    let nd = read_u32(b, p1);
    let (dims, p2) = match read_dims(b, p1 + 4, nd) {
        Ok(x) => x,
        Err(e) => {
            return Err(e);
        },
    };
    if !fixed_ok(b, p2, 12) {
        return Err(eof());
    }
    let ggml_type = read_u32(b, p2);
    let offset = read_u64(b, p2 + 4);
    Ok((TensorInfo { name, n_dims: nd, dims, ggml_type, offset }, p2 + 12))
}

fn read_tensors(b: &[u8], pos: usize, count: usize) -> (r: Result<(Vec<TensorInfo>, usize), GgufError>)
    ensures
        match spec_read_tensors(b@, pos as int, count as nat, Seq::empty()) {
            Ok((t, p)) => r matches Ok((w, q)) && spec_tensors_view(w@) == t && q == p,
            Err(e) => r matches Err(x) && x@ == e,
        },
{
    let mut t: Vec<TensorInfo> = Vec::new();
    proof { assert(spec_tensors_view(t@) =~= Seq::<TensorInfoView>::empty()); }
    let mut p = pos;
    let mut k: usize = 0;
    while k < count
        invariant
            k <= count,
            spec_read_tensors(b@, p as int, (count - k) as nat, spec_tensors_view(t@))
                == spec_read_tensors(b@, pos as int, count as nat, Seq::empty()),
        decreases count - k,
    {
        let (x, p1) = match read_tensor(b, p) {
            Ok(x) => x,
            Err(e) => {
                return Err(e);
            },
        };
        tensor_insert(&mut t, x);
        p = p1;
        k += 1;
    }
    Ok((t, p))
}

fn alignment_of(m: &Vec<(String, GgufValue)>) -> (r: usize)
    ensures
        r == spec_alignment(spec_meta_view(m@)),
{
    proof { lemma_find_key_view(m@, "general.alignment"@, 0); }
    match crate::gguf::find_meta(m.as_slice(), "general.alignment") {
        Some(i) => match &m[i].1 {
            GgufValue::U32(v) => *v as usize,
            _ => 32,
        },
        None => 32,
    }
}

/// Decodes the header of a GGUF file held in `bytes`.
pub fn parse_gguf(bytes: &[u8]) -> (r: Result<GgufFile, GgufError>)
    ensures
        match spec_parse_gguf(bytes@) {
            Ok(f) => r matches Ok(g) && g.view_file() == f,
            Err(e) => r matches Err(x) && x@ == e,
        },
{
    if bytes.len() < 16 {
        return Err(GgufError::MalformedFile("File too small to contain valid GGUF header".to_string()));
    }
    let magic = read_u32(bytes, 0);
    if magic != GGUF_MAGIC {
        return Err(GgufError::InvalidMagic(magic));
    }
    let version = read_u32(bytes, 4);
    if version != 2 && version != 3 {
        return Err(GgufError::UnsupportedVersion(version));
    }
    let tc = read_u64(bytes, 8) as usize;
    if tc > MAX_TENSOR_COUNT {
        return Err(GgufError::MalformedFile(limit_message("Tensor count ", tc, " exceeds security limit ", MAX_TENSOR_COUNT)));
    }
    if bytes.len() < 24 {
        return Err(eof());
    }
    let mc = read_u64(bytes, 16) as usize;
    if mc > MAX_METADATA_COUNT {
        return Err(GgufError::MalformedFile(limit_message("Metadata count ", mc, " exceeds security limit ", MAX_METADATA_COUNT)));
    }
    let (metadata, p1) = match read_meta(bytes, 24, mc) {
        Ok(x) => x,
        Err(e) => {
            return Err(e);
        },
    };
    let (tensors, p2) = match read_tensors(bytes, p1, tc) {
        Ok(x) => x,
        Err(e) => {
            return Err(e);
        },
    };
    let a = alignment_of(&metadata);
    let data_offset = p2.wrapping_add(a).wrapping_sub(1) & !a.wrapping_sub(1);
    Ok(GgufFile { version, metadata, tensors, data_offset, file_len: bytes.len() })
}


/// No two metadata entries share a key.
pub open spec fn spec_keys_distinct(m: Seq<(Seq<char>, GgufValueView)>) -> bool {
    forall|i: int, j: int| 0 <= i < j < m.len() ==> #[trigger] m[i].0 != #[trigger] m[j].0
}

/// No two tensor descriptors share a name.
pub open spec fn spec_names_distinct(t: Seq<TensorInfoView>) -> bool {
    forall|i: int, j: int| 0 <= i < j < t.len() ==> #[trigger] t[i].name != #[trigger] t[j].name
}

proof fn lemma_find_view_key(m: Seq<(Seq<char>, GgufValueView)>, k: Seq<char>, from: int)
    requires
        0 <= from,
    ensures
        spec_find_view_key(m, k, from) matches Some(i) ==> from <= i < m.len() && m[i].0 == k,
        spec_find_view_key(m, k, from) is None ==> forall|j: int| from <= j < m.len() ==> m[j].0 != k,
    decreases m.len() - from,
{
    if from < m.len() && m[from].0 != k {
        lemma_find_view_key(m, k, from + 1);
    }
}

proof fn lemma_find_view_tensor(t: Seq<TensorInfoView>, k: Seq<char>, from: int)
    requires
        0 <= from,
    ensures
        spec_find_view_tensor(t, k, from) matches Some(i) ==> from <= i < t.len() && t[i].name == k,
        spec_find_view_tensor(t, k, from) is None ==> forall|j: int| from <= j < t.len() ==> t[j].name != k,
    decreases t.len() - from,
{
    if from < t.len() && t[from].name != k {
        lemma_find_view_tensor(t, k, from + 1);
    }
}

proof fn lemma_read_meta_distinct(b: Seq<u8>, pos: int, rem: nat, acc: Seq<(Seq<char>, GgufValueView)>)
    requires
        spec_keys_distinct(acc),
    ensures
        spec_read_meta(b, pos, rem, acc) matches Ok((m, _)) ==> spec_keys_distinct(m),
    decreases rem,
{
    if rem > 0 {
        match spec_read_string(b, pos) {
            Ok((k, p1)) => if p1 + 4 <= b.len() {
                match spec_read_value(b, p1 + 4, spec_read_u32(b, p1)) {
                    Ok((v, p2)) => {
                        let acc2 = spec_meta_insert(acc, k, v);
                        lemma_find_view_key(acc, k, 0);
                        assert(spec_keys_distinct(acc2)) by {
                            match spec_find_view_key(acc, k, 0) {
                                Some(i) => {
                                    assert forall|a: int, c: int| 0 <= a < c < acc2.len() implies #[trigger] acc2[a].0 != #[trigger] acc2[c].0 by {
                                        assert(acc2[a].0 == acc[a].0);
                                        assert(acc2[c].0 == acc[c].0);
                                    }
                                },
                                None => {
                                    assert forall|a: int, c: int| 0 <= a < c < acc2.len() implies #[trigger] acc2[a].0 != #[trigger] acc2[c].0 by {
                                        if c == acc.len() {
                                            assert(acc2[a].0 == acc[a].0);
                                        } else {
                                            assert(acc2[a].0 == acc[a].0);
                                            assert(acc2[c].0 == acc[c].0);
                                        }
                                    }
                                },
                            }
                        }
                        lemma_read_meta_distinct(b, p2, (rem - 1) as nat, acc2);
                    },
                    Err(_) => {},
                }
            },
            Err(_) => {},
        }
    }
}

proof fn lemma_read_tensors_distinct(b: Seq<u8>, pos: int, rem: nat, acc: Seq<TensorInfoView>)
    requires
        spec_names_distinct(acc),
    ensures
        spec_read_tensors(b, pos, rem, acc) matches Ok((t, _)) ==> spec_names_distinct(t),
    decreases rem,
{
    if rem > 0 {
        match spec_read_tensor(b, pos) {
            Ok((x, p)) => {
                let acc2 = spec_tensor_insert(acc, x);
                lemma_find_view_tensor(acc, x.name, 0);
                assert(spec_names_distinct(acc2)) by {
                    match spec_find_view_tensor(acc, x.name, 0) {
                        Some(i) => {
                            assert forall|a: int, c: int| 0 <= a < c < acc2.len() implies #[trigger] acc2[a].name != #[trigger] acc2[c].name by {
                                assert(acc2[a].name == acc[a].name);
                                assert(acc2[c].name == acc[c].name);
                            }
                        },
                        None => {
                            assert forall|a: int, c: int| 0 <= a < c < acc2.len() implies #[trigger] acc2[a].name != #[trigger] acc2[c].name by {
                                assert(acc2[a].name == acc[a].name);
                                if c < acc.len() {
                                    assert(acc2[c].name == acc[c].name);
                                }
                            }
                        },
                    }
                }
                lemma_read_tensors_distinct(b, p, (rem - 1) as nat, acc2);
            },
            Err(_) => {},
        }
    }
}

/// A decoded header keeps one metadata entry per key and one descriptor per tensor name:
/// a repeated key or name replaces the earlier entry, as a map would.
pub proof fn lemma_parsed_keys_distinct(b: Seq<u8>)
    ensures
        spec_parse_gguf(b) matches Ok(f) ==> spec_keys_distinct(f.metadata) && spec_names_distinct(f.tensors),
{
    if b.len() >= 24 {
        let tc = spec_read_u64(b, 8) as usize;
        let mc = spec_read_u64(b, 16) as usize;
        lemma_read_meta_distinct(b, 24, mc as nat, Seq::empty());
        match spec_read_meta(b, 24, mc as nat, Seq::empty()) {
            Ok((meta, p1)) => {
                lemma_read_tensors_distinct(b, p1, tc as nat, Seq::empty());
            },
            Err(_) => {},
        }
    }
}

} // verus!
