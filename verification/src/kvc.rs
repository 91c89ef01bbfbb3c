//! The `.kvc` snapshot file format: a 40-byte little-endian header (magic `MIVIKVC1`,
//! model hash, token count, position and the four state lengths), then the tokens and the
//! four state arrays as 32-bit little-endian words. State elements are carried as their
//! 32-bit patterns.

use vstd::prelude::*;
use crate::prefix::HybridStateSnapshot;

verus! {

/// Size of the fixed header in bytes.
pub const KVC_HEADER_BYTES: usize = 40;

/// Why a byte image is not a readable snapshot.
#[derive(Debug, Clone, Copy, PartialEq, Eq, Structural)]
pub enum KvcError {
    /// The image ends inside the header.
    Truncated,
    /// The first eight bytes are not `MIVIKVC1`.
    MagicMismatch,
    /// The snapshot belongs to another model.
    ModelHashMismatch { expected: u64, found: u64 },
    /// The header announces more payload than the image holds.
    PayloadExceedsFile { needed: u64, file_len: u64 },
}

/// The magic bytes `MIVIKVC1`.
pub open spec fn spec_kvc_magic() -> Seq<u8> {
    seq![0x4Du8, 0x49u8, 0x56u8, 0x49u8, 0x4Bu8, 0x56u8, 0x43u8, 0x31u8]
}

/// Little-endian bytes of a 32-bit word.
pub open spec fn spec_le32(x: u32) -> Seq<u8> {
    seq![(x & 0xff) as u8, ((x >> 8u32) & 0xff) as u8, ((x >> 16u32) & 0xff) as u8, ((x >> 24u32) & 0xff) as u8]
}

/// Little-endian bytes of a 64-bit word.
pub open spec fn spec_le64(x: u64) -> Seq<u8> {
    spec_le32((x & 0xffff_ffff) as u32) + spec_le32((x >> 32u64) as u32)
}

/// Little-endian bytes of each word in turn.
pub open spec fn spec_le32_seq(s: Seq<u32>) -> Seq<u8>
    decreases s.len(),
{
    if s.len() == 0 {
        Seq::empty()
    } else {
        spec_le32_seq(s.drop_last()) + spec_le32(s.last())
    }
}

/// The 32-bit little-endian word at `off`.
pub open spec fn spec_read_u32(b: Seq<u8>, off: int) -> u32 {
    (b[off] as u32) | ((b[off + 1] as u32) << 8u32) | ((b[off + 2] as u32) << 16u32) | ((b[off
        + 3] as u32) << 24u32)
}

/// The 64-bit little-endian word at `off`.
pub open spec fn spec_read_u64(b: Seq<u8>, off: int) -> u64 {
    (spec_read_u32(b, off) as u64) | ((spec_read_u32(b, off + 4) as u64) << 32u64)
}

/// `n` consecutive 32-bit words starting at `off`.
pub open spec fn spec_read_u32s(b: Seq<u8>, off: int, n: int) -> Seq<u32> {
    Seq::new(n as nat, |i: int| spec_read_u32(b, off + 4 * i))
}

/// The byte image of a snapshot (lengths and position are stored as 32-bit words).
pub open spec fn spec_encode_kvc(tokens: Seq<u32>, state: HybridStateSnapshot<u32>, model_hash: u64) -> Seq<u8> {
    spec_kvc_magic() + spec_le64(model_hash) + spec_le32(tokens.len() as u32) + spec_le32(
        state.pos as u32,
    ) + spec_le32(state.k_cache@.len() as u32) + spec_le32(state.v_cache@.len() as u32)
        + spec_le32(state.ssm_conv_states@.len() as u32) + spec_le32(
        state.ssm_hidden_states@.len() as u32,
    ) + spec_le32_seq(tokens) + spec_le32_seq(state.k_cache@) + spec_le32_seq(state.v_cache@)
        + spec_le32_seq(state.ssm_conv_states@) + spec_le32_seq(state.ssm_hidden_states@)
}

/// Payload bytes announced by a header.
pub open spec fn spec_kvc_payload(b: Seq<u8>) -> int {
    4 * spec_read_u32(b, 16) + 4 * (spec_read_u32(b, 24) + spec_read_u32(b, 28) + spec_read_u32(b, 32)
        + spec_read_u32(b, 36))
}

/// The outcome of reading an image: the error, or (token count, position, the four state
/// lengths) for a valid one.
pub open spec fn spec_kvc_check(b: Seq<u8>, expected: Option<u64>) -> Result<(), KvcError> {
    if b.len() < 8 {
        Err(KvcError::Truncated)
    } else if b.take(8) != spec_kvc_magic() {
        Err(KvcError::MagicMismatch)
    } else if b.len() < 16 {
        Err(KvcError::Truncated)
    } else if expected is Some && spec_read_u64(b, 8) != expected->0 {
        Err(KvcError::ModelHashMismatch { expected: expected->0, found: spec_read_u64(b, 8) })
    } else if b.len() < KVC_HEADER_BYTES {
        Err(KvcError::Truncated)
    } else if KVC_HEADER_BYTES + spec_kvc_payload(b) > b.len() {
        Err(KvcError::PayloadExceedsFile {
            needed: (KVC_HEADER_BYTES + spec_kvc_payload(b)) as u64,
            file_len: b.len() as u64,
        })
    } else {
        Ok(())
    }
}

/// `tokens` and `s` are what the image `b` holds after its header.
pub open spec fn spec_kvc_decoded(b: Seq<u8>, tokens: Seq<u32>, s: HybridStateSnapshot<u32>) -> bool {
    let n = spec_read_u32(b, 16) as int;
    let k = spec_read_u32(b, 24) as int;
    let v = spec_read_u32(b, 28) as int;
    let c = spec_read_u32(b, 32) as int;
    let h = spec_read_u32(b, 36) as int;
    &&& tokens == spec_read_u32s(b, 40, n)
    &&& s.pos == spec_read_u32(b, 20)
    &&& s.standalone_hash == 0
    &&& s.k_cache@ == spec_read_u32s(b, 40 + 4 * n, k)
    &&& s.v_cache@ == spec_read_u32s(b, 40 + 4 * (n + k), v)
    &&& s.ssm_conv_states@ == spec_read_u32s(b, 40 + 4 * (n + k + v), c)
    &&& s.ssm_hidden_states@ == spec_read_u32s(b, 40 + 4 * (n + k + v + c), h)
}

fn push_le32(out: &mut Vec<u8>, x: u32)
    ensures
        final(out)@ == old(out)@ + spec_le32(x),
{
    out.push((x & 0xff) as u8);
    out.push(((x >> 8u32) & 0xff) as u8);
    out.push(((x >> 16u32) & 0xff) as u8);
    out.push(((x >> 24u32) & 0xff) as u8);
    assert(out@ =~= old(out)@ + spec_le32(x));
}

fn push_le64(out: &mut Vec<u8>, x: u64)
    ensures
        final(out)@ == old(out)@ + spec_le64(x),
{
    push_le32(out, (x & 0xffff_ffff) as u32);
    push_le32(out, (x >> 32u64) as u32);
    assert(out@ =~= old(out)@ + spec_le64(x));
}

fn push_le32_all(out: &mut Vec<u8>, s: &[u32])
    ensures
        final(out)@ == old(out)@ + spec_le32_seq(s@),
{
    let n = s.len();
    for i in 0..n
        invariant
            n == s@.len(),
            out@ == old(out)@ + spec_le32_seq(s@.take(i as int)),
    {
        let ghost before = out@;
        push_le32(out, s[i]);
        proof {
            let t = s@.take(i + 1);
            assert(t.drop_last() =~= s@.take(i as int));
            assert(t.last() == s@[i as int]);
            assert(out@ =~= old(out)@ + spec_le32_seq(t));
        }
    }
    assert(s@.take(n as int) =~= s@);
}

/// The byte image of a snapshot and its tokens (see [`spec_encode_kvc`]).
pub fn encode_kvc(tokens: &[u32], state: &HybridStateSnapshot<u32>, model_hash: u64) -> (r: Vec<u8>)
    ensures
        r@ == spec_encode_kvc(tokens@, *state, model_hash),
{
    let mut out: Vec<u8> = Vec::new();
    out.push(0x4Du8);
    out.push(0x49u8);
    out.push(0x56u8);
    out.push(0x49u8);
    out.push(0x4Bu8);
    out.push(0x56u8);
    out.push(0x43u8);
    out.push(0x31u8);
    assert(out@ =~= spec_kvc_magic());
    push_le64(&mut out, model_hash);
    push_le32(&mut out, tokens.len() as u32);
    push_le32(&mut out, state.pos as u32);
    push_le32(&mut out, state.k_cache.len() as u32);
    push_le32(&mut out, state.v_cache.len() as u32);
    push_le32(&mut out, state.ssm_conv_states.len() as u32);
    push_le32(&mut out, state.ssm_hidden_states.len() as u32);
    push_le32_all(&mut out, tokens);
    push_le32_all(&mut out, state.k_cache.as_slice());
    push_le32_all(&mut out, state.v_cache.as_slice());
    push_le32_all(&mut out, state.ssm_conv_states.as_slice());
    push_le32_all(&mut out, state.ssm_hidden_states.as_slice());
    out
}

pub(crate) fn read_u32(b: &[u8], off: usize) -> (r: u32)
    requires
        off + 4 <= b@.len(),
    ensures
        r == spec_read_u32(b@, off as int),
{
    (b[off] as u32) | ((b[off + 1] as u32) << 8u32) | ((b[off + 2] as u32) << 16u32) | ((b[off
        + 3] as u32) << 24u32)
}

pub(crate) fn read_u64(b: &[u8], off: usize) -> (r: u64)
    requires
        off + 8 <= b@.len(),
    ensures
        r == spec_read_u64(b@, off as int),
{
    let _bl = b.len();
    (read_u32(b, off) as u64) | ((read_u32(b, off + 4) as u64) << 32u64)
}

fn read_u32s(b: &[u8], off: usize, n: usize) -> (r: Vec<u32>)
    requires
        off + 4 * n <= b@.len(),
    ensures
        r@ == spec_read_u32s(b@, off as int, n as int),
{
    let mut r: Vec<u32> = Vec::new();
    let bl = b.len();
    for i in 0..n
        invariant
            off + 4 * n <= b@.len(),
            bl == b@.len(),
            r@ == spec_read_u32s(b@, off as int, i as int),
    {
        r.push(read_u32(b, off + 4 * i));
        assert(r@ =~= spec_read_u32s(b@, off as int, i + 1));
    }
    r
}

fn magic_ok(b: &[u8]) -> (r: bool)
    requires
        b@.len() >= 8,
    ensures
        r == (b@.take(8) == spec_kvc_magic()),
{
    let r = b[0] == 0x4Du8 && b[1] == 0x49u8 && b[2] == 0x56u8 && b[3] == 0x49u8 && b[4] == 0x4Bu8
        && b[5] == 0x56u8 && b[6] == 0x43u8 && b[7] == 0x31u8;
    proof {
        if r {
            assert(b@.take(8) =~= spec_kvc_magic());
        } else {
            if b@.take(8) == spec_kvc_magic() {
                assert(b@.take(8)[0] == b@[0]);
            }
        }
    }
    r
}


/// The model hash and token count a directory listing shows for a file starting with
/// `b`: `None` without the magic; a field the data does not reach reads as 0.
pub open spec fn spec_listing_header(b: Seq<u8>) -> Option<(u64, usize)> {
    if b.len() < 8 || b.take(8) != spec_kvc_magic() {
        None
    } else {
        Some((
            if b.len() >= 16 { spec_read_u64(b, 8) } else { 0 },
            if b.len() >= 20 { spec_read_u32(b, 16) as usize } else { 0 },
        ))
    }
}

/// Reads the model hash and token count at the start of a snapshot file for a listing.
pub fn read_listing_header(bytes: &[u8]) -> (r: Option<(u64, usize)>)
    ensures
        r == spec_listing_header(bytes@),
{
    if bytes.len() < 8 || !magic_ok(bytes) {
        return None;
    }
    let hash = if bytes.len() >= 16 { read_u64(bytes, 8) } else { 0 };
    let count = if bytes.len() >= 20 { read_u32(bytes, 16) as usize } else { 0 };
    Some((hash, count))
}

/// Reads a snapshot image: the checks of [`spec_kvc_check`] in file order, then the tokens
/// and the four state arrays, in that order, after the header. The snapshot's standalone
/// hash is not stored and reads as 0.
pub fn decode_kvc(bytes: &[u8], expected_model_hash: Option<u64>) -> (r: Result<
    (Vec<u32>, HybridStateSnapshot<u32>),
    KvcError,
>)
    ensures
        spec_kvc_check(bytes@, expected_model_hash) matches Err(e) ==> r == Err::<
            (Vec<u32>, HybridStateSnapshot<u32>),
            KvcError,
        >(e),
        spec_kvc_check(bytes@, expected_model_hash) is Ok ==> (r matches Ok((t, s))
            && spec_kvc_decoded(bytes@, t@, s)),
{
    let len = bytes.len();
    if len < 8 {
        return Err(KvcError::Truncated);
    }
    if !magic_ok(bytes) {
        return Err(KvcError::MagicMismatch);
    }
    if len < 16 {
        return Err(KvcError::Truncated);
    }
    let model_hash = read_u64(bytes, 8);
    match expected_model_hash {
        Some(expected) => {
            if model_hash != expected {
                return Err(KvcError::ModelHashMismatch { expected, found: model_hash });
            }
        },
        None => {},
    }
    if len < KVC_HEADER_BYTES {
        return Err(KvcError::Truncated);
    }
    let n = read_u32(bytes, 16);
    let pos = read_u32(bytes, 20);
    let k = read_u32(bytes, 24);
    let v = read_u32(bytes, 28);
    let c = read_u32(bytes, 32);
    let h = read_u32(bytes, 36);
    let payload: u64 = 4 * (n as u64) + 4 * ((k as u64) + (v as u64) + (c as u64) + (h as u64));
    let needed: u64 = 40 + payload;
    if needed > len as u64 {
        return Err(KvcError::PayloadExceedsFile { needed, file_len: len as u64 });
    }
    let n = n as usize;
    let k = k as usize;
    let v = v as usize;
    let c = c as usize;
    let h = h as usize;
    let tokens = read_u32s(bytes, 40, n);
    let k_cache = read_u32s(bytes, 40 + 4 * n, k);
    let v_cache = read_u32s(bytes, 40 + 4 * (n + k), v);
    let conv = read_u32s(bytes, 40 + 4 * (n + k + v), c);
    let hidden = read_u32s(bytes, 40 + 4 * (n + k + v + c), h);
    Ok((tokens, HybridStateSnapshot::new(pos as usize, 0, k_cache, v_cache, conv, hidden)))
}

proof fn lemma_le32_read(x: u32)
    ensures
        spec_read_u32(spec_le32(x), 0) == x,
{
    let b0 = (x & 0xff) as u8;
    let b1 = ((x >> 8u32) & 0xff) as u8;
    let b2 = ((x >> 16u32) & 0xff) as u8;
    let b3 = ((x >> 24u32) & 0xff) as u8;
    assert(spec_le32(x)[0] == b0 && spec_le32(x)[1] == b1 && spec_le32(x)[2] == b2 && spec_le32(x)[3] == b3);
    assert((b0 as u32) | ((b1 as u32) << 8u32) | ((b2 as u32) << 16u32) | ((b3 as u32) << 24u32) == x) by (bit_vector)
        requires
            b0 == (x & 0xff) as u8,
            b1 == ((x >> 8u32) & 0xff) as u8,
            b2 == ((x >> 16u32) & 0xff) as u8,
            b3 == ((x >> 24u32) & 0xff) as u8,
    ;
}

proof fn lemma_le64_parts(x: u64)
    ensures
        (((x & 0xffff_ffff) as u32) as u64) | ((((x >> 32u64) as u32) as u64) << 32u64) == x,
{
    assert((((x & 0xffff_ffff) as u32) as u64) | ((((x >> 32u64) as u32) as u64) << 32u64) == x) by (bit_vector);
}

/// The word at `off` of `b` is `x` when `b` holds `x`'s bytes there.
proof fn lemma_read_at(b: Seq<u8>, off: int, x: u32)
    requires
        0 <= off,
        off + 4 <= b.len(),
        b.subrange(off, off + 4) == spec_le32(x),
    ensures
        spec_read_u32(b, off) == x,
{
    lemma_le32_read(x);
    let w = b.subrange(off, off + 4);
    assert(w[0] == b[off] && w[1] == b[off + 1] && w[2] == b[off + 2] && w[3] == b[off + 3]);
}

proof fn lemma_le32_seq_index(s: Seq<u32>, i: int)
    requires
        0 <= i < s.len(),
    ensures
        spec_le32_seq(s).len() == 4 * s.len(),
        spec_le32_seq(s).subrange(4 * i, 4 * i + 4) == spec_le32(s[i]),
    decreases s.len(),
{
    lemma_le32_seq_len(s);
    let p = s.drop_last();
    lemma_le32_seq_len(p);
    if i < s.len() - 1 {
        lemma_le32_seq_index(p, i);
        assert(spec_le32_seq(s).subrange(4 * i, 4 * i + 4) =~= spec_le32_seq(p).subrange(4 * i, 4 * i + 4));
    } else {
        assert(spec_le32_seq(s).subrange(4 * i, 4 * i + 4) =~= spec_le32(s.last()));
    }
}

proof fn lemma_le32_seq_len(s: Seq<u32>)
    ensures
        spec_le32_seq(s).len() == 4 * s.len(),
    decreases s.len(),
{
    if s.len() > 0 {
        lemma_le32_seq_len(s.drop_last());
    }
}

/// Reading `s.len()` words at `off` gives `s` back when `b` holds `s`'s bytes there.
proof fn lemma_read_seq(b: Seq<u8>, off: int, s: Seq<u32>)
    requires
        0 <= off,
        off + 4 * s.len() <= b.len(),
        b.subrange(off, off + 4 * s.len()) == spec_le32_seq(s),
    ensures
        spec_read_u32s(b, off, s.len() as int) == s,
{
    lemma_le32_seq_len(s);
    assert forall|i: int| 0 <= i < s.len() implies #[trigger] spec_read_u32s(b, off, s.len() as int)[i] == s[i] by {
        lemma_le32_seq_index(s, i);
        assert(b.subrange(off + 4 * i, off + 4 * i + 4) =~= spec_le32_seq(s).subrange(4 * i, 4 * i + 4));
        lemma_read_at(b, off + 4 * i, s[i]);
    }
    assert(spec_read_u32s(b, off, s.len() as int) =~= s);
}

proof fn lemma_part(b: Seq<u8>, p: Seq<u8>, q: Seq<u8>, r: Seq<u8>)
    requires
        b == p + q + r,
    ensures
        b.subrange(p.len() as int, (p.len() + q.len()) as int) == q,
{
    assert(b.subrange(p.len() as int, (p.len() + q.len()) as int) =~= q);
}

#[verifier::rlimit(50)]
proof fn lemma_roundtrip_header(tokens: Seq<u32>, state: HybridStateSnapshot<u32>, model_hash: u64)
    requires
        tokens.len() <= u32::MAX,
        state.pos <= u32::MAX,
        state.k_cache@.len() <= u32::MAX,
        state.v_cache@.len() <= u32::MAX,
        state.ssm_conv_states@.len() <= u32::MAX,
        state.ssm_hidden_states@.len() <= u32::MAX,
    ensures
        ({
            let b = spec_encode_kvc(tokens, state, model_hash);
            &&& b.len() == 40 + 4 * tokens.len() + 4 * state.k_cache@.len() + 4 * state.v_cache@.len()
                + 4 * state.ssm_conv_states@.len() + 4 * state.ssm_hidden_states@.len()
            &&& b.take(8) == spec_kvc_magic()
            &&& spec_read_u64(b, 8) == model_hash
            &&& spec_read_u32(b, 16) == tokens.len()
            &&& spec_read_u32(b, 20) == state.pos
            &&& spec_read_u32(b, 24) == state.k_cache@.len()
            &&& spec_read_u32(b, 28) == state.v_cache@.len()
            &&& spec_read_u32(b, 32) == state.ssm_conv_states@.len()
            &&& spec_read_u32(b, 36) == state.ssm_hidden_states@.len()
        }),
{
    let b = spec_encode_kvc(tokens, state, model_hash);
    let n = tokens.len() as int;
    let k = state.k_cache@.len() as int;
    let v = state.v_cache@.len() as int;
    let c = state.ssm_conv_states@.len() as int;
    let h = state.ssm_hidden_states@.len() as int;
    lemma_le32_seq_len(tokens);
    lemma_le32_seq_len(state.k_cache@);
    lemma_le32_seq_len(state.v_cache@);
    lemma_le32_seq_len(state.ssm_conv_states@);
    lemma_le32_seq_len(state.ssm_hidden_states@);
    let body = spec_le32_seq(tokens) + spec_le32_seq(state.k_cache@) + spec_le32_seq(state.v_cache@)
        + spec_le32_seq(state.ssm_conv_states@) + spec_le32_seq(state.ssm_hidden_states@);
    let m = spec_kvc_magic();
    let w0 = spec_le32((model_hash & 0xffff_ffff) as u32);
    let w1 = spec_le32((model_hash >> 32u64) as u32);
    let ln = spec_le32(n as u32);
    let lp = spec_le32(state.pos as u32);
    let lk = spec_le32(k as u32);
    let lv = spec_le32(v as u32);
    let lc = spec_le32(c as u32);
    let lh = spec_le32(h as u32);
    assert(b =~= m + w0 + w1 + ln + lp + lk + lv + lc + lh + body);
    assert(b.take(8) =~= m);
    assert(b =~= m + w0 + (w1 + ln + lp + lk + lv + lc + lh + body));
    lemma_part(b, m, w0, w1 + ln + lp + lk + lv + lc + lh + body);
    assert(b =~= m + w0 + w1 + (ln + lp + lk + lv + lc + lh + body));
    lemma_part(b, m + w0, w1, ln + lp + lk + lv + lc + lh + body);
    assert(b =~= m + w0 + w1 + ln + (lp + lk + lv + lc + lh + body));
    lemma_part(b, m + w0 + w1, ln, lp + lk + lv + lc + lh + body);
    assert(b =~= m + w0 + w1 + ln + lp + (lk + lv + lc + lh + body));
    lemma_part(b, m + w0 + w1 + ln, lp, lk + lv + lc + lh + body);
    assert(b =~= m + w0 + w1 + ln + lp + lk + (lv + lc + lh + body));
    lemma_part(b, m + w0 + w1 + ln + lp, lk, lv + lc + lh + body);
    assert(b =~= m + w0 + w1 + ln + lp + lk + lv + (lc + lh + body));
    lemma_part(b, m + w0 + w1 + ln + lp + lk, lv, lc + lh + body);
    assert(b =~= m + w0 + w1 + ln + lp + lk + lv + lc + (lh + body));
    lemma_part(b, m + w0 + w1 + ln + lp + lk + lv, lc, lh + body);
    assert(b =~= m + w0 + w1 + ln + lp + lk + lv + lc + lh + (body));
    lemma_part(b, m + w0 + w1 + ln + lp + lk + lv + lc, lh, body);
    lemma_read_at(b, 8, (model_hash & 0xffff_ffff) as u32);
    lemma_read_at(b, 12, (model_hash >> 32u64) as u32);
    lemma_le64_parts(model_hash);
    lemma_read_at(b, 16, n as u32);
    lemma_read_at(b, 20, state.pos as u32);
    lemma_read_at(b, 24, k as u32);
    lemma_read_at(b, 28, v as u32);
    lemma_read_at(b, 32, c as u32);
    lemma_read_at(b, 36, h as u32);
}

#[verifier::rlimit(50)]
proof fn lemma_roundtrip_body(tokens: Seq<u32>, state: HybridStateSnapshot<u32>, model_hash: u64)
    ensures
        ({
            let b = spec_encode_kvc(tokens, state, model_hash);
            let n = tokens.len() as int;
            let k = state.k_cache@.len() as int;
            let v = state.v_cache@.len() as int;
            let c = state.ssm_conv_states@.len() as int;
            let h = state.ssm_hidden_states@.len() as int;
            &&& spec_read_u32s(b, 40, n) == tokens
            &&& spec_read_u32s(b, 40 + 4 * n, k) == state.k_cache@
            &&& spec_read_u32s(b, 40 + 4 * (n + k), v) == state.v_cache@
            &&& spec_read_u32s(b, 40 + 4 * (n + k + v), c) == state.ssm_conv_states@
            &&& spec_read_u32s(b, 40 + 4 * (n + k + v + c), h) == state.ssm_hidden_states@
        }),
{
    let b = spec_encode_kvc(tokens, state, model_hash);
    let n = tokens.len() as int;
    let k = state.k_cache@.len() as int;
    let v = state.v_cache@.len() as int;
    let c = state.ssm_conv_states@.len() as int;
    lemma_le32_seq_len(tokens);
    lemma_le32_seq_len(state.k_cache@);
    lemma_le32_seq_len(state.v_cache@);
    lemma_le32_seq_len(state.ssm_conv_states@);
    lemma_le32_seq_len(state.ssm_hidden_states@);
    let head = spec_kvc_magic() + spec_le64(model_hash) + spec_le32(tokens.len() as u32) + spec_le32(
        state.pos as u32,
    ) + spec_le32(state.k_cache@.len() as u32) + spec_le32(state.v_cache@.len() as u32)
        + spec_le32(state.ssm_conv_states@.len() as u32) + spec_le32(
        state.ssm_hidden_states@.len() as u32,
    );
    assert(head.len() == 40);
    let t = spec_le32_seq(tokens);
    let kk = spec_le32_seq(state.k_cache@);
    let vv = spec_le32_seq(state.v_cache@);
    let cc = spec_le32_seq(state.ssm_conv_states@);
    let hh = spec_le32_seq(state.ssm_hidden_states@);
    assert(b =~= head + t + kk + vv + cc + hh);
    assert(b =~= head + t + (kk + vv + cc + hh));
    lemma_part(b, head, t, kk + vv + cc + hh);
    assert(b =~= head + t + kk + (vv + cc + hh));
    lemma_part(b, head + t, kk, vv + cc + hh);
    assert(b =~= head + t + kk + vv + (cc + hh));
    lemma_part(b, head + t + kk, vv, cc + hh);
    assert(b =~= head + t + kk + vv + cc + (hh));
    lemma_part(b, head + t + kk + vv, cc, hh);
    assert(b =~= head + t + kk + vv + cc + hh + (Seq::<u8>::empty()));
    lemma_part(b, head + t + kk + vv + cc, hh, Seq::<u8>::empty());
    lemma_read_seq(b, 40, tokens);
    lemma_read_seq(b, 40 + 4 * n, state.k_cache@);
    lemma_read_seq(b, 40 + 4 * (n + k), state.v_cache@);
    lemma_read_seq(b, 40 + 4 * (n + k + v), state.ssm_conv_states@);
    lemma_read_seq(b, 40 + 4 * (n + k + v + c), state.ssm_hidden_states@);
}

/// Writing a snapshot and reading it back gives the same tokens and state (with the
/// standalone hash, which is not stored, read as 0), as long as the token count, the
/// position and the state lengths fit in 32 bits; the model hash written is the one
/// checked on reading.
pub proof fn lemma_kvc_roundtrip(tokens: Seq<u32>, state: HybridStateSnapshot<u32>, model_hash: u64)
    requires
        tokens.len() <= u32::MAX,
        state.pos <= u32::MAX,
        state.k_cache@.len() <= u32::MAX,
        state.v_cache@.len() <= u32::MAX,
        state.ssm_conv_states@.len() <= u32::MAX,
        state.ssm_hidden_states@.len() <= u32::MAX,
    ensures
        ({
            let b = spec_encode_kvc(tokens, state, model_hash);
            &&& spec_kvc_check(b, Some(model_hash)) == Ok::<(), KvcError>(())
            &&& spec_kvc_check(b, None) == Ok::<(), KvcError>(())
            &&& spec_read_u64(b, 8) == model_hash
            &&& forall|t: Seq<u32>, s: HybridStateSnapshot<u32>| spec_kvc_decoded(b, t, s) ==> {
                &&& t == tokens
                &&& s.pos == state.pos
                &&& s.standalone_hash == 0
                &&& s.k_cache@ == state.k_cache@
                &&& s.v_cache@ == state.v_cache@
                &&& s.ssm_conv_states@ == state.ssm_conv_states@
                &&& s.ssm_hidden_states@ == state.ssm_hidden_states@
            }
        }),
{
    lemma_roundtrip_header(tokens, state, model_hash);
    lemma_roundtrip_body(tokens, state, model_hash);
}


/// A directory listing of a saved snapshot shows the model hash and the number of tokens
/// it was saved with.
pub proof fn lemma_listing_of_saved(tokens: Seq<u32>, state: HybridStateSnapshot<u32>, model_hash: u64)
    requires
        tokens.len() <= u32::MAX,
    ensures
        spec_listing_header(spec_encode_kvc(tokens, state, model_hash)) == Some((model_hash, tokens.len() as usize)),
{
    let b = spec_encode_kvc(tokens, state, model_hash);
    let m = spec_kvc_magic();
    let w0 = spec_le32((model_hash & 0xffff_ffff) as u32);
    let w1 = spec_le32((model_hash >> 32u64) as u32);
    let ln = spec_le32(tokens.len() as u32);
    let rest = spec_le32(state.pos as u32) + spec_le32(state.k_cache@.len() as u32) + spec_le32(state.v_cache@.len() as u32)
        + spec_le32(state.ssm_conv_states@.len() as u32) + spec_le32(state.ssm_hidden_states@.len() as u32)
        + spec_le32_seq(tokens) + spec_le32_seq(state.k_cache@) + spec_le32_seq(state.v_cache@)
        + spec_le32_seq(state.ssm_conv_states@) + spec_le32_seq(state.ssm_hidden_states@);
    assert(b =~= m + w0 + w1 + ln + rest);
    assert(b.take(8) =~= m);
    assert(b =~= m + w0 + (w1 + ln + rest));
    lemma_part(b, m, w0, w1 + ln + rest);
    assert(b =~= m + w0 + w1 + (ln + rest));
    lemma_part(b, m + w0, w1, ln + rest);
    assert(b =~= m + w0 + w1 + ln + rest);
    lemma_part(b, m + w0 + w1, ln, rest);
    lemma_read_at(b, 8, (model_hash & 0xffff_ffff) as u32);
    lemma_read_at(b, 12, (model_hash >> 32u64) as u32);
    lemma_le64_parts(model_hash);
    lemma_read_at(b, 16, tokens.len() as u32);
}

} // verus!
