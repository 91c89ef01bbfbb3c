//! Layout of the flat KV cache: which model layers own cache slots, how many bytes or
//! elements a token takes at each precision, and where each (layer, position) slot lies.
//! The buffers themselves live with the inference runtime; every index into them is
//! computed and bounds-checked here.

use vstd::prelude::*;
use crate::text::{ascii_lower_vec, chars_of, equals_str, spec_ascii_lower_seq};

verus! {

broadcast use vstd::string::group_string_axioms;

/// Elements per Q8_0 quantization block.
pub const Q8_0_BLOCK_SIZE: usize = 32;

/// Bytes per Q8_0 block: 32 signed bytes and an f16 scale.
pub const Q8_0_BYTES: usize = 34;

/// Largest number of model layers a cache can be built for.
pub const MAX_KV_LAYERS: usize = 65536;

/// Storage precision of cached keys and values.
#[derive(Debug, Clone, Copy, PartialEq, Eq, Structural)]
pub enum KvPrecision {
    /// 32-bit floats (4 bytes per element).
    F32,
    /// 8-bit blocks of 32 elements with an f16 scale (34 bytes per block).
    Q8_0,
    /// 4-bit rotated quantization: 4 bytes of norm and half a byte per element.
    TurboQuant4,
    /// 2-bit rotated quantization: 4 bytes of norm and a quarter byte per element.
    TurboQuant2,
}

/// Errors of KV cache construction and access.
#[derive(Debug, Clone, Copy, PartialEq, Eq, Structural)]
pub enum KvError {
    ContextOverflow { pos: usize, max: usize },
    InvalidLayer { layer: usize, max: usize },
    DimMismatch { expected: usize, got: usize },
    AllocationOverflow { n_layers: usize, max_seq_len: usize, kv_dim: usize },
    UnsupportedPrecision(KvPrecision),
}

/// The precision named by an (ASCII lower-cased) command-line value.
pub open spec fn spec_precision_named(lower: Seq<char>) -> Option<KvPrecision> {
    if lower == "f32"@ || lower == "fp32"@ {
        Some(KvPrecision::F32)
    } else if lower == "q8_0"@ || lower == "q8"@ {
        Some(KvPrecision::Q8_0)
    } else if lower == "tq4"@ || lower == "turboquant4"@ || lower == "4bit"@ {
        Some(KvPrecision::TurboQuant4)
    } else if lower == "tq2"@ || lower == "turboquant2"@ || lower == "2bit"@ {
        Some(KvPrecision::TurboQuant2)
    } else {
        None
    }
}

/// Parses a `--kv-precision` value, in any ASCII letter case.
pub fn parse_kv_precision(s: Option<&str>) -> (r: Option<KvPrecision>)
    ensures
        r == (match s {
            Some(t) => spec_precision_named(spec_ascii_lower_seq(t@)),
            None => None,
        }),
{
    let t = match s {
        Some(t) => t,
        None => return None,
    };
    let c = chars_of(t);
    let lv = ascii_lower_vec(c.as_slice());
    let l = lv.as_slice();
    if equals_str(l, "f32") || equals_str(l, "fp32") {
        Some(KvPrecision::F32)
    } else if equals_str(l, "q8_0") || equals_str(l, "q8") {
        Some(KvPrecision::Q8_0)
    } else if equals_str(l, "tq4") || equals_str(l, "turboquant4") || equals_str(l, "4bit") {
        Some(KvPrecision::TurboQuant4)
    } else if equals_str(l, "tq2") || equals_str(l, "turboquant2") || equals_str(l, "2bit") {
        Some(KvPrecision::TurboQuant2)
    } else {
        None
    }
}

/// Size of one token's slot in a cache buffer: `kv_dim` floats for F32, and bytes for the
/// quantized precisions.
pub open spec fn spec_slot_unit(precision: KvPrecision, kv_dim: int) -> int {
    match precision {
        KvPrecision::F32 => kv_dim,
        KvPrecision::Q8_0 => (kv_dim + 31) / 32 * 34,
        KvPrecision::TurboQuant4 => 4 + (kv_dim + 1) / 2,
        KvPrecision::TurboQuant2 => 4 + (kv_dim + 3) / 4,
    }
}

/// Storage bytes per token at a precision.
pub open spec fn spec_bytes_per_token(precision: KvPrecision, kv_dim: int) -> int {
    match precision {
        KvPrecision::F32 => kv_dim * 4,
        _ => spec_slot_unit(precision, kv_dim),
    }
}

/// The rounding in the slot-size formula stays within `usize`.
pub open spec fn spec_unit_computable(precision: KvPrecision, kv_dim: int) -> bool {
    match precision {
        KvPrecision::F32 => true,
        KvPrecision::Q8_0 => kv_dim + 31 <= usize::MAX && (kv_dim + 31) / 32 * 34 <= usize::MAX,
        KvPrecision::TurboQuant4 => kv_dim + 1 <= usize::MAX,
        KvPrecision::TurboQuant2 => kv_dim + 3 <= usize::MAX,
    }
}

/// The cache slot of model layer `l`: the last index at which `l` appears among the
/// attention layers, or `usize::MAX` when it does not appear.
pub open spec fn spec_slot_of(attention_layers: Seq<usize>, l: int) -> int
    decreases attention_layers.len(),
{
    if attention_layers.len() == 0 {
        usize::MAX as int
    } else if attention_layers.last() == l {
        attention_layers.len() - 1
    } else {
        spec_slot_of(attention_layers.drop_last(), l)
    }
}

proof fn lemma_slot_of_bound(attention_layers: Seq<usize>, l: int)
    ensures
        spec_slot_of(attention_layers, l) == usize::MAX || 0 <= spec_slot_of(attention_layers, l)
            < attention_layers.len(),
        spec_slot_of(attention_layers, l) != usize::MAX ==> attention_layers[spec_slot_of(
            attention_layers,
            l,
        )] == l,
    decreases attention_layers.len(),
{
    if attention_layers.len() > 0 && attention_layers.last() != l {
        lemma_slot_of_bound(attention_layers.drop_last(), l);
    }
}

/// `a * b` and `a * b * c` both fit in `usize` (the checked products of the allocation).
pub open spec fn spec_fits(a: int, b: int, c: int) -> bool {
    a * b <= usize::MAX && a * b * c <= usize::MAX
}

/// Abstract description of a cache layout.
pub struct KvLayoutView {
    pub n_layers: nat,
    pub max_seq_len: nat,
    pub kv_dim: nat,
    pub precision: KvPrecision,
    /// Cache slot of each model layer (`usize::MAX` for layers without one).
    pub layer_map: Seq<usize>,
    /// Number of cache slots (one per listed attention layer).
    pub slots: nat,
    pub current_pos: nat,
}

impl KvLayoutView {
    /// Elements (F32) or bytes (other precisions) of one token slot.
    pub open spec fn unit(self) -> int {
        spec_slot_unit(self.precision, self.kv_dim as int)
    }

    /// Length of each of the K and V buffers, in the same unit.
    pub open spec fn buffer_len(self) -> int {
        self.slots * self.max_seq_len * self.unit()
    }

    /// Where the slot of model layer `layer` at position `pos` starts, or the error.
    pub open spec fn offset(self, layer: int, pos: int, unit: int) -> Result<usize, KvError> {
        if layer >= self.n_layers {
            Err(KvError::InvalidLayer { layer: layer as usize, max: self.n_layers as usize })
        } else if self.layer_map[layer] == usize::MAX {
            Err(KvError::InvalidLayer { layer: layer as usize, max: self.n_layers as usize })
        } else if pos >= self.max_seq_len {
            Err(KvError::ContextOverflow { pos: pos as usize, max: self.max_seq_len as usize })
        } else {
            Ok(((self.layer_map[layer] * self.max_seq_len + pos) * unit) as usize)
        }
    }
}

/// Layout of a flat KV cache over `[slots, max_seq_len, unit]` buffers.
pub struct KvLayout {
    n_layers: usize,
    max_seq_len: usize,
    kv_dim: usize,
    precision: KvPrecision,
    layer_map: Vec<usize>,
    slots: usize,
    current_pos: usize,
}

impl View for KvLayout {
    type V = KvLayoutView;

    closed spec fn view(&self) -> KvLayoutView {
        KvLayoutView {
            n_layers: self.n_layers as nat,
            max_seq_len: self.max_seq_len as nat,
            kv_dim: self.kv_dim as nat,
            precision: self.precision,
            layer_map: self.layer_map@,
            slots: self.slots as nat,
            current_pos: self.current_pos as nat,
        }
    }
}

/// A well-formed layout: one map entry per model layer, each a slot index or
/// `usize::MAX`, the slot size computable, and both buffers addressable.
pub open spec fn spec_layout_wf(v: KvLayoutView) -> bool {
    &&& v.layer_map.len() == v.n_layers
    &&& v.n_layers <= MAX_KV_LAYERS
    &&& forall|l: int| 0 <= l < v.n_layers ==> (#[trigger] v.layer_map[l] == usize::MAX
        || v.layer_map[l] < v.slots)
    &&& forall|a: int, b: int| 0 <= a < v.n_layers && 0 <= b < v.n_layers && #[trigger] v.layer_map[a]
        == #[trigger] v.layer_map[b] && v.layer_map[a] != usize::MAX ==> a == b
    &&& spec_unit_computable(v.precision, v.kv_dim as int)
    &&& v.slots * v.max_seq_len <= usize::MAX
    &&& v.buffer_len() <= usize::MAX
    &&& v.max_seq_len <= usize::MAX
    &&& v.kv_dim <= usize::MAX
    &&& v.current_pos <= v.max_seq_len
}

proof fn lemma_offset_fits(v: KvLayoutView, c: int, pos: int)
    requires
        spec_layout_wf(v),
        0 <= c < v.slots,
        0 <= pos < v.max_seq_len,
    ensures
        0 <= (c * v.max_seq_len + pos) * v.unit(),
        (c * v.max_seq_len + pos) * v.unit() + v.unit() <= v.buffer_len(),
{
    let u = v.unit();
    let m = v.max_seq_len as int;
    assert(u >= 0) by {
        assert(spec_slot_unit(v.precision, v.kv_dim as int) >= 0);
    }
    assert(c * m + pos + 1 <= v.slots * m) by (nonlinear_arith)
        requires
            0 <= c < v.slots,
            0 <= pos < m,
    ;
    assert((c * m + pos) * u + u == (c * m + pos + 1) * u) by (nonlinear_arith);
    assert((c * m + pos + 1) * u <= v.slots * m * u) by (nonlinear_arith)
        requires
            c * m + pos + 1 <= v.slots * m,
            u >= 0,
    ;
    assert(0 <= (c * m + pos) * u) by (nonlinear_arith)
        requires
            c >= 0,
            m >= 0,
            pos >= 0,
            u >= 0,
    ;
}

impl KvLayout {
    /// The layout is well formed.
    pub closed spec fn wf(&self) -> bool {
        spec_layout_wf(self@) && self.layer_map@.len() == self.n_layers
    }

    /// Builds the layout of a cache with slots for `attention_layers` (in that order;
    /// entries at or above `n_layers` get no slot) at the given precision.
    pub fn try_new(
        n_layers: usize,
        max_seq_len: usize,
        kv_dim: usize,
        attention_layers: &[usize],
        precision: KvPrecision,
    ) -> (r: Result<Self, KvError>)
        requires
            spec_unit_computable(precision, kv_dim as int),
        ensures
            n_layers > MAX_KV_LAYERS ==> r == Err::<Self, KvError>(
                KvError::AllocationOverflow { n_layers, max_seq_len, kv_dim },
            ),
            n_layers <= MAX_KV_LAYERS && !spec_fits(attention_layers@.len() as int, max_seq_len as int, spec_slot_unit(
                precision,
                kv_dim as int,
            )) ==> r == Err::<Self, KvError>(
                KvError::AllocationOverflow {
                    n_layers: attention_layers@.len() as usize,
                    max_seq_len,
                    kv_dim,
                },
            ),
            r is Ok <==> n_layers <= MAX_KV_LAYERS && spec_fits(attention_layers@.len() as int, max_seq_len as int,
                spec_slot_unit(precision, kv_dim as int)),
            r matches Ok(lay) ==> {
                &&& lay.wf()
                &&& lay@.n_layers == n_layers
                &&& lay@.max_seq_len == max_seq_len
                &&& lay@.kv_dim == kv_dim
                &&& lay@.precision == precision
                &&& lay@.slots == attention_layers@.len()
                &&& lay@.current_pos == 0
                &&& forall|l: int| 0 <= l < n_layers ==> #[trigger] lay@.layer_map[l]
                    == spec_slot_of(attention_layers@, l)
            },
    {
        if n_layers > MAX_KV_LAYERS {
            return Err(KvError::AllocationOverflow { n_layers, max_seq_len, kv_dim });
        }
        let n_attn = attention_layers.len();
        let mut layer_map: Vec<usize> = Vec::new();
        let mut i: usize = 0;
        while i < n_layers
            invariant
                i <= n_layers,
                layer_map@.len() == i,
                forall|l: int| 0 <= l < i ==> #[trigger] layer_map@[l] == usize::MAX,
            decreases n_layers - i,
        {
            layer_map.push(usize::MAX);
            i += 1;
        }
        let mut k: usize = 0;
        while k < n_attn
            invariant
                k <= n_attn,
                n_attn == attention_layers@.len(),
                layer_map@.len() == n_layers,
                forall|l: int| 0 <= l < n_layers ==> #[trigger] layer_map@[l] == spec_slot_of(
                    attention_layers@.take(k as int),
                    l,
                ),
            decreases n_attn - k,
        {
            let layer_idx = attention_layers[k];
            if layer_idx < n_layers {
                layer_map.set(layer_idx, k);
            }
            proof {
                let t = attention_layers@.take(k + 1);
                assert(t.drop_last() =~= attention_layers@.take(k as int));
                assert(t.last() == layer_idx);
            }
            k += 1;
        }
        assert(attention_layers@.take(n_attn as int) =~= attention_layers@);
        let unit = slot_unit(precision, kv_dim);
        let total = match n_attn.checked_mul(max_seq_len) {
            Some(a) => a.checked_mul(unit),
            None => None,
        };
        match total {
            None => {
                Err(KvError::AllocationOverflow { n_layers: n_attn, max_seq_len, kv_dim })
            },
            Some(_) => {
                let lay = KvLayout {
                    n_layers,
                    max_seq_len,
                    kv_dim,
                    precision,
                    layer_map,
                    slots: n_attn,
                    current_pos: 0,
                };
                proof {
                    assert forall|l: int| 0 <= l < n_layers implies (#[trigger] lay@.layer_map[l]
                        == usize::MAX || lay@.layer_map[l] < lay@.slots) by {
                        lemma_slot_of_bound(attention_layers@, l);
                    }
                    assert forall|a: int, b: int| 0 <= a < n_layers && 0 <= b < n_layers
                        && #[trigger] lay@.layer_map[a] == #[trigger] lay@.layer_map[b]
                        && lay@.layer_map[a] != usize::MAX implies a == b by {
                        lemma_slot_of_bound(attention_layers@, a);
                        lemma_slot_of_bound(attention_layers@, b);
                    }
                }
                Ok(lay)
            },
        }
    }
}

/// Size of one token slot (see [`spec_slot_unit`]).
fn slot_unit(precision: KvPrecision, kv_dim: usize) -> (r: usize)
    requires
        spec_unit_computable(precision, kv_dim as int),
    ensures
        r == spec_slot_unit(precision, kv_dim as int),
{
    match precision {
        KvPrecision::F32 => kv_dim,
        KvPrecision::Q8_0 => (kv_dim + Q8_0_BLOCK_SIZE - 1) / Q8_0_BLOCK_SIZE * Q8_0_BYTES,
        KvPrecision::TurboQuant4 => 4 + (kv_dim + 1) / 2,
        KvPrecision::TurboQuant2 => 4 + (kv_dim + 3) / 4,
    }
}

/// Number of model layers that own a slot.
pub open spec fn spec_mapped_count(m: Seq<usize>) -> int
    decreases m.len(),
{
    if m.len() == 0 {
        0
    } else {
        spec_mapped_count(m.drop_last()) + if m.last() != usize::MAX {
            1int
        } else {
            0int
        }
    }
}

/// One past the highest slot index in use (0 when none is).
pub open spec fn spec_slot_end(m: Seq<usize>) -> int
    decreases m.len(),
{
    if m.len() == 0 {
        0
    } else {
        let rest = spec_slot_end(m.drop_last());
        if m.last() != usize::MAX && m.last() + 1 > rest {
            m.last() + 1
        } else {
            rest
        }
    }
}

/// The number of allocated layers as the cache reports it: the larger of the highest
/// slot in use plus one and the number of layers that own a slot.
pub open spec fn spec_allocated_layers(m: Seq<usize>) -> int {
    if spec_slot_end(m) > spec_mapped_count(m) {
        spec_slot_end(m)
    } else {
        spec_mapped_count(m)
    }
}

/// The slot indices in use among the first entries of the map.
pub open spec fn spec_used_slots(m: Seq<usize>) -> Set<int> {
    Set::new(|x: int| exists|i: int| 0 <= i < m.len() && m[i] != usize::MAX && m[i] == x)
}

proof fn lemma_mapped_count_bound(m: Seq<usize>, slots: int)
    requires
        forall|l: int| 0 <= l < m.len() ==> (#[trigger] m[l] == usize::MAX || m[l] < slots),
        forall|a: int, b: int| 0 <= a < m.len() && 0 <= b < m.len() && #[trigger] m[a] == #[trigger] m[b]
            && m[a] != usize::MAX ==> a == b,
        slots >= 0,
    ensures
        spec_mapped_count(m) == spec_used_slots(m).len(),
        spec_used_slots(m).finite(),
        spec_used_slots(m).subset_of(Set::new(|x: int| 0 <= x < slots)),
        spec_slot_end(m) <= slots,
        0 <= spec_mapped_count(m) <= slots,
        0 <= spec_slot_end(m),
    decreases m.len(),
{
    if m.len() == 0 {
        assert(spec_used_slots(m) =~= Set::<int>::empty());
    } else {
        let p = m.drop_last();
        lemma_mapped_count_bound(p, slots);
        if m.last() != usize::MAX {
            let x = m.last() as int;
            assert(!spec_used_slots(p).contains(x)) by {
                if spec_used_slots(p).contains(x) {
                    let i = choose|i: int| 0 <= i < p.len() && p[i] != usize::MAX && p[i] == x;
                    assert(m[i] == m[m.len() - 1]);
                }
            }
            assert(spec_used_slots(m) =~= spec_used_slots(p).insert(x)) by {
                assert forall|y: int| spec_used_slots(m).contains(y) implies spec_used_slots(p).insert(x).contains(y) by {
                    let i = choose|i: int| 0 <= i < m.len() && m[i] != usize::MAX && m[i] == y;
                    if i < p.len() {
                        assert(p[i] == m[i]);
                    }
                }
                assert forall|y: int| spec_used_slots(p).insert(x).contains(y) implies spec_used_slots(m).contains(y) by {
                    if y != x {
                        let i = choose|i: int| 0 <= i < p.len() && p[i] != usize::MAX && p[i] == y;
                        assert(m[i] == p[i]);
                    } else {
                        assert(m[m.len() - 1] == x);
                    }
                }
            }
        } else {
            assert(spec_used_slots(m) =~= spec_used_slots(p)) by {
                assert forall|y: int| spec_used_slots(m).contains(y) implies spec_used_slots(p).contains(y) by {
                    let i = choose|i: int| 0 <= i < m.len() && m[i] != usize::MAX && m[i] == y;
                    assert(i < p.len());
                    assert(p[i] == m[i]);
                }
                assert forall|y: int| spec_used_slots(p).contains(y) implies spec_used_slots(m).contains(y) by {
                    let i = choose|i: int| 0 <= i < p.len() && p[i] != usize::MAX && p[i] == y;
                    assert(m[i] == p[i]);
                }
            }
        }
        let range = Set::new(|x: int| 0 <= x < slots);
        assert(range =~= vstd::set_lib::set_int_range(0, slots));
        vstd::set_lib::lemma_int_range(0, slots);
        vstd::set_lib::lemma_len_subset(spec_used_slots(m), range);
    }
}

impl KvLayout {
    /// Number of model layers the cache was built for.
    pub fn n_layers(&self) -> (r: usize)
        ensures
            r == self@.n_layers,
    {
        self.n_layers
    }

    /// Maximum number of cached token positions.
    pub fn max_seq_len(&self) -> (r: usize)
        ensures
            r == self@.max_seq_len,
    {
        self.max_seq_len
    }

    /// Maximum number of cached token positions.
    pub fn capacity_tokens(&self) -> (r: usize)
        ensures
            r == self@.max_seq_len,
    {
        self.max_seq_len
    }

    /// Width of one cached key or value vector.
    pub fn kv_dim(&self) -> (r: usize)
        ensures
            r == self@.kv_dim,
    {
        self.kv_dim
    }

    /// Storage precision.
    pub fn precision(&self) -> (r: KvPrecision)
        ensures
            r == self@.precision,
    {
        self.precision
    }

    /// One past the highest position stored so far.
    pub fn current_pos(&self) -> (r: usize)
        ensures
            r == self@.current_pos,
    {
        self.current_pos
    }

    /// Number of slots (one per listed attention layer).
    pub fn slots(&self) -> (r: usize)
        ensures
            r == self@.slots,
    {
        self.slots
    }

    /// Length of each of the K and V buffers: floats for F32, bytes otherwise.
    pub fn buffer_len(&self) -> (r: usize)
        requires
            self.wf(),
        ensures
            r == self@.buffer_len(),
    {
        let unit = slot_unit(self.precision, self.kv_dim);
        self.slots * self.max_seq_len * unit
    }

    /// Storage bytes per token.
    pub fn bytes_per_token(&self) -> (r: usize)
        requires
            self.wf(),
            spec_bytes_per_token(self@.precision, self@.kv_dim as int) <= usize::MAX,
        ensures
            r == spec_bytes_per_token(self@.precision, self@.kv_dim as int),
    {
        match self.precision {
            KvPrecision::F32 => self.kv_dim * 4,
            _ => slot_unit(self.precision, self.kv_dim),
        }
    }

    /// Starts the next sequence at position 0; cached data stays in place.
    pub fn reset(&mut self)
        requires
            old(self).wf(),
        ensures
            final(self).wf(),
            final(self)@ == (KvLayoutView { current_pos: 0, ..old(self)@ }),
    {
        self.current_pos = 0;
    }

    /// Where the slot of model layer `layer` at position `pos` starts in the buffers:
    /// an error for a layer out of range or without a slot, or a position at or past the
    /// maximum. Every slot returned lies inside the buffers.
    pub fn checked_offset(&self, layer: usize, pos: usize) -> (r: Result<usize, KvError>)
        requires
            self.wf(),
        ensures
            r == self@.offset(layer as int, pos as int, self@.unit()),
            r matches Ok(o) ==> o + self@.unit() <= self@.buffer_len(),
    {
        if layer >= self.n_layers {
            return Err(KvError::InvalidLayer { layer, max: self.n_layers });
        }
        let cache_layer = self.layer_map[layer];
        if cache_layer == usize::MAX {
            return Err(KvError::InvalidLayer { layer, max: self.n_layers });
        }
        if pos >= self.max_seq_len {
            return Err(KvError::ContextOverflow { pos, max: self.max_seq_len });
        }
        let unit = slot_unit(self.precision, self.kv_dim);
        proof {
            lemma_offset_fits(self@, cache_layer as int, pos as int);
            assert(cache_layer * self.max_seq_len + pos <= self.slots * self.max_seq_len) by (nonlinear_arith)
                requires
                    cache_layer < self.slots,
                    pos < self.max_seq_len,
            ;
        }
        Ok((cache_layer * self.max_seq_len + pos) * unit)
    }

    /// Records that position `pos` was stored: the current position moves past it.
    pub fn record_store(&mut self, pos: usize)
        requires
            old(self).wf(),
            pos < old(self)@.max_seq_len,
        ensures
            final(self).wf(),
            final(self)@ == (KvLayoutView {
                current_pos: if pos >= old(self)@.current_pos { (pos + 1) as nat } else { old(self)@.current_pos },
                ..old(self)@
            }),
    {
        if pos >= self.current_pos {
            self.current_pos = pos + 1;
        }
    }

    /// Number of allocated layers (see [`spec_allocated_layers`]); never more than the
    /// number of slots.
    pub fn n_allocated_layers(&self) -> (r: usize)
        requires
            self.wf(),
        ensures
            r == spec_allocated_layers(self@.layer_map),
            r <= self@.slots,
    {
        let mut max_idx: usize = 0;
        let mut count: usize = 0;
        let n = self.layer_map.len();
        proof {
            lemma_mapped_count_bound(self@.layer_map, self@.slots as int);
        }
        for i in 0..n
            invariant
                self.wf(),
                n == self@.layer_map.len(),
                max_idx == spec_slot_end(self@.layer_map.take(i as int)),
                count == spec_mapped_count(self@.layer_map.take(i as int)),
                max_idx <= self@.slots,
                count <= i,
        {
            let idx = self.layer_map[i];
            proof {
                let t = self@.layer_map.take(i + 1);
                assert(t.drop_last() =~= self@.layer_map.take(i as int));
                assert(t.last() == idx);
            }
            if idx != usize::MAX {
                count += 1;
                if idx + 1 > max_idx {
                    max_idx = idx + 1;
                }
            }
        }
        assert(self@.layer_map.take(n as int) =~= self@.layer_map);
        if max_idx > count {
            max_idx
        } else {
            count
        }
    }
}

/// Elements of exported data per token: the slot itself for F32, and the slot's bytes
/// rounded up to whole 4-byte floats otherwise.
pub open spec fn spec_export_per_token(v: KvLayoutView) -> int {
    match v.precision {
        KvPrecision::F32 => v.kv_dim as int,
        _ => (v.unit() + 3) / 4,
    }
}

/// Outcome of checking an `import_state` of `pos` positions: (allocated layers, positions
/// copied, expected length of each data array), or the length mismatch.
pub open spec fn spec_plan_import(v: KvLayoutView, pos: int, k_len: int, v_len: int) -> Result<(usize, usize, usize), KvError> {
    let n = spec_allocated_layers(v.layer_map);
    let t = if pos < v.max_seq_len { pos } else { v.max_seq_len as int };
    let e = n * t * spec_export_per_token(v);
    if k_len != e || v_len != e {
        Err(KvError::DimMismatch { expected: e as usize, got: k_len as usize })
    } else {
        Ok((n as usize, t as usize, e as usize))
    }
}

/// Outcome of checking an `import_state_at` of `pos` positions at `target_pos`:
/// (allocated layers, expected length of each data array), or the error.
pub open spec fn spec_plan_import_at(v: KvLayoutView, target_pos: int, pos: int, k_len: int, v_len: int) -> Result<(usize, usize), KvError> {
    let n = spec_allocated_layers(v.layer_map);
    let per = spec_export_per_token(v);
    if target_pos > v.max_seq_len || pos > v.max_seq_len - target_pos {
        Err(KvError::ContextOverflow {
            pos: if target_pos + pos > usize::MAX { usize::MAX } else { (target_pos + pos) as usize },
            max: v.max_seq_len as usize,
        })
    } else if !spec_fits(n, pos, per) {
        Err(KvError::AllocationOverflow {
            n_layers: n as usize,
            max_seq_len: pos as usize,
            kv_dim: match v.precision {
                KvPrecision::F32 => v.kv_dim as usize,
                _ => v.unit() as usize,
            },
        })
    } else if k_len != n * pos * per || v_len != n * pos * per {
        Err(KvError::DimMismatch { expected: (n * pos * per) as usize, got: k_len as usize })
    } else {
        Ok((n as usize, (n * pos * per) as usize))
    }
}

proof fn lemma_export_size(v: KvLayoutView, n: int, t: int)
    requires
        spec_layout_wf(v),
        0 <= n <= v.slots,
        0 <= t <= v.max_seq_len,
        v.precision != KvPrecision::F32 ==> v.unit() + 3 <= usize::MAX,
    ensures
        0 <= spec_export_per_token(v) <= v.unit() || (v.unit() == 0 && spec_export_per_token(v) == 0),
        0 <= n * t * spec_export_per_token(v) <= v.buffer_len(),
        n * t <= usize::MAX,
{
    let u = v.unit();
    let per = spec_export_per_token(v);
    let m = v.max_seq_len as int;
    assert(u >= 0);
    assert(per <= u);
    assert(per >= 0);
    assert(n * t <= v.slots * m) by (nonlinear_arith)
        requires
            0 <= n <= v.slots,
            0 <= t <= m,
    ;
    assert(0 <= n * t) by (nonlinear_arith)
        requires
            0 <= n,
            0 <= t,
    ;
    assert(n * t * per <= v.slots * m * u) by (nonlinear_arith)
        requires
            0 <= n * t <= v.slots * m,
            0 <= per <= u,
    ;
    assert(0 <= n * t * per) by (nonlinear_arith)
        requires
            0 <= n * t,
            0 <= per,
    ;
}

/// Every slot lies inside the buffers and different (layer, position) pairs get
/// disjoint slots.
pub proof fn lemma_slots_disjoint(v: KvLayoutView, l1: int, p1: int, l2: int, p2: int)
    requires
        spec_layout_wf(v),
        0 <= l1,
        0 <= l2,
        0 <= p1,
        0 <= p2,
        v.offset(l1, p1, v.unit()) is Ok,
        v.offset(l2, p2, v.unit()) is Ok,
        l1 != l2 || p1 != p2,
    ensures
        ({
            let o1 = v.offset(l1, p1, v.unit())->Ok_0 as int;
            let o2 = v.offset(l2, p2, v.unit())->Ok_0 as int;
            &&& o1 + v.unit() <= v.buffer_len()
            &&& o2 + v.unit() <= v.buffer_len()
            &&& (o1 + v.unit() <= o2 || o2 + v.unit() <= o1)
        }),
{
    let m = v.max_seq_len as int;
    let u = v.unit();
    let c1 = v.layer_map[l1] as int;
    let c2 = v.layer_map[l2] as int;
    assert(v.layer_map[l1] == usize::MAX || v.layer_map[l1] < v.slots);
    assert(v.layer_map[l2] == usize::MAX || v.layer_map[l2] < v.slots);
    lemma_offset_fits(v, c1, p1);
    lemma_offset_fits(v, c2, p2);
    let i1 = c1 * m + p1;
    let i2 = c2 * m + p2;
    assert(i1 != i2) by {
        if c1 == c2 {
            assert(l1 == l2);
            assert(p1 != p2);
        } else if c1 < c2 {
            assert(c1 * m + m <= c2 * m) by (nonlinear_arith)
                requires
                    c1 < c2,
                    m >= 0,
            ;
        } else {
            assert(c2 * m + m <= c1 * m) by (nonlinear_arith)
                requires
                    c2 < c1,
                    m >= 0,
            ;
        }
    }
    if i1 < i2 {
        assert(i1 * u + u <= i2 * u) by (nonlinear_arith)
            requires
                i1 < i2,
                u >= 0,
        ;
    } else {
        assert(i2 * u + u <= i1 * u) by (nonlinear_arith)
            requires
                i2 < i1,
                u >= 0,
        ;
    }
}

impl KvLayout {
    /// Sets the current position (after a snapshot import).
    pub fn set_current_pos(&mut self, pos: usize)
        requires
            old(self).wf(),
            pos <= old(self)@.max_seq_len,
        ensures
            final(self).wf(),
            final(self)@ == (KvLayoutView { current_pos: pos as nat, ..old(self)@ }),
    {
        self.current_pos = pos;
    }

    fn export_per_token(&self) -> (r: usize)
        requires
            self.wf(),
            self@.precision != KvPrecision::F32 ==> self@.unit() + 3 <= usize::MAX,
        ensures
            r == spec_export_per_token(self@),
    {
        match self.precision {
            KvPrecision::F32 => self.kv_dim,
            _ => (slot_unit(self.precision, self.kv_dim) + 3) / 4,
        }
    }

    /// Checks the lengths of snapshot data to import for `pos` positions (see
    /// [`spec_plan_import`]); the copied data always fits the buffers.
    pub fn plan_import(&self, pos: usize, k_len: usize, v_len: usize) -> (r: Result<(usize, usize, usize), KvError>)
        requires
            self.wf(),
            self@.precision != KvPrecision::F32 ==> self@.unit() + 3 <= usize::MAX,
        ensures
            r == spec_plan_import(self@, pos as int, k_len as int, v_len as int),
            r matches Ok((n, t, e)) ==> n <= self@.slots && t <= self@.max_seq_len && e
                <= self@.buffer_len(),
    {
        let n = self.n_allocated_layers();
        let t = if pos < self.max_seq_len {
            pos
        } else {
            self.max_seq_len
        };
        let per = self.export_per_token();
        proof {
            lemma_export_size(self@, n as int, t as int);
        }
        let e = n * t * per;
        if k_len != e || v_len != e {
            return Err(KvError::DimMismatch { expected: e, got: k_len });
        }
        Ok((n, t, e))
    }

    /// Checks an import of `pos` positions of snapshot data at `target_pos` (see
    /// [`spec_plan_import_at`]).
    pub fn plan_import_at(&self, target_pos: usize, pos: usize, k_len: usize, v_len: usize) -> (r: Result<(usize, usize), KvError>)
        requires
            self.wf(),
            self@.precision != KvPrecision::F32 ==> self@.unit() + 3 <= usize::MAX,
        ensures
            r == spec_plan_import_at(self@, target_pos as int, pos as int, k_len as int, v_len as int),
            r matches Ok((n, e)) ==> n <= self@.slots && target_pos + pos <= self@.max_seq_len,
    {
        let n = self.n_allocated_layers();
        if target_pos > self.max_seq_len || pos > self.max_seq_len - target_pos {
            return Err(KvError::ContextOverflow {
                pos: target_pos.saturating_add(pos),
                max: self.max_seq_len,
            });
        }
        let per = self.export_per_token();
        let dim = match self.precision {
            KvPrecision::F32 => self.kv_dim,
            _ => slot_unit(self.precision, self.kv_dim),
        };
        let e = match n.checked_mul(pos) {
            Some(a) => a.checked_mul(per),
            None => None,
        };
        match e {
            None => Err(KvError::AllocationOverflow { n_layers: n, max_seq_len: pos, kv_dim: dim }),
            Some(e) => {
                if k_len != e || v_len != e {
                    Err(KvError::DimMismatch { expected: e, got: k_len })
                } else {
                    Ok((n, e))
                }
            },
        }
    }

    /// Start, in the buffers, of the positions `start..start + count` of slot `slot`; the
    /// whole span lies inside the buffers.
    pub fn span_start(&self, slot: usize, start: usize, count: usize) -> (r: usize)
        requires
            self.wf(),
            slot < self@.slots,
            start + count <= self@.max_seq_len,
        ensures
            r == slot * self@.max_seq_len * self@.unit() + start * self@.unit(),
            r + count * self@.unit() <= self@.buffer_len(),
    {
        let unit = slot_unit(self.precision, self.kv_dim);
        let m = self.max_seq_len;
        proof {
            let sl = self.slots as int;
            assert(slot * m + start + count <= sl * m) by (nonlinear_arith)
                requires
                    slot < sl,
                    start + count <= m,
            ;
            assert((slot * m + start + count) * unit <= sl * m * unit) by (nonlinear_arith)
                requires
                    slot * m + start + count <= sl * m,
                    unit >= 0,
            ;
            assert((slot * m + start + count) * unit == slot * m * unit + start * unit + count * unit) by (nonlinear_arith);
            assert(slot * m <= sl * m) by (nonlinear_arith)
                requires
                    slot < sl,
                    m >= 0,
            ;
            assert(0 <= start * unit && 0 <= count * unit && 0 <= slot * m * unit) by (nonlinear_arith)
                requires
                    start >= 0,
                    count >= 0,
                    slot >= 0,
                    m >= 0,
                    unit >= 0,
            ;
            assert(start * unit <= (slot * m + start + count) * unit) by (nonlinear_arith)
                requires
                    start <= slot * m + start + count,
                    unit >= 0,
            ;
            assert(slot * m * unit <= (slot * m + start + count) * unit) by (nonlinear_arith)
                requires
                    slot * m <= slot * m + start + count,
                    unit >= 0,
            ;
        }
        slot * m * unit + start * unit
    }

    /// Bytes held by the K and V buffers together.
    pub fn memory_bytes(&self) -> (r: usize)
        requires
            self.wf(),
            (match self@.precision {
                KvPrecision::F32 => 8 * self@.buffer_len(),
                _ => 2 * self@.buffer_len(),
            }) <= usize::MAX,
        ensures
            r == (match self@.precision {
                KvPrecision::F32 => 8 * self@.buffer_len(),
                _ => 2 * self@.buffer_len(),
            }),
    {
        let len = self.buffer_len();
        match self.precision {
            KvPrecision::F32 => (len + len) * 4,
            _ => len + len,
        }
    }
}

} // verus!
