//! Naming of mixture-of-experts experts and the policy that decides which experts
//! stay pinned in fast memory, given the experts ranked hottest first.

use vstd::prelude::*;
use crate::text::{
    chars_of, find_from, parse_usize, push_decimal, push_str, spec_all_digits, spec_decimal,
    spec_digit, spec_digits_value, spec_find_from, spec_occurs_at, spec_parse_usize, string_of,
};

verus! {

broadcast use vstd::string::group_string_axioms;

/// Identifies one expert of one layer.
#[derive(Debug, Clone, Copy, PartialEq, Eq, Hash, Structural)]
pub struct ExpertKey {
    pub layer: usize,
    pub expert_id: usize,
}

/// `L<layer>_E<expert_id>`, the name an expert's statistics are stored under.
pub open spec fn spec_make_key(layer: usize, expert_id: usize) -> Seq<char> {
    "L"@ + spec_decimal(layer as nat) + "_E"@ + spec_decimal(expert_id as nat)
}

/// The name an expert's statistics are stored under.
pub fn make_key(layer: usize, expert_id: usize) -> (r: String)
    ensures
        r@ == spec_make_key(layer, expert_id),
{
    let mut r = String::new();
    push_str(&mut r, "L");
    push_decimal(&mut r, layer);
    push_str(&mut r, "_E");
    push_decimal(&mut r, expert_id);
    r
}

/// The expert a stored name denotes: exactly two `_`-separated parts, `L<n>` and `E<m>`,
/// each number read as `str::parse::<usize>` reads it.
pub open spec fn spec_parse_key(k: Seq<char>) -> Option<ExpertKey> {
    match spec_find_from(k, seq!['_'], 0) {
        None => None,
        Some(i) => {
            let a = k.take(i);
            let b = k.skip(i + 1);
            if spec_find_from(b, seq!['_'], 0) is Some {
                None
            } else if a.len() == 0 || a[0] != 'L' || b.len() == 0 || b[0] != 'E' {
                None
            } else {
                match (spec_parse_usize(a.skip(1)), spec_parse_usize(b.skip(1))) {
                    (Some(l), Some(e)) => Some(ExpertKey { layer: l, expert_id: e }),
                    _ => None,
                }
            }
        },
    }
}

/// The text of `s[lo..hi]`.
fn slice_string(s: &[char], lo: usize, hi: usize) -> (r: String)
    requires
        lo <= hi <= s@.len(),
    ensures
        r@ == s@.subrange(lo as int, hi as int),
{
    let mut r = String::new();
    crate::text::push_range(&mut r, s, lo, hi);
    r
}

/// Reads an expert name back; `None` for names of any other shape.
pub fn parse_key(key: &str) -> (r: Option<ExpertKey>)
    ensures
        r == spec_parse_key(key@),
{
    let k = chars_of(key);
    let us: Vec<char> = vec!['_'];
    proof { assert(us@ =~= seq!['_']); }
    let i = match find_from(k.as_slice(), us.as_slice(), 0) {
        Some(i) => i,
        None => {
            return None;
        },
    };
    let b = slice_string(k.as_slice(), i + 1, k.len());
    let bc = chars_of(b.as_str());
    proof { assert(bc@ =~= k@.skip(i + 1)); }
    if find_from(bc.as_slice(), us.as_slice(), 0).is_some() {
        return None;
    }
    let a = slice_string(k.as_slice(), 0, i);
    let ac = chars_of(a.as_str());
    proof { assert(ac@ =~= k@.take(i as int)); }
    if ac.len() == 0 || ac[0] != 'L' || bc.len() == 0 || bc[0] != 'E' {
        return None;
    }
    let a1 = slice_string(ac.as_slice(), 1, ac.len());
    let b1 = slice_string(bc.as_slice(), 1, bc.len());
    proof {
        assert(a1@ =~= ac@.skip(1));
        assert(b1@ =~= bc@.skip(1));
    }
    match (parse_usize(a1.as_str()), parse_usize(b1.as_str())) {
        (Some(l), Some(e)) => Some(ExpertKey { layer: l, expert_id: e }),
        _ => None,
    }
}

proof fn lemma_decimal_digits(n: nat)
    ensures
        spec_decimal(n).len() > 0,
        spec_all_digits(spec_decimal(n)),
        spec_digits_value(spec_decimal(n)) == n,
    decreases n,
{
    let d = spec_decimal(n);
    if n < 10 {
        assert(d =~= seq![spec_digit(n as int)]);
        assert(d.drop_last() =~= Seq::<char>::empty());
        assert(spec_digit(n as int) as u32 == 48 + n);
        assert(spec_digits_value(d.drop_last()) == 0);
    } else {
        lemma_decimal_digits(n / 10);
        let p = spec_decimal(n / 10);
        assert(d =~= p + seq![spec_digit((n % 10) as int)]);
        assert(d.drop_last() =~= p);
        assert(spec_digit((n % 10) as int) as u32 == 48 + n % 10);
        assert(d.last() == spec_digit((n % 10) as int));
        assert forall|i: int| 0 <= i < d.len() implies '0' <= #[trigger] d[i] <= '9' by {
            if i < p.len() {
                assert(d[i] == p[i]);
            }
        }
    }
}

proof fn lemma_no_underscore(s: Seq<char>, from: int)
    requires
        forall|i: int| 0 <= i < s.len() ==> #[trigger] s[i] != '_',
        0 <= from,
    ensures
        spec_find_from(s, seq!['_'], from) is None,
    decreases s.len() + 1 - from,
{
    if from + 1 <= s.len() {
        assert(!spec_occurs_at(s, seq!['_'], from)) by {
            if spec_occurs_at(s, seq!['_'], from) {
                assert(s.subrange(from, from + 1)[0] == s[from]);
            }
        }
        lemma_no_underscore(s, from + 1);
    }
}

proof fn lemma_first_underscore(s: Seq<char>, from: int, at: int)
    requires
        0 <= from <= at < s.len(),
        s[at] == '_',
        forall|i: int| from <= i < at ==> #[trigger] s[i] != '_',
    ensures
        spec_find_from(s, seq!['_'], from) == Some(at),
    decreases at - from,
{
    if from < at {
        assert(!spec_occurs_at(s, seq!['_'], from)) by {
            if spec_occurs_at(s, seq!['_'], from) {
                assert(s.subrange(from, from + 1)[0] == s[from]);
            }
        }
        lemma_first_underscore(s, from + 1, at);
    } else {
        assert(s.subrange(at, at + 1) =~= seq!['_']);
    }
}

/// A stored name reads back as the expert it was made for.
pub proof fn lemma_key_roundtrip(layer: usize, expert_id: usize)
    ensures
        spec_parse_key(spec_make_key(layer, expert_id)) == Some(ExpertKey { layer, expert_id }),
{
    reveal_strlit("L");
    reveal_strlit("_E");
    let dl = spec_decimal(layer as nat);
    let de = spec_decimal(expert_id as nat);
    lemma_decimal_digits(layer as nat);
    lemma_decimal_digits(expert_id as nat);
    let k = spec_make_key(layer, expert_id);
    let at: int = dl.len() + 1int;
    assert(k =~= seq!['L'] + dl + seq!['_', 'E'] + de);
    assert(k[at] == '_');
    assert forall|i: int| 0 <= i < at implies #[trigger] k[i] != '_' by {
        if i > 0 {
            assert(k[i] == dl[i - 1]);
        }
    }
    lemma_first_underscore(k, 0, at);
    let a = k.take(at);
    let b = k.skip(at + 1);
    assert(a =~= seq!['L'] + dl);
    assert(b =~= seq!['E'] + de);
    assert forall|i: int| 0 <= i < b.len() implies #[trigger] b[i] != '_' by {
        if i > 0 {
            assert(b[i] == de[i - 1]);
        }
    }
    lemma_no_underscore(b, 0);
    assert(a.skip(1) =~= dl);
    assert(b.skip(1) =~= de);
    assert(dl[0] != '+');
    assert(de[0] != '+');
}

/// Which experts to keep resident in fast memory.
#[derive(Debug, Clone, Copy, PartialEq, Eq, Structural)]
pub enum ExpertPinningStrategy {
    /// The `n` hottest experts of the whole model.
    TopGlobal(usize),
    /// The `n` hottest experts of each layer.
    TopPerLayer(usize),
    /// Nothing is pinned.
    Disabled,
}

/// How many of the hottest experts the per-layer policy looks through.
pub const PER_LAYER_CANDIDATES: usize = 1024;

/// Whether `target` is among the first `k` entries of `ranked`.
pub open spec fn spec_in_top(ranked: Seq<ExpertKey>, k: int, target: ExpertKey) -> bool {
    exists|i: int| 0 <= i < k && i < ranked.len() && ranked[i] == target
}

/// The entries of `ranked` that belong to `layer`, in order.
pub open spec fn spec_of_layer(ranked: Seq<ExpertKey>, layer: usize) -> Seq<ExpertKey> {
    ranked.filter(|x: ExpertKey| x.layer == layer)
}

/// Whether the policy pins expert `expert_id` of `layer`, given every expert ranked from
/// hottest to coldest.
pub open spec fn spec_should_pin(s: ExpertPinningStrategy, ranked: Seq<ExpertKey>, layer: usize, expert_id: usize) -> bool {
    let target = ExpertKey { layer, expert_id };
    match s {
        ExpertPinningStrategy::Disabled => false,
        ExpertPinningStrategy::TopGlobal(k) => spec_in_top(ranked, k as int, target),
        ExpertPinningStrategy::TopPerLayer(k) => spec_in_top(
            spec_of_layer(ranked.take(if ranked.len() < PER_LAYER_CANDIDATES { ranked.len() as int } else { PER_LAYER_CANDIDATES as int }), layer),
            k as int,
            target,
        ),
    }
}

/// Whether the policy pins expert `expert_id` of `layer`; `ranked` lists every expert from
/// hottest to coldest.
pub fn should_pin_expert(strategy: ExpertPinningStrategy, ranked: &[ExpertKey], layer: usize, expert_id: usize) -> (r: bool)
    ensures
        r == spec_should_pin(strategy, ranked@, layer, expert_id),
{
    let target = ExpertKey { layer, expert_id };
    match strategy {
        ExpertPinningStrategy::Disabled => false,
        ExpertPinningStrategy::TopGlobal(k) => {
            let n = ranked.len();
            let mut i: usize = 0;
            while i < k && i < n
                invariant
                    n == ranked@.len(),
                    strategy == ExpertPinningStrategy::TopGlobal(k),
                    target == (ExpertKey { layer, expert_id }),
                    forall|j: int| 0 <= j < i ==> ranked@[j] != target,
                decreases n - i,
            {
                if ranked[i] == target {
                    proof { assert(0 <= i < k && i < ranked@.len() && ranked@[i as int] == target); }
                    return true;
                }
                i += 1;
            }
            false
        },
        ExpertPinningStrategy::TopPerLayer(k) => {
            let n = ranked.len();
            let lim = if n < PER_LAYER_CANDIDATES { n } else { PER_LAYER_CANDIDATES };
            let ghost cand = ranked@.take(lim as int);
            let mut seen: usize = 0;
            let mut i: usize = 0;
            while i < lim && seen < k
                invariant
                    n == ranked@.len(),
                    strategy == ExpertPinningStrategy::TopPerLayer(k),
                    target == (ExpertKey { layer, expert_id }),
                    lim == (if n < PER_LAYER_CANDIDATES { n } else { PER_LAYER_CANDIDATES }),
                    lim <= n,
                    cand == ranked@.take(lim as int),
                    i <= lim,
                    seen == spec_of_layer(cand.take(i as int), layer).len(),
                    forall|j: int| 0 <= j < seen ==> spec_of_layer(cand.take(i as int), layer)[j] != target,
                decreases lim - i,
            {
                proof {
                    assert(cand.take(i + 1) =~= cand.take(i as int).push(cand[i as int]));
                    cand.take(i as int).lemma_filter_push(cand[i as int], |x: ExpertKey| x.layer == layer);
                }
                let x = ranked[i];
                if x.layer == layer {
                    if x == target {
                        proof {
                            let f = spec_of_layer(cand.take(i + 1), layer);
                            assert(f[seen as int] == target);
                            lemma_filter_prefix(cand, layer, i + 1);
                            assert(spec_of_layer(cand, layer)[seen as int] == target);
                            assert(seen < k);
                        }
                        return true;
                    }
                    seen += 1;
                }
                i += 1;
            }
            proof { lemma_layer_scan_done(cand, layer, i as int, k as int, seen as int, target); }
            false
        },
    }
}

proof fn lemma_filter_prefix(cand: Seq<ExpertKey>, layer: usize, m: int)
    requires
        0 <= m <= cand.len(),
    ensures
        spec_of_layer(cand.take(m), layer).len() <= spec_of_layer(cand, layer).len(),
        forall|j: int| 0 <= j < spec_of_layer(cand.take(m), layer).len()
            ==> #[trigger] spec_of_layer(cand.take(m), layer)[j] == spec_of_layer(cand, layer)[j],
    decreases cand.len() - m,
{
    if m < cand.len() {
        lemma_filter_prefix(cand, layer, m + 1);
        assert(cand.take(m + 1) =~= cand.take(m).push(cand[m]));
        cand.take(m).lemma_filter_push(cand[m], |x: ExpertKey| x.layer == layer);
        let f0 = spec_of_layer(cand.take(m), layer);
        let f1 = spec_of_layer(cand.take(m + 1), layer);
        assert forall|j: int| 0 <= j < f0.len() implies #[trigger] f0[j] == spec_of_layer(cand, layer)[j] by {
            assert(f0[j] == f1[j]);
        }
    } else {
        assert(cand.take(m) =~= cand);
    }
}

proof fn lemma_layer_scan_done(cand: Seq<ExpertKey>, layer: usize, i: int, k: int, seen: int, target: ExpertKey)
    requires
        0 <= i <= cand.len(),
        i == cand.len() || seen >= k,
        seen == spec_of_layer(cand.take(i), layer).len(),
        forall|j: int| 0 <= j < seen ==> spec_of_layer(cand.take(i), layer)[j] != target,
    ensures
        !spec_in_top(spec_of_layer(cand, layer), k, target),
{
    lemma_filter_prefix(cand, layer, i);
    if i == cand.len() {
        assert(cand.take(i) =~= cand);
    }
    let f = spec_of_layer(cand, layer);
    let fi = spec_of_layer(cand.take(i), layer);
    assert forall|j: int| 0 <= j < k && j < f.len() implies f[j] != target by {
        if i == cand.len() {
            assert(f[j] == fi[j]);
        } else {
            assert(j < seen);
            assert(fi[j] == f[j]);
        }
    }
}

} // verus!
