//! Compaction of JSON Schema documents: documentation annotations are dropped,
//! structure is kept.

use vstd::prelude::*;
use crate::text::str_eq;
use serde_json::Value;

verus! {

/// Depth from which nested values are kept exactly as they are.
pub const MAX_SCHEMA_COMPACT_DEPTH: usize = 32;

#[verifier::external_type_specification]
#[verifier::external_body]
pub struct ExJsonNumber(serde_json::Number);

/// A JSON value. Integers are kept as integers and other numbers as the `serde_json`
/// number that was read; object members keep their order.
pub enum JsonNode {
    Null,
    Bool(bool),
    UInt(u64),
    Int(i64),
    Float(serde_json::Number),
    Str(String),
    Array(Vec<JsonNode>),
    Object(Vec<(String, JsonNode)>),
}

/// A JSON value with its text and members taken as sequences.
#[verifier::ext_equal]
pub enum JsonVal {
    Null,
    Bool(bool),
    UInt(u64),
    Int(i64),
    Float(serde_json::Number),
    Str(Seq<char>),
    Array(Seq<JsonVal>),
    Object(Seq<(Seq<char>, JsonVal)>),
}

impl JsonNode {
    /// The value this node stands for.
    pub open spec fn view_node(&self) -> JsonVal
        decreases self,
    {
        match self {
            JsonNode::Null => JsonVal::Null,
            JsonNode::Bool(b) => JsonVal::Bool(*b),
            JsonNode::UInt(n) => JsonVal::UInt(*n),
            JsonNode::Int(n) => JsonVal::Int(*n),
            JsonNode::Float(n) => JsonVal::Float(*n),
            JsonNode::Str(s) => JsonVal::Str(s@),
            JsonNode::Array(v) => JsonVal::Array(Seq::new(v@.len(), |i: int|
                if 0 <= i < v@.len() { v@[i].view_node() } else { JsonVal::Null })),
            JsonNode::Object(m) => JsonVal::Object(Seq::new(m@.len(), |i: int|
                if 0 <= i < m@.len() { (m@[i].0@, m@[i].1.view_node()) } else { (Seq::empty(), JsonVal::Null) })),
        }
    }
}

impl View for JsonNode {
    type V = JsonVal;

    open spec fn view(&self) -> JsonVal {
        self.view_node()
    }
}

/// Whether an object member of this name only documents the schema.
pub open spec fn spec_is_annotation_key(k: Seq<char>) -> bool {
    ||| k == "description"@
    ||| k == "title"@
    ||| k == "$comment"@
    ||| k == "examples"@
    ||| k == "default"@
    ||| k == "$schema"@
}

/// The members that are not annotations, in their order.
pub open spec fn spec_kept_members(m: Seq<(Seq<char>, JsonVal)>) -> Seq<(Seq<char>, JsonVal)>
    decreases m.len(),
{
    if m.len() == 0 {
        Seq::empty()
    } else {
        let prev = spec_kept_members(m.drop_last());
        if spec_is_annotation_key(m.last().0) {
            prev
        } else {
            prev.push(m.last())
        }
    }
}

/// How many levels of nesting are still compacted below `depth`.
pub open spec fn spec_depth_left(depth: nat) -> nat {
    if depth < MAX_SCHEMA_COMPACT_DEPTH {
        (MAX_SCHEMA_COMPACT_DEPTH - depth) as nat
    } else {
        0
    }
}

/// The value at nesting `depth` after compaction: below the depth limit, every object
/// loses its annotation members and every member and element is compacted one level
/// deeper; at the limit and for scalars the value is unchanged.
pub open spec fn spec_compact(v: JsonVal, depth: nat) -> JsonVal
    decreases spec_depth_left(depth),
{
    if depth >= MAX_SCHEMA_COMPACT_DEPTH {
        v
    } else {
        match v {
            JsonVal::Object(m) => {
                let kept = spec_kept_members(m);
                JsonVal::Object(Seq::new(kept.len(), |i: int| (kept[i].0, spec_compact(kept[i].1, depth + 1))))
            },
            JsonVal::Array(a) => JsonVal::Array(Seq::new(a.len(), |i: int| spec_compact(a[i], depth + 1))),
            _ => v,
        }
    }
}

/// The views of a list of object members.
pub open spec fn spec_members_view(m: Seq<(String, JsonNode)>) -> Seq<(Seq<char>, JsonVal)> {
    Seq::new(m.len(), |i: int| (m[i].0@, m[i].1@))
}

/// The views of a list of elements.
pub open spec fn spec_elems_view(a: Seq<JsonNode>) -> Seq<JsonVal> {
    Seq::new(a.len(), |i: int| a[i]@)
}

proof fn lemma_kept_members_are_not_annotations(m: Seq<(Seq<char>, JsonVal)>)
    ensures
        forall|i: int| 0 <= i < spec_kept_members(m).len() ==> !spec_is_annotation_key(#[trigger] spec_kept_members(m)[i].0),
    decreases m.len(),
{
    if m.len() > 0 {
        let prev = spec_kept_members(m.drop_last());
        lemma_kept_members_are_not_annotations(m.drop_last());
        assert forall|i: int| 0 <= i < spec_kept_members(m).len() implies !spec_is_annotation_key(#[trigger] spec_kept_members(m)[i].0) by {
            if i < prev.len() {
                assert(spec_kept_members(m)[i] == prev[i]);
            }
        }
    }
}

/// Below the depth limit, an object comes out of compaction with no annotation member
/// left, and every member it keeps was a member of the input, in the same order.
pub proof fn lemma_compact_drops_annotations(v: JsonVal, depth: nat)
    requires
        depth < MAX_SCHEMA_COMPACT_DEPTH,
        v is Object,
    ensures
        spec_compact(v, depth) is Object,
        forall|i: int| 0 <= i < spec_compact(v, depth)->Object_0.len()
            ==> !spec_is_annotation_key(#[trigger] spec_compact(v, depth)->Object_0[i].0),
        spec_compact(v, depth)->Object_0.len() <= v->Object_0.len(),
{
    let m = v->Object_0;
    lemma_kept_members_are_not_annotations(m);
    lemma_kept_members_shorter(m);
    let r = spec_compact(v, depth);
    assert forall|i: int| 0 <= i < r->Object_0.len() implies !spec_is_annotation_key(#[trigger] r->Object_0[i].0) by {
        assert(r->Object_0[i].0 == spec_kept_members(m)[i].0);
    }
}

proof fn lemma_kept_members_shorter(m: Seq<(Seq<char>, JsonVal)>)
    ensures
        spec_kept_members(m).len() <= m.len(),
    decreases m.len(),
{
    if m.len() > 0 {
        lemma_kept_members_shorter(m.drop_last());
    }
}

/// Whether `k` names a documentation annotation.
fn is_annotation_key(k: &String) -> (r: bool)
    ensures
        r == spec_is_annotation_key(k@),
{
    let s = k.as_str();
    str_eq(s, "description") || str_eq(s, "title") || str_eq(s, "$comment")
        || str_eq(s, "examples") || str_eq(s, "default") || str_eq(s, "$schema")
}

/// Compacts `node`, found at nesting `depth`.
fn compact_bounded(node: JsonNode, depth: usize) -> (r: JsonNode)
    ensures
        r@ == spec_compact(node@, depth as nat),
    decreases spec_depth_left(depth as nat),
{
    if depth >= MAX_SCHEMA_COMPACT_DEPTH {
        return node;
    }
    let ghost nv = node@;
    match node {
        JsonNode::Object(members) => {
            let ghost mv = spec_members_view(members@);
            assert(nv->Object_0 =~= mv);
            assert(nv == JsonVal::Object(mv));
            let n = members.len();
            let mut rest = members;
            let mut out: Vec<(String, JsonNode)> = Vec::new();
            let mut i: usize = 0;
            while rest.len() > 0
                invariant
                    depth < MAX_SCHEMA_COMPACT_DEPTH,
                    i + rest@.len() == n,
                    mv.len() == n,
                    forall|j: int| 0 <= j < rest@.len() ==> (#[trigger] rest@[j]).0@ == mv[i + j].0 && rest@[j].1@ == mv[i + j].1,
                    spec_members_view(out@) == ({
                        let kept = spec_kept_members(mv.take(i as int));
                        Seq::new(kept.len(), |q: int| (kept[q].0, spec_compact(kept[q].1, depth as nat + 1)))
                    }),
                decreases rest@.len(),
            {
                let ghost before = out@;
                let ghost rest_before = rest@;
                let (k, v) = rest.remove(0);
                assert(mv.take(i + 1).drop_last() =~= mv.take(i as int));
                assert(mv.take(i + 1).last() == mv[i as int]);
                if is_annotation_key(&k) {
                } else {
                    let c = compact_bounded(v, depth + 1);
                    out.push((k, c));
                    assert(spec_members_view(out@) =~= spec_members_view(before).push((mv[i as int].0, spec_compact(mv[i as int].1, depth as nat + 1))));
                }
                proof {
                    assert forall|j: int| 0 <= j < rest@.len() implies (#[trigger] rest@[j]).0@ == mv[i + 1 + j].0 && rest@[j].1@ == mv[i + 1 + j].1 by {
                        assert(rest@[j] == rest_before[j + 1]);
                    }
                }
                i = i + 1;
            }
            assert(mv.take(n as int) =~= mv);
            let ghost kept = spec_kept_members(mv);
            assert(spec_members_view(out@) == Seq::new(kept.len(), |q: int| (kept[q].0, spec_compact(kept[q].1, depth as nat + 1))));
            let r = JsonNode::Object(out);
            assert(r@->Object_0 =~= spec_members_view(out@));
            let ghost target = spec_compact(nv, depth as nat);
            assert(target->Object_0.len() == kept.len());
            assert(forall|q: int| 0 <= q < kept.len() ==> #[trigger] target->Object_0[q] == (kept[q].0, spec_compact(kept[q].1, depth as nat + 1)));
            assert(r@->Object_0 =~= target->Object_0);
            r
        },
        JsonNode::Array(elems) => {
            let ghost av = spec_elems_view(elems@);
            assert(nv->Array_0 =~= av);
            assert(nv == JsonVal::Array(av));
            let n = elems.len();
            let mut rest = elems;
            let mut out: Vec<JsonNode> = Vec::new();
            let mut i: usize = 0;
            while rest.len() > 0
                invariant
                    depth < MAX_SCHEMA_COMPACT_DEPTH,
                    i + rest@.len() == n,
                    av.len() == n,
                    out@.len() == i,
                    forall|j: int| 0 <= j < rest@.len() ==> (#[trigger] rest@[j])@ == av[i + j],
                    forall|j: int| 0 <= j < i ==> (#[trigger] out@[j])@ == spec_compact(av[j], depth as nat + 1),
                decreases rest@.len(),
            {
                let ghost rest_before = rest@;
                let e = rest.remove(0);
                let c = compact_bounded(e, depth + 1);
                out.push(c);
                proof {
                    assert forall|j: int| 0 <= j < rest@.len() implies (#[trigger] rest@[j])@ == av[i + 1 + j] by {
                        assert(rest@[j] == rest_before[j + 1]);
                    }
                }
                i = i + 1;
            }
            let r = JsonNode::Array(out);
            let ghost target = spec_compact(nv, depth as nat);
            assert(target->Array_0.len() == n);
            assert(forall|q: int| 0 <= q < n ==> #[trigger] target->Array_0[q] == spec_compact(av[q], depth as nat + 1));
            assert(r@->Array_0 =~= target->Array_0);
            r
        },
        other => other,
    }
}

/// Removes the documentation annotations (`description`, `title`, `$comment`,
/// `examples`, `default`, `$schema`) from every object of a schema, down to
/// `MAX_SCHEMA_COMPACT_DEPTH` levels of nesting; everything else is kept as it was.
pub fn compact_json_schema(schema: JsonNode) -> (r: JsonNode)
    ensures
        r@ == spec_compact(schema@, 0),
{
    compact_bounded(schema, 0)
}

#[verifier::external_type_specification]
#[verifier::external_body]
pub struct ExJsonValue(serde_json::Value);

/// What `serde_json::from_str::<serde_json::Value>` reads from `text`, copied variant by
/// variant (a number that `as_u64` or else `as_i64` reads as an integer, any other number
/// as it is; an object's members in the map's order); `None` when `text` is not JSON.
pub uninterp spec fn spec_json_parse(text: Seq<char>) -> Option<JsonVal>;

/// What `serde_json::to_string` prints for the `serde_json::Value` built from `v` variant
/// by variant (integers through `Value::from`, other numbers as they are); `None` when
/// printing fails.
pub uninterp spec fn spec_json_print(v: JsonVal) -> Option<Seq<char>>;

/// What `serde_json::to_string_pretty` prints for the `serde_json::Value` built from `v`
/// as for [`spec_json_print`]; `None` when printing fails.
pub uninterp spec fn spec_json_print_pretty(v: JsonVal) -> Option<Seq<char>>;

/// Copies a `serde_json` value into a `JsonNode`, one variant for each.
#[verifier::external_body]
fn node_of_value(v: &Value) -> JsonNode {
    match v {
        Value::Null => JsonNode::Null,
        Value::Bool(b) => JsonNode::Bool(*b),
        Value::Number(n) => match (n.as_u64(), n.as_i64()) {
            (Some(u), _) => JsonNode::UInt(u),
            (None, Some(i)) => JsonNode::Int(i),
            (None, None) => JsonNode::Float(n.clone()),
        },
        Value::String(t) => JsonNode::Str(t.clone()),
        Value::Array(a) => JsonNode::Array(a.iter().map(node_of_value).collect()),
        Value::Object(m) => JsonNode::Object(m.iter().map(|(k, x)| (k.clone(), node_of_value(x))).collect()),
    }
}

/// Copies a `JsonNode` into a `serde_json` value, one variant for each.
#[verifier::external_body]
fn value_of_node(n: &JsonNode) -> Value {
    match n {
        JsonNode::Null => Value::Null,
        JsonNode::Bool(b) => Value::Bool(*b),
        JsonNode::UInt(u) => Value::from(*u),
        JsonNode::Int(i) => Value::from(*i),
        JsonNode::Float(x) => Value::Number(x.clone()),
        JsonNode::Str(t) => Value::String(t.clone()),
        JsonNode::Array(a) => Value::Array(a.iter().map(value_of_node).collect()),
        JsonNode::Object(m) => Value::Object(m.iter().map(|(k, x)| (k.clone(), value_of_node(x))).collect()),
    }
}

/// `serde_json::from_str::<serde_json::Value>`, copied into a `JsonNode`; the result is
/// named by [`spec_json_parse`].
#[verifier::external_body]
pub(crate) fn json_parse(text: &str) -> (r: Option<JsonNode>)
    ensures
        match r {
            Some(n) => spec_json_parse(text@) == Some(n@),
            None => spec_json_parse(text@) is None,
        },
{
    serde_json::from_str::<serde_json::Value>(text).ok().map(|v| node_of_value(&v))
}

/// `serde_json::to_string` of the value copied from `n`; the result is named by
/// [`spec_json_print`].
#[verifier::external_body]
fn json_print(n: &JsonNode) -> (r: Option<String>)
    ensures
        match r {
            Some(s) => spec_json_print(n@) == Some(s@),
            None => spec_json_print(n@) is None,
        },
{
    serde_json::to_string(&value_of_node(n)).ok()
}

/// `serde_json::to_string_pretty` of the value copied from `n`; the result is named by
/// [`spec_json_print_pretty`].
#[verifier::external_body]
pub(crate) fn json_print_pretty(n: &JsonNode) -> (r: Option<String>)
    ensures
        match r {
            Some(s) => spec_json_print_pretty(n@) == Some(s@),
            None => spec_json_print_pretty(n@) is None,
        },
{
    serde_json::to_string_pretty(&value_of_node(n)).ok()
}

/// Compacts a JSON Schema text (see [`compact_json_schema`]) into dense JSON; text that is
/// not JSON, or whose compacted form cannot be printed, is returned unchanged.
pub fn compact_json_schema_str(schema_str: &str) -> (r: String)
    ensures
        r@ == (match spec_json_parse(schema_str@) {
            Some(v) => match spec_json_print(spec_compact(v, 0)) {
                Some(s) => s,
                None => schema_str@,
            },
            None => schema_str@,
        }),
{
    match json_parse(schema_str) {
        Some(node) => {
            let compacted = compact_json_schema(node);
            match json_print(&compacted) {
                Some(s) => s,
                None => schema_str.to_string(),
            }
        },
        None => schema_str.to_string(),
    }
}

} // verus!
