//! Checkpoints of the inference state at structural boundaries of agent conversations
//! (turns, thinking blocks, tool calls), so that an edited conversation can resume from the
//! deepest checkpoint whose token prefix it still shares.

use vstd::prelude::*;
use crate::prefix::HybridStateSnapshot;

verus! {

/// Kinds of structural boundaries in agent conversations.
#[derive(Debug, Clone, Copy, PartialEq, Eq, Hash, Structural)]
pub enum SemanticAnchorType {
    TurnSystem,
    TurnUser,
    TurnAssistant,
    ThinkingStart,
    ThinkingEnd,
    ToolCallStart,
    ToolCallEnd,
    ToolResponseStart,
    ToolResponseEnd,
}

/// A state checkpoint at a boundary: the tokens before it and the state after them.
pub struct SemanticAnchor<T> {
    pub anchor_type: SemanticAnchorType,
    pub token_pos: usize,
    pub token_prefix: Vec<u32>,
    pub state: HybridStateSnapshot<T>,
}

/// Default number of anchors kept.
pub const DEFAULT_MAX_SEMANTIC_ANCHORS: usize = 32;

/// Smallest anchor budget a cache is created with.
pub const MIN_SEMANTIC_ANCHORS: usize = 4;

/// Bounded list of anchors, oldest first.
pub struct SemanticAnchorCache<T> {
    pub anchors: Vec<SemanticAnchor<T>>,
    pub max_anchors: usize,
}

/// The anchor's prefix is how `tokens` begins.
pub open spec fn spec_anchor_matches<T>(a: SemanticAnchor<T>, tokens: Seq<u32>) -> bool {
    a.token_pos <= tokens.len() && a.token_prefix@ == tokens.take(a.token_pos as int)
}

/// Index of the deepest matching anchor among `anchors` (the earliest among equally deep
/// ones).
pub open spec fn spec_deepest<T>(anchors: Seq<SemanticAnchor<T>>, tokens: Seq<u32>) -> Option<int>
    decreases anchors.len(),
{
    if anchors.len() == 0 {
        None
    } else {
        let b = spec_deepest(anchors.drop_last(), tokens);
        let i = anchors.len() - 1;
        if spec_anchor_matches(anchors[i], tokens) && (b is None || anchors[i].token_pos
            > anchors[b->0].token_pos) {
            Some(i)
        } else {
            b
        }
    }
}

/// Index of the first anchor at position `pos`.
pub open spec fn spec_anchor_at<T>(anchors: Seq<SemanticAnchor<T>>, pos: int) -> Option<int>
    decreases anchors.len(),
{
    if anchors.len() == 0 {
        None
    } else {
        match spec_anchor_at(anchors.drop_last(), pos) {
            Some(i) => Some(i),
            None => if anchors.last().token_pos == pos {
                Some(anchors.len() - 1)
            } else {
                None
            },
        }
    }
}

proof fn lemma_deepest_bound<T>(anchors: Seq<SemanticAnchor<T>>, tokens: Seq<u32>)
    ensures
        spec_deepest(anchors, tokens) matches Some(i) ==> 0 <= i < anchors.len()
            && spec_anchor_matches(anchors[i], tokens),
    decreases anchors.len(),
{
    if anchors.len() > 0 {
        lemma_deepest_bound(anchors.drop_last(), tokens);
    }
}

proof fn lemma_anchor_at_bound<T>(anchors: Seq<SemanticAnchor<T>>, pos: int)
    ensures
        spec_anchor_at(anchors, pos) matches Some(i) ==> 0 <= i < anchors.len()
            && anchors[i].token_pos == pos,
        spec_anchor_at(anchors, pos) is None ==> forall|j: int| 0 <= j < anchors.len()
            ==> #[trigger] anchors[j].token_pos != pos,
    decreases anchors.len(),
{
    if anchors.len() > 0 {
        lemma_anchor_at_bound(anchors.drop_last(), pos);
        if spec_anchor_at(anchors.drop_last(), pos) is None {
            assert forall|j: int| 0 <= j < anchors.len() - 1 implies #[trigger] anchors[j].token_pos != pos by {
                assert(anchors.drop_last()[j] == anchors[j]);
            }
        }
    }
}

fn tokens_equal(a: &[u32], b: &[u32]) -> (r: bool)
    ensures
        r == (a@ == b@),
{
    if a.len() != b.len() {
        return false;
    }
    let n = a.len();
    for i in 0..n
        invariant
            n == a@.len(),
            n == b@.len(),
            forall|j: int| 0 <= j < i ==> a@[j] == b@[j],
    {
        if a[i] != b[i] {
            return false;
        }
    }
    assert(a@ =~= b@);
    true
}

impl<T> SemanticAnchorCache<T> {
    /// An empty cache keeping at most `max_anchors` anchors (at least 4).
    pub fn new(max_anchors: usize) -> (r: Self)
        ensures
            r.anchors@.len() == 0,
            r.max_anchors == (if max_anchors > MIN_SEMANTIC_ANCHORS { max_anchors } else { MIN_SEMANTIC_ANCHORS }),
    {
        Self {
            anchors: Vec::new(),
            max_anchors: if max_anchors > MIN_SEMANTIC_ANCHORS {
                max_anchors
            } else {
                MIN_SEMANTIC_ANCHORS
            },
        }
    }

    /// Records an anchor: an anchor at the same position is replaced in place; otherwise
    /// the oldest anchor makes room when the budget is reached, and the new one is
    /// appended.
    pub fn insert_anchor(
        &mut self,
        anchor_type: SemanticAnchorType,
        token_pos: usize,
        token_prefix: &[u32],
        state: HybridStateSnapshot<T>,
    )
        requires
            old(self).anchors@.len() > 0 || old(self).max_anchors > 0,
        ensures
            final(self).max_anchors == old(self).max_anchors,
            ({
                let a = final(self).anchors@;
                let o = old(self).anchors@;
                match spec_anchor_at(o, token_pos as int) {
                    Some(i) => {
                        &&& a.len() == o.len()
                        &&& forall|j: int| 0 <= j < o.len() && j != i ==> #[trigger] a[j] == o[j]
                        &&& a[i].anchor_type == anchor_type
                        &&& a[i].token_pos == token_pos
                        &&& a[i].token_prefix@ == token_prefix@
                        &&& a[i].state == state
                    },
                    None => {
                        let base = if o.len() >= old(self).max_anchors {
                            o.drop_first()
                        } else {
                            o
                        };
                        &&& a.len() == base.len() + 1
                        &&& forall|j: int| 0 <= j < base.len() ==> #[trigger] a[j] == base[j]
                        &&& a.last().anchor_type == anchor_type
                        &&& a.last().token_pos == token_pos
                        &&& a.last().token_prefix@ == token_prefix@
                        &&& a.last().state == state
                    },
                }
            }),
    {
        let ghost o = self.anchors@;
        proof {
            lemma_anchor_at_bound(o, token_pos as int);
        }
        let n = self.anchors.len();
        let mut i: usize = 0;
        while i < n
            invariant
                n == self.anchors@.len(),
                self.anchors@ == o,
                o == old(self).anchors@,
                self.max_anchors == old(self).max_anchors,
                o.len() > 0 || self.max_anchors > 0,
                i <= n,
                forall|j: int| 0 <= j < i ==> #[trigger] o[j].token_pos != token_pos,
            decreases n - i,
        {
            if self.anchors[i].token_pos == token_pos {
                proof {
                    assert(spec_anchor_at(o, token_pos as int) == Some(i as int)) by {
                        lemma_anchor_at_first(o, token_pos as int, i as int);
                    }
                }
                let anchor = SemanticAnchor {
                    anchor_type,
                    token_pos,
                    token_prefix: vstd::slice::slice_to_vec(token_prefix),
                    state,
                };
                self.anchors.set(i, anchor);
                return;
            }
            i += 1;
        }
        proof {
            assert(spec_anchor_at(o, token_pos as int) is None) by {
                if spec_anchor_at(o, token_pos as int) is Some {
                    let k = spec_anchor_at(o, token_pos as int)->0;
                    assert(o[k].token_pos == token_pos);
                }
            }
        }
        if self.anchors.len() >= self.max_anchors {
            self.anchors.remove(0);
            assert(self.anchors@ =~= o.drop_first());
        }
        self.anchors.push(
            SemanticAnchor {
                anchor_type,
                token_pos,
                token_prefix: vstd::slice::slice_to_vec(token_prefix),
                state,
            },
        );
    }

    /// The deepest anchor whose prefix begins `tokens` (the earliest of equally deep ones),
    /// with its position.
    pub fn find_deepest_anchor(&self, tokens: &[u32]) -> (r: Option<(usize, &SemanticAnchor<T>)>)
        ensures
            match spec_deepest(self.anchors@, tokens@) {
                None => r is None,
                Some(i) => r matches Some((p, a)) && *a == self.anchors@[i] && p == a.token_pos,
            },
    {
        let mut best: Option<(usize, &SemanticAnchor<T>)> = None;
        let ghost mut best_i: Option<int> = None;
        let n = self.anchors.len();
        for i in 0..n
            invariant
                n == self.anchors@.len(),
                best_i == spec_deepest(self.anchors@.take(i as int), tokens@),
                match best_i {
                    None => best is None,
                    Some(b) => best matches Some((p, a)) && 0 <= b < i && *a == self.anchors@[b] && p
                        == a.token_pos,
                },
        {
            let anchor = &self.anchors[i];
            let ghost pre = self.anchors@.take(i as int);
            proof {
                let t = self.anchors@.take(i + 1);
                assert(t.drop_last() =~= pre);
                lemma_deepest_bound(pre, tokens@);
                match best_i {
                    Some(b) => {
                        assert(pre[b] == self.anchors@[b]);
                    },
                    None => {},
                }
            }
            let pos = anchor.token_pos;
            let matches = pos <= tokens.len() && tokens_equal(&tokens[0..pos], anchor.token_prefix.as_slice());
            proof {
                if pos <= tokens@.len() {
                    assert(tokens@.subrange(0, pos as int) == tokens@.take(pos as int));
                }
            }
            if matches {
                match best {
                    Some((best_pos, _)) => {
                        if pos > best_pos {
                            best = Some((pos, anchor));
                            proof {
                                best_i = Some(i as int);
                            }
                        }
                    },
                    None => {
                        best = Some((pos, anchor));
                        proof {
                            best_i = Some(i as int);
                        }
                    },
                }
            }
        }
        assert(self.anchors@.take(n as int) =~= self.anchors@);
        best
    }

    /// Drops every anchor.
    pub fn clear(&mut self)
        ensures
            final(self).anchors@.len() == 0,
            final(self).max_anchors == old(self).max_anchors,
    {
        self.anchors.clear();
    }

    /// Number of anchors.
    pub fn len(&self) -> (r: usize)
        ensures
            r == self.anchors@.len(),
    {
        self.anchors.len()
    }

    /// Whether there is no anchor.
    pub fn is_empty(&self) -> (r: bool)
        ensures
            r == (self.anchors@.len() == 0),
    {
        self.anchors.len() == 0
    }
}

proof fn lemma_anchor_at_first<T>(anchors: Seq<SemanticAnchor<T>>, pos: int, i: int)
    requires
        0 <= i < anchors.len(),
        anchors[i].token_pos == pos,
        forall|j: int| 0 <= j < i ==> #[trigger] anchors[j].token_pos != pos,
    ensures
        spec_anchor_at(anchors, pos) == Some(i),
    decreases anchors.len(),
{
    if i < anchors.len() - 1 {
        let p = anchors.drop_last();
        assert forall|j: int| 0 <= j < i implies #[trigger] p[j].token_pos != pos by {
            assert(p[j] == anchors[j]);
        }
        lemma_anchor_at_first(p, pos, i);
    } else {
        lemma_anchor_at_bound(anchors.drop_last(), pos);
        if spec_anchor_at(anchors.drop_last(), pos) is Some {
            let k = spec_anchor_at(anchors.drop_last(), pos)->0;
            assert(anchors.drop_last()[k] == anchors[k]);
        }
    }
}

impl<T> Default for SemanticAnchorCache<T> {
    fn default() -> (r: Self)
        ensures
            r.anchors@.len() == 0,
            r.max_anchors == DEFAULT_MAX_SEMANTIC_ANCHORS,
    {
        Self::new(DEFAULT_MAX_SEMANTIC_ANCHORS)
    }
}

/// The lookup never misses a deeper checkpoint: whenever some anchor's prefix begins
/// `tokens`, the lookup finds a matching anchor at least as deep.
pub proof fn lemma_deepest_is_deepest<T>(anchors: Seq<SemanticAnchor<T>>, tokens: Seq<u32>, i: int)
    requires
        0 <= i < anchors.len(),
        spec_anchor_matches(anchors[i], tokens),
    ensures
        spec_deepest(anchors, tokens) matches Some(b) && 0 <= b < anchors.len()
            && spec_anchor_matches(anchors[b], tokens) && anchors[b].token_pos >= anchors[i].token_pos,
    decreases anchors.len(),
{
    let p = anchors.drop_last();
    lemma_deepest_bound(p, tokens);
    lemma_deepest_bound(anchors, tokens);
    if i < anchors.len() - 1 {
        assert(p[i] == anchors[i]);
        lemma_deepest_is_deepest(p, tokens, i);
        let b = spec_deepest(p, tokens)->0;
        assert(p[b] == anchors[b]);
    } else {
        match spec_deepest(p, tokens) {
            Some(b) => {
                assert(p[b] == anchors[b]);
            },
            None => {},
        }
    }
}

} // verus!
