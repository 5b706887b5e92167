//! What the stack carries between chunks.
use crate::mixer;
use crate::mixer::{GdnConfig, GdnState, VALUE_BYTES};
use vstd::prelude::*;

verus! {

/// Which mixer a layer uses.
#[derive(Debug, Clone, Copy, PartialEq, Eq)]
pub enum LayerKind {
    LinearAttention,
    FullAttention,
}

/// What a full-attention layer carries: the keys and values of every position so far.
#[derive(Debug, Clone)]
pub struct AttnState<T> {
    pub k: Vec<T>,
    pub v: Vec<T>,
}

impl<T> AttnState<T> {
    /// How many bytes the state takes.
    pub open spec fn size(self) -> int {
        (self.k.len() + self.v.len()) * VALUE_BYTES
    }

    /// Nothing yet: it grows with the positions.
    pub fn new() -> (r: Self)
        ensures
            r.k@ == Seq::<T>::empty(),
            r.v@ == Seq::<T>::empty(),
    {
        AttnState { k: Vec::new(), v: Vec::new() }
    }

    pub fn bytes(&self) -> (r: usize)
        requires
            self.size() <= usize::MAX,
        ensures
            r == self.size(),
    {
        (self.k.len() + self.v.len()) * VALUE_BYTES
    }
}

/// What one layer carries, according to its kind.
#[derive(Debug, Clone)]
pub enum MixerState<T> {
    LinearAttention(GdnState<T>),
    FullAttention(AttnState<T>),
}

impl<T> MixerState<T> {
    /// How many bytes the state takes.
    pub open spec fn size(self) -> int {
        match self {
            MixerState::LinearAttention(g) => g.size(),
            MixerState::FullAttention(a) => a.size(),
        }
    }

    /// The kind of layer that it belongs to.
    pub open spec fn kind(self) -> LayerKind {
        match self {
            MixerState::LinearAttention(_) => LayerKind::LinearAttention,
            MixerState::FullAttention(_) => LayerKind::FullAttention,
        }
    }
}

/// How many bytes the states of one kind take.
pub open spec fn size_of_kind<T>(states: Seq<MixerState<T>>, kind: LayerKind) -> int
    decreases states.len(),
{
    if states.len() == 0 {
        0
    } else {
        size_of_kind(states.drop_last(), kind) + if states.last().kind() == kind {
            states.last().size()
        } else {
            0
        }
    }
}

/// How many bytes the states take.
pub open spec fn size_of_states<T>(states: Seq<MixerState<T>>) -> int
    decreases states.len(),
{
    if states.len() == 0 {
        0
    } else {
        size_of_states(states.drop_last()) + states.last().size()
    }
}

/// Everything the stack carries between chunks: one mixer state per layer, plus how many
/// positions have been processed.
///
/// The states in here could hardly be more different from each other, and that is the
/// design, not an accident: linear-attention layers keep a fixed-size summary,
/// full-attention layers keep everything.
///
/// `len` is the part that makes decoding *correct* rather than merely fast. It is
/// the absolute position of the next token, and it is what the rotary tables must be built
/// from. Building them from 0 instead leaves every tensor shape intact and rotates every
/// decoded token as though it were the first one.
#[derive(Debug, Clone)]
pub struct Cache<T> {
    /// One entry per layer, in order, each matching its layer's kind.
    pub states: Vec<MixerState<T>>,
    /// Positions processed so far.
    pub len: usize,
}

proof fn lemma_sizes<T>(states: Seq<MixerState<T>>, n: int)
    requires
        0 <= n <= states.len(),
    ensures
        0 <= size_of_states(states.take(n)) <= size_of_states(states),
        0 <= size_of_kind(states.take(n), LayerKind::LinearAttention),
        0 <= size_of_kind(states.take(n), LayerKind::FullAttention),
        size_of_states(states.take(n)) == size_of_kind(
            states.take(n),
            LayerKind::LinearAttention,
        ) + size_of_kind(states.take(n), LayerKind::FullAttention),
    decreases states.len(), n,
{
    if n == states.len() {
        assert(states.take(n) =~= states);
        if n > 0 {
            let shorter = states.drop_last();
            lemma_sizes(shorter, n - 1);
            assert(shorter.take(n - 1) =~= shorter);
        }
    } else {
        let shorter = states.drop_last();
        lemma_sizes(shorter, n);
        assert(shorter.take(n) =~= states.take(n));
    }
}

/// The bytes of a cache are those of its linear and of its full layers.
pub proof fn bytes_split_by_kind<T>(states: Seq<MixerState<T>>)
    ensures
        size_of_states(states) == size_of_kind(states, LayerKind::LinearAttention) + size_of_kind(
            states,
            LayerKind::FullAttention,
        ),
{
    lemma_sizes(states, states.len() as int);
    assert(states.take(states.len() as int) =~= states);
}

/// A cache costs four bytes for each value that a layer keeps, and each layer counts for its own
/// kind: what stands behind one more layer is what stood before it and that layer.
pub proof fn every_layer_counts<T>(states: Seq<MixerState<T>>, s: MixerState<T>, kind: LayerKind)
    ensures
        size_of_states(Seq::<MixerState<T>>::empty()) == 0,
        size_of_kind(Seq::<MixerState<T>>::empty(), kind) == 0,
        size_of_states(states.push(s)) == size_of_states(states) + 4 * match s {
            MixerState::LinearAttention(g) => g.conv.len() + g.ssm.len(),
            MixerState::FullAttention(a) => a.k.len() + a.v.len(),
        },
        size_of_kind(states.push(s), kind) == size_of_kind(states, kind) + 4 * match (s, kind) {
            (MixerState::LinearAttention(g), LayerKind::LinearAttention) => g.conv.len()
                + g.ssm.len(),
            (MixerState::FullAttention(a), LayerKind::FullAttention) => a.k.len() + a.v.len(),
            _ => 0,
        },
{
    assert(states.push(s).drop_last() =~= states);
}

impl<T> Cache<T> {
    pub fn bytes(&self) -> (r: usize)
        requires
            size_of_states(self.states@) <= usize::MAX,
        ensures
            r == size_of_states(self.states@),
    {
        let (linear, full) = self.bytes_by_kind();
        proof {
            bytes_split_by_kind(self.states@);
        }
        linear + full
    }

    /// Bytes split into `(linear, full)`, so the two growth behaviours can be reported
    /// side by side.
    pub fn bytes_by_kind(&self) -> (r: (usize, usize))
        requires
            size_of_states(self.states@) <= usize::MAX,
        ensures
            r.0 == size_of_kind(self.states@, LayerKind::LinearAttention),
            r.1 == size_of_kind(self.states@, LayerKind::FullAttention),
    {
        let ghost s = self.states@;
        let mut linear: usize = 0;
        let mut full: usize = 0;
        let mut i: usize = 0;
        assert(s.take(0) =~= seq![]);
        while i < self.states.len()
            invariant
                i <= self.states.len(),
                s == self.states@,
                size_of_states(s) <= usize::MAX,
                linear == size_of_kind(s.take(i as int), LayerKind::LinearAttention),
                full == size_of_kind(s.take(i as int), LayerKind::FullAttention),
            decreases self.states.len() - i,
        {
            proof {
                assert(s.take(i + 1).drop_last() =~= s.take(i as int));
                assert(s.take(i + 1).last() == s[i as int]);
                lemma_sizes(s, i as int);
                lemma_sizes(s, i + 1);
            }
            match &self.states[i] {
                MixerState::LinearAttention(g) => {
                    linear += g.bytes();
                },
                MixerState::FullAttention(a) => {
                    full += a.bytes();
                },
            }
            i += 1;
        }
        assert(s.take(i as int) =~= s);
        (linear, full)
    }
}

/// Whether a state is what a layer of that kind starts a sequence from: zeros for the linear
/// layers, nothing yet for the full ones.
pub open spec fn is_fresh<T>(
    gdn: GdnConfig,
    b: int,
    zero: T,
    kind: LayerKind,
    state: MixerState<T>,
) -> bool {
    match state {
        MixerState::LinearAttention(g) => {
            &&& kind == LayerKind::LinearAttention
            &&& g.conv@ == Seq::new(mixer::conv_state_len(gdn, b) as nat, |j: int| zero)
            &&& g.ssm@ == Seq::new(mixer::rule_state_len(gdn, b) as nat, |j: int| zero)
        },
        MixerState::FullAttention(a) => {
            &&& kind == LayerKind::FullAttention
            &&& a.k@ == Seq::<T>::empty()
            &&& a.v@ == Seq::<T>::empty()
        },
    }
}

/// Whether states are what layers of those kinds start a sequence from.
pub open spec fn are_fresh<T>(
    gdn: GdnConfig,
    b: int,
    zero: T,
    kinds: Seq<LayerKind>,
    states: Seq<MixerState<T>>,
) -> bool {
    &&& states.len() == kinds.len()
    &&& forall|i: int|
        0 <= i < kinds.len() ==> is_fresh(gdn, b, zero, kinds[i], #[trigger] states[i])
}

impl<T: Copy> Cache<T> {
    /// A cache of zeros, which is what the first chunk of a sequence starts from. The linear
    /// layers' states are allocated up front, the full layers' start empty.
    pub fn new(gdn: &GdnConfig, kinds: &[LayerKind], b: usize, zero: T) -> (r: Self)
        requires
            gdn.channels() <= usize::MAX,
            mixer::conv_state_len(*gdn, b as int) <= usize::MAX,
            mixer::rule_state_len(*gdn, b as int) <= usize::MAX,
        ensures
            r.len == 0,
            are_fresh(*gdn, b as int, zero, kinds@, r.states@),
    {
        let mut states: Vec<MixerState<T>> = Vec::new();
        let mut i: usize = 0;
        while i < kinds.len()
            invariant
                i <= kinds.len(),
                gdn.channels() <= usize::MAX,
                mixer::conv_state_len(*gdn, b as int) <= usize::MAX,
                mixer::rule_state_len(*gdn, b as int) <= usize::MAX,
                states.len() == i,
                forall|j: int|
                    0 <= j < i ==> is_fresh(*gdn, b as int, zero, kinds@[j], #[trigger] states@[j]),
            decreases kinds.len() - i,
        {
            states.push(
                match kinds[i] {
                    LayerKind::LinearAttention => MixerState::LinearAttention(
                        GdnState::new(gdn, b, zero),
                    ),
                    LayerKind::FullAttention => MixerState::FullAttention(AttnState::new()),
                },
            );
            i += 1;
        }
        Cache { states, len: 0 }
    }
}

} // verus!
