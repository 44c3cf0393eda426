//! The channel map: a sparse record with one optional value per canonical
//! speaker position, and the translation between that record and the dense
//! slot order a frame uses on disk (ascending channel-mask bit order).
use vstd::prelude::*;

use crate::header::{count_active_prefix, spec_active_count, Channels, CHANNEL_COUNT};
use crate::WavError;

verus! {

/// One value per canonical speaker position, present only where the caller
/// or the file supplies that channel. Field order is the canonical bit order
/// of the channel mask.
#[derive(Clone, Copy, Debug, PartialEq, Eq)]
pub struct SamplesByChannel<T> {
    pub front_left: Option<T>,
    pub front_right: Option<T>,
    pub front_center: Option<T>,
    pub low_frequency: Option<T>,
    pub back_left: Option<T>,
    pub back_right: Option<T>,
    pub front_left_of_center: Option<T>,
    pub front_right_of_center: Option<T>,
    pub back_center: Option<T>,
    pub side_left: Option<T>,
    pub side_right: Option<T>,
    pub top_center: Option<T>,
    pub top_front_left: Option<T>,
    pub top_front_center: Option<T>,
    pub top_front_right: Option<T>,
    pub top_back_left: Option<T>,
    pub top_back_center: Option<T>,
    pub top_back_right: Option<T>,
}

impl<T> View for SamplesByChannel<T> {
    type V = Seq<Option<T>>;

    /// The record as a sequence of eighteen optional values in canonical
    /// bit order.
    open spec fn view(&self) -> Seq<Option<T>> {
        seq![
            self.front_left,
            self.front_right,
            self.front_center,
            self.low_frequency,
            self.back_left,
            self.back_right,
            self.front_left_of_center,
            self.front_right_of_center,
            self.back_center,
            self.side_left,
            self.side_right,
            self.top_center,
            self.top_front_left,
            self.top_front_center,
            self.top_front_right,
            self.top_back_left,
            self.top_back_center,
            self.top_back_right,
        ]
    }
}

/// The dense slot index of channel `i` inside a frame: how many active
/// channels precede it in canonical order.
pub open spec fn slot_of(mask: Seq<bool>, i: int) -> nat {
    count_active_prefix(mask, i)
}

/// What a sparse record looks like when it holds exactly the dense values
/// `dense` at the channels `mask` marks active, and nothing anywhere else.
pub open spec fn spec_from_dense<T>(dense: Seq<T>, mask: Seq<bool>) -> Seq<Option<T>> {
    Seq::new(
        CHANNEL_COUNT as nat,
        |i: int| if mask[i] { Some(dense[slot_of(mask, i) as int]) } else { None },
    )
}

/// Whether every channel `mask` marks active carries a value in `s`.
pub open spec fn covers_mask<T>(s: Seq<Option<T>>, mask: Seq<bool>) -> bool {
    forall|i: int| 0 <= i < CHANNEL_COUNT && mask[i] ==> s[i] is Some
}

/// The dense slot sequence drawn from a sparse record: for each active
/// channel in canonical order, the value the record holds there.
pub open spec fn spec_to_dense<T>(s: Seq<Option<T>>, mask: Seq<bool>) -> Seq<T> {
    Seq::new(CHANNEL_COUNT as nat, |i: int| i).filter(|i: int| mask[i]).map_values(
        |i: int| s[i]->Some_0,
    )
}

impl<T: Copy> SamplesByChannel<T> {
    /// A record with every position absent.
    pub fn none() -> (r: SamplesByChannel<T>)
        ensures
            r@ == Seq::new(CHANNEL_COUNT as nat, |i: int| None::<T>),
    {
        let r = SamplesByChannel {
            front_left: None,
            front_right: None,
            front_center: None,
            low_frequency: None,
            back_left: None,
            back_right: None,
            front_left_of_center: None,
            front_right_of_center: None,
            back_center: None,
            side_left: None,
            side_right: None,
            top_center: None,
            top_front_left: None,
            top_front_center: None,
            top_front_right: None,
            top_back_left: None,
            top_back_center: None,
            top_back_right: None,
        };
        proof {
            assert(r@ =~= Seq::new(CHANNEL_COUNT as nat, |i: int| None::<T>));
        }
        r
    }

    /// The value at canonical position `i`.
    pub fn get(&self, i: usize) -> (v: Option<T>)
        requires
            i < CHANNEL_COUNT,
        ensures
            v == self@[i as int],
    {
        match i {
            0 => self.front_left,
            1 => self.front_right,
            2 => self.front_center,
            3 => self.low_frequency,
            4 => self.back_left,
            5 => self.back_right,
            6 => self.front_left_of_center,
            7 => self.front_right_of_center,
            8 => self.back_center,
            9 => self.side_left,
            10 => self.side_right,
            11 => self.top_center,
            12 => self.top_front_left,
            13 => self.top_front_center,
            14 => self.top_front_right,
            15 => self.top_back_left,
            16 => self.top_back_center,
            _ => self.top_back_right,
        }
    }
}

/// The dense prefix drawn from the first `n` channels: the values of the
/// active channels among them, in canonical order.
pub open spec fn dense_prefix<T>(s: Seq<Option<T>>, mask: Seq<bool>, n: int) -> Seq<T>
    decreases n,
{
    if n <= 0 {
        Seq::empty()
    } else {
        dense_prefix(s, mask, n - 1) + (if mask[n - 1] {
            seq![s[n - 1]->Some_0]
        } else {
            Seq::empty()
        })
    }
}

/// The dense prefix over all channels is the dense view of the record.
pub proof fn lemma_dense_prefix_full<T>(s: Seq<Option<T>>, mask: Seq<bool>)
    ensures
        dense_prefix(s, mask, CHANNEL_COUNT as int) =~= spec_to_dense(s, mask),
{
    lemma_dense_prefix_filter(s, mask, CHANNEL_COUNT as int);
}

proof fn lemma_dense_prefix_filter<T>(s: Seq<Option<T>>, mask: Seq<bool>, n: int)
    requires
        0 <= n <= CHANNEL_COUNT,
    ensures
        dense_prefix(s, mask, n) =~= Seq::new(n as nat, |i: int| i).filter(
            |i: int| mask[i],
        ).map_values(|i: int| s[i]->Some_0),
        dense_prefix(s, mask, n).len() == count_active_prefix(mask, n),
    decreases n,
{
    let idx = Seq::new(n as nat, |i: int| i);
    let pred = |i: int| mask[i];
    if n == 0 {
        assert(idx =~= Seq::<int>::empty());
        reveal_with_fuel(Seq::filter, 2);
    } else {
        lemma_dense_prefix_filter(s, mask, n - 1);
        let idxp = Seq::new((n - 1) as nat, |i: int| i);
        assert(idx.drop_last() =~= idxp);
        reveal_with_fuel(Seq::filter, 2);
        assert(idx.filter(pred) == if mask[n - 1] {
            idxp.filter(pred).push(n - 1)
        } else {
            idxp.filter(pred)
        });
    }
}

/// The value the dense view holds at the slot of an active channel is the
/// record's value for that channel.
pub proof fn lemma_dense_prefix_slot<T>(s: Seq<Option<T>>, mask: Seq<bool>, n: int, i: int)
    requires
        0 <= i < n,
        mask[i],
    ensures
        slot_of(mask, i) < dense_prefix(s, mask, n).len(),
        dense_prefix(s, mask, n)[slot_of(mask, i) as int] == s[i]->Some_0,
    decreases n,
{
    crate::header::lemma_count_le_len(mask, i);
    lemma_dense_prefix_len(s, mask, n);
    lemma_dense_prefix_len(s, mask, i);
    lemma_count_monotone(mask, i + 1, n);
    if i == n - 1 {
        lemma_dense_prefix_len(s, mask, n - 1);
    } else {
        lemma_dense_prefix_slot(s, mask, n - 1, i);
    }
}

/// The dense prefix over `n` channels has one value per active channel.
pub proof fn lemma_dense_prefix_len<T>(s: Seq<Option<T>>, mask: Seq<bool>, n: int)
    ensures
        dense_prefix(s, mask, n).len() == count_active_prefix(mask, n),
    decreases n,
{
    if n > 0 {
        lemma_dense_prefix_len(s, mask, n - 1);
    }
}

/// Counting over a longer prefix never counts less.
pub proof fn lemma_count_monotone(mask: Seq<bool>, a: int, b: int)
    requires
        a <= b,
    ensures
        count_active_prefix(mask, a) <= count_active_prefix(mask, b),
    decreases b - a,
{
    if a < b {
        lemma_count_monotone(mask, a, b - 1);
    }
}

/// Draws the dense slot sequence out of a sparse record: one value per
/// active channel, in canonical order. Fails with `MissingChannel` exactly
/// when some channel the mask marks active carries no value; values at
/// inactive channels are ignored.
pub fn to_dense<T: Copy>(s: &SamplesByChannel<T>, mask: &Channels) -> (r: Result<
    Vec<T>,
    WavError,
>)
    ensures
        r is Ok <==> covers_mask(s@, mask@),
        r matches Ok(d) ==> d@ == spec_to_dense(s@, mask@),
        r is Err ==> r == Err::<Vec<T>, WavError>(WavError::MissingChannel),
{
    let mut out: Vec<T> = Vec::new();
    let mut i: usize = 0;
    while i < CHANNEL_COUNT
        invariant
            i <= CHANNEL_COUNT,
            out@ =~= dense_prefix(s@, mask@, i as int),
            forall|j: int| 0 <= j < i && mask@[j] ==> s@[j] is Some,
        decreases CHANNEL_COUNT - i,
    {
        if mask.get(i) {
            match s.get(i) {
                Some(v) => out.push(v),
                None => {
                    return Err(WavError::MissingChannel);
                },
            }
        }
        i = i + 1;
    }
    proof {
        lemma_dense_prefix_full(s@, mask@);
    }
    Ok(out)
}

/// Spreads a dense slot sequence into a sparse record: the active channels
/// receive the dense values in canonical order, and every channel absent
/// from the mask stays absent, never zero-filled.
pub fn from_dense<T: Copy>(dense: &Vec<T>, mask: &Channels) -> (r: SamplesByChannel<T>)
    requires
        dense@.len() == spec_active_count(mask@),
    ensures
        r@ == spec_from_dense(dense@, mask@),
{
    let mut out: SamplesByChannel<T> = SamplesByChannel::none();
    let mut i: usize = 0;
    let mut k: usize = 0;
    while i < CHANNEL_COUNT
        invariant
            i <= CHANNEL_COUNT,
            k == count_active_prefix(mask@, i as int),
            k <= i,
            dense@.len() == spec_active_count(mask@),
            out@.len() == CHANNEL_COUNT,
            forall|j: int|
                0 <= j < i ==> out@[j] == (if mask@[j] {
                    Some(dense@[slot_of(mask@, j) as int])
                } else {
                    None::<T>
                }),
            forall|j: int| i <= j < CHANNEL_COUNT ==> out@[j] is None,
        decreases CHANNEL_COUNT - i,
    {
        if mask.get(i) {
            proof {
                lemma_count_monotone(mask@, i + 1 as int, CHANNEL_COUNT as int);
            }
            let v = dense[k];
            out = set_channel(out, i, Some(v));
            k = k + 1;
        } else {
            out = set_channel(out, i, None);
        }
        i = i + 1;
    }
    proof {
        assert(out@ =~= spec_from_dense(dense@, mask@));
    }
    out
}

/// The copy of `s` with the value at canonical position `i` replaced.
#[verifier::rlimit(50)]
pub fn set_channel<T: Copy>(s: SamplesByChannel<T>, i: usize, v: Option<T>) -> (r:
    SamplesByChannel<T>)
    requires
        i < CHANNEL_COUNT,
    ensures
        r@ == s@.update(i as int, v),
{
    let r = SamplesByChannel {
        front_left: if i == 0 { v } else { s.front_left },
        front_right: if i == 1 { v } else { s.front_right },
        front_center: if i == 2 { v } else { s.front_center },
        low_frequency: if i == 3 { v } else { s.low_frequency },
        back_left: if i == 4 { v } else { s.back_left },
        back_right: if i == 5 { v } else { s.back_right },
        front_left_of_center: if i == 6 { v } else { s.front_left_of_center },
        front_right_of_center: if i == 7 { v } else { s.front_right_of_center },
        back_center: if i == 8 { v } else { s.back_center },
        side_left: if i == 9 { v } else { s.side_left },
        side_right: if i == 10 { v } else { s.side_right },
        top_center: if i == 11 { v } else { s.top_center },
        top_front_left: if i == 12 { v } else { s.top_front_left },
        top_front_center: if i == 13 { v } else { s.top_front_center },
        top_front_right: if i == 14 { v } else { s.top_front_right },
        top_back_left: if i == 15 { v } else { s.top_back_left },
        top_back_center: if i == 16 { v } else { s.top_back_center },
        top_back_right: if i == 17 { v } else { s.top_back_right },
    };
    proof {
        assert(r@ =~= s@.update(i as int, v));
    }
    r
}

/// The channel-sparsity law: spreading dense values over a mask populates
/// exactly the active channels — every channel outside the mask is absent —
/// and drawing the dense values back out recovers them unchanged.
pub proof fn lemma_from_dense_sparse<T>(dense: Seq<T>, mask: Seq<bool>)
    requires
        mask.len() == CHANNEL_COUNT,
        dense.len() == spec_active_count(mask),
    ensures
        forall|i: int|
            0 <= i < CHANNEL_COUNT && !mask[i] ==> spec_from_dense(dense, mask)[i] is None,
        covers_mask(spec_from_dense(dense, mask), mask),
        spec_to_dense(spec_from_dense(dense, mask), mask) =~= dense,
{
    let s = spec_from_dense(dense, mask);
    lemma_dense_prefix_full(s, mask);
    lemma_dense_prefix_len(s, mask, CHANNEL_COUNT as int);
    assert forall|k: int| 0 <= k < dense.len() implies spec_to_dense(s, mask)[k] == dense[k] by {
        lemma_slot_surjective(mask, CHANNEL_COUNT as int, k);
        let i = choose|i: int|
            0 <= i < CHANNEL_COUNT && mask[i] && slot_of(mask, i) == k;
        lemma_dense_prefix_slot(s, mask, CHANNEL_COUNT as int, i);
        lemma_dense_prefix_full(s, mask);
    }
}

/// Every slot below the active count is the slot of some active channel.
pub proof fn lemma_slot_surjective(mask: Seq<bool>, n: int, k: int)
    requires
        0 <= k < count_active_prefix(mask, n),
    ensures
        exists|i: int| 0 <= i < n && mask[i] && slot_of(mask, i) == k,
    decreases n,
{
    if n > 0 {
        if mask[n - 1] && count_active_prefix(mask, n - 1) == k {
            assert(mask[n - 1] && slot_of(mask, n - 1) == k);
        } else {
            lemma_slot_surjective(mask, n - 1, k);
            let i = choose|i: int| 0 <= i < n - 1 && mask[i] && slot_of(mask, i) == k;
            assert(mask[i] && slot_of(mask, i) == k);
        }
    }
}

} // verus!
