//! The typed model of a WAV header: sample format, channel mask, sample rate,
//! and the widths derived from them. No I/O happens here.
use vstd::prelude::*;

verus! {

/// How one sample is encoded on disk.
#[derive(Clone, Copy, Debug, PartialEq, Eq, Structural)]
pub enum SampleFormat {
    Int8,
    Int16,
    Int24,
    Float,
}

/// How many of the eighteen canonical speaker positions exist.
pub const CHANNEL_COUNT: usize = 18;

/// Which of the eighteen canonical speaker positions are present, in the
/// canonical ascending bit order of the extensible-format channel mask:
/// front left is bit 0, top back right is bit 17.
#[derive(Clone, Copy, Debug, PartialEq, Eq, Structural)]
pub struct Channels {
    pub front_left: bool,
    pub front_right: bool,
    pub front_center: bool,
    pub low_frequency: bool,
    pub back_left: bool,
    pub back_right: bool,
    pub front_left_of_center: bool,
    pub front_right_of_center: bool,
    pub back_center: bool,
    pub side_left: bool,
    pub side_right: bool,
    pub top_center: bool,
    pub top_front_left: bool,
    pub top_front_center: bool,
    pub top_front_right: bool,
    pub top_back_left: bool,
    pub top_back_center: bool,
    pub top_back_right: bool,
}

impl View for Channels {
    type V = Seq<bool>;

    /// The mask as a sequence of eighteen flags in canonical bit order.
    open spec fn view(&self) -> Seq<bool> {
        seq![
            self.front_left,
            self.front_right,
            self.front_center,
            self.low_frequency,
            self.back_left,
            self.back_right,
            self.front_left_of_center,
            self.front_right_of_center,
            self.back_center,
            self.side_left,
            self.side_right,
            self.top_center,
            self.top_front_left,
            self.top_front_center,
            self.top_front_right,
            self.top_back_left,
            self.top_back_center,
            self.top_back_right,
        ]
    }
}

/// How many flags among the first `n` entries of `mask` are set.
pub open spec fn count_active_prefix(mask: Seq<bool>, n: int) -> nat
    decreases n,
{
    if n <= 0 {
        0
    } else {
        count_active_prefix(mask, n - 1) + (if mask[n - 1] { 1nat } else { 0nat })
    }
}

/// How many channels a mask marks active.
pub open spec fn spec_active_count(mask: Seq<bool>) -> nat {
    count_active_prefix(mask, CHANNEL_COUNT as int)
}

impl Channels {
    /// A mask with every position absent.
    pub fn none() -> (r: Channels)
        ensures
            r@ == Seq::new(CHANNEL_COUNT as nat, |i: int| false),
    {
        let r = Channels {
            front_left: false,
            front_right: false,
            front_center: false,
            low_frequency: false,
            back_left: false,
            back_right: false,
            front_left_of_center: false,
            front_right_of_center: false,
            back_center: false,
            side_left: false,
            side_right: false,
            top_center: false,
            top_front_left: false,
            top_front_center: false,
            top_front_right: false,
            top_back_left: false,
            top_back_center: false,
            top_back_right: false,
        };
        proof {
            assert(r@ =~= Seq::new(CHANNEL_COUNT as nat, |i: int| false));
        }
        r
    }

    /// Whether the channel at canonical position `i` is present.
    pub fn get(&self, i: usize) -> (b: bool)
        requires
            i < CHANNEL_COUNT,
        ensures
            b == self@[i as int],
    {
        match i {
            0 => self.front_left,
            1 => self.front_right,
            2 => self.front_center,
            3 => self.low_frequency,
            4 => self.back_left,
            5 => self.back_right,
            6 => self.front_left_of_center,
            7 => self.front_right_of_center,
            8 => self.back_center,
            9 => self.side_left,
            10 => self.side_right,
            11 => self.top_center,
            12 => self.top_front_left,
            13 => self.top_front_center,
            14 => self.top_front_right,
            15 => self.top_back_left,
            16 => self.top_back_center,
            _ => self.top_back_right,
        }
    }

    /// How many channels are active.
    pub fn active_count(&self) -> (n: usize)
        ensures
            n == spec_active_count(self@),
            n <= CHANNEL_COUNT,
    {
        let mut n: usize = 0;
        let mut i: usize = 0;
        while i < CHANNEL_COUNT
            invariant
                i <= CHANNEL_COUNT,
                n == count_active_prefix(self@, i as int),
                n <= i,
            decreases CHANNEL_COUNT - i,
        {
            if self.get(i) {
                n = n + 1;
            }
            i = i + 1;
        }
        n
    }

    /// Whether at least one channel is active.
    pub fn any_active(&self) -> (b: bool)
        ensures
            b == (spec_active_count(self@) > 0),
    {
        self.active_count() > 0
    }
}

/// The typed WAV header: the on-disk sample encoding, the channel mask, and
/// the sample rate. Immutable once a file handle is opened.
#[derive(Clone, Copy, Debug, PartialEq, Eq, Structural)]
pub struct WavHeader {
    pub sample_format: SampleFormat,
    pub channels: Channels,
    pub sample_rate: u32,
}

impl SampleFormat {
    /// Bits per on-disk sample, derived deterministically from the format.
    pub open spec fn spec_bits_per_sample(self) -> nat {
        match self {
            SampleFormat::Int8 => 8,
            SampleFormat::Int16 => 16,
            SampleFormat::Int24 => 24,
            SampleFormat::Float => 32,
        }
    }

    /// Bytes per on-disk sample unit.
    pub open spec fn spec_unit_width(self) -> nat {
        self.spec_bits_per_sample() / 8
    }

    /// Bits per on-disk sample, derived deterministically from the format.
    pub fn bits_per_sample(&self) -> (n: u16)
        ensures
            n == self.spec_bits_per_sample(),
    {
        match self {
            SampleFormat::Int8 => 8,
            SampleFormat::Int16 => 16,
            SampleFormat::Int24 => 24,
            SampleFormat::Float => 32,
        }
    }

    /// Bytes per on-disk sample unit.
    pub fn unit_width(&self) -> (n: usize)
        ensures
            n == self.spec_unit_width(),
            1 <= n <= 4,
    {
        match self {
            SampleFormat::Int8 => 1,
            SampleFormat::Int16 => 2,
            SampleFormat::Int24 => 3,
            SampleFormat::Float => 4,
        }
    }
}

impl WavHeader {
    /// The header invariant: at least one active channel and a positive
    /// sample rate.
    pub open spec fn wf(self) -> bool {
        &&& spec_active_count(self.channels@) > 0
        &&& self.sample_rate > 0
    }

    /// Bytes per frame: one unit for each active channel.
    pub open spec fn spec_frame_width(self) -> nat {
        spec_active_count(self.channels@) * self.sample_format.spec_unit_width()
    }

    /// Bytes per frame: one unit for each active channel.
    pub fn frame_width(&self) -> (n: usize)
        ensures
            n == self.spec_frame_width(),
            n <= 72,
            self.wf() ==> n >= 1,
    {
        let c = self.channels.active_count();
        let u = self.sample_format.unit_width();
        proof {
            assert(c * u <= 72 && (c >= 1 ==> c * u >= 1)) by (nonlinear_arith)
                requires
                    c <= 18,
                    1 <= u <= 4,
            ;
        }
        c * u
    }

    /// Whether the header meets its invariant.
    pub fn validate(&self) -> (b: bool)
        ensures
            b == self.wf(),
    {
        self.channels.any_active() && self.sample_rate > 0
    }
}

/// The count over a prefix never exceeds the prefix length.
pub proof fn lemma_count_le_len(mask: Seq<bool>, n: int)
    requires
        n >= 0,
    ensures
        count_active_prefix(mask, n) <= n,
    decreases n,
{
    if n > 0 {
        lemma_count_le_len(mask, n - 1);
    }
}

} // verus!
