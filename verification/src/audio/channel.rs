//! Audio channel modes: stereo, left channel only (accompaniment), right
//! channel only (vocals).

use vstd::prelude::*;

verus! {

/// Which channels of a stereo track are heard.
#[derive(Debug, Clone, Copy, PartialEq, Eq, Structural, Default)]
pub enum AudioChannelMode {
    #[default]
    Stereo,
    LeftOnly,
    RightOnly,
}

/// The mode after `m` in the cycle Stereo, LeftOnly, RightOnly.
pub open spec fn next_channel_mode(m: AudioChannelMode) -> AudioChannelMode {
    match m {
        AudioChannelMode::Stereo => AudioChannelMode::LeftOnly,
        AudioChannelMode::LeftOnly => AudioChannelMode::RightOnly,
        AudioChannelMode::RightOnly => AudioChannelMode::Stereo,
    }
}

impl AudioChannelMode {
    /// The next mode: Stereo, LeftOnly, RightOnly, then Stereo again.
    pub fn cycle(&self) -> (r: Self)
        ensures
            r == next_channel_mode(*self),
    {
        match self {
            AudioChannelMode::Stereo => AudioChannelMode::LeftOnly,
            AudioChannelMode::LeftOnly => AudioChannelMode::RightOnly,
            AudioChannelMode::RightOnly => AudioChannelMode::Stereo,
        }
    }

    /// The button label.
    pub fn label(&self) -> (r: &'static str)
        ensures
            r@ == (match *self {
                AudioChannelMode::Stereo => "🔊 立体声"@,
                AudioChannelMode::LeftOnly => "🎤 左声道"@,
                AudioChannelMode::RightOnly => "🎵 右声道"@,
            }),
    {
        match self {
            AudioChannelMode::Stereo => "🔊 立体声",
            AudioChannelMode::LeftOnly => "🎤 左声道",
            AudioChannelMode::RightOnly => "🎵 右声道",
        }
    }

    /// The button icon.
    pub fn icon(&self) -> (r: &'static str)
        ensures
            r@ == (match *self {
                AudioChannelMode::Stereo => "🔊"@,
                AudioChannelMode::LeftOnly => "🎤"@,
                AudioChannelMode::RightOnly => "🎵"@,
            }),
    {
        match self {
            AudioChannelMode::Stereo => "🔊",
            AudioChannelMode::LeftOnly => "🎤",
            AudioChannelMode::RightOnly => "🎵",
        }
    }

    /// The description, naming the accompaniment and vocal channels.
    pub fn description(&self) -> (r: &'static str)
        ensures
            r@ == (match *self {
                AudioChannelMode::Stereo => "立体声 (双声道原声)"@,
                AudioChannelMode::LeftOnly => "左声道 (伴奏音轨)"@,
                AudioChannelMode::RightOnly => "右声道 (原唱音轨)"@,
            }),
    {
        match self {
            AudioChannelMode::Stereo => "立体声 (双声道原声)",
            AudioChannelMode::LeftOnly => "左声道 (伴奏音轨)",
            AudioChannelMode::RightOnly => "右声道 (原唱音轨)",
        }
    }

    /// Mixes interleaved stereo samples in place: LeftOnly copies each left
    /// sample onto the right one, RightOnly the right onto the left; Stereo
    /// and an odd last sample are left alone.
    pub fn apply_to_interleaved_samples<T: Copy>(&self, samples: &mut [T])
        ensures
            final(samples)@ == mixed_samples(*self, old(samples)@),
    {
        let n = samples.len();
        let pairs = n / 2;
        let mut k: usize = 0;
        match self {
            AudioChannelMode::Stereo => {
                assert(samples@ =~= mixed_samples(*self, old(samples)@));
            },
            AudioChannelMode::LeftOnly => {
                while k < pairs
                    invariant
                        n == old(samples)@.len(),
                        samples@.len() == n,
                        pairs == n / 2,
                        k <= pairs,
                        forall|i: int|
                            0 <= i < n ==> #[trigger] samples@[i] == (if i < 2 * k && i % 2 == 1 {
                                old(samples)@[i - 1]
                            } else {
                                old(samples)@[i]
                            }),
                    decreases pairs - k,
                {
                    let left = samples[2 * k];
                    samples[2 * k + 1] = left;
                    k += 1;
                }
                assert(samples@ =~= mixed_samples(*self, old(samples)@));
            },
            AudioChannelMode::RightOnly => {
                while k < pairs
                    invariant
                        n == old(samples)@.len(),
                        samples@.len() == n,
                        pairs == n / 2,
                        k <= pairs,
                        forall|i: int|
                            0 <= i < n ==> #[trigger] samples@[i] == (if i < 2 * k && i % 2 == 0 {
                                old(samples)@[i + 1]
                            } else {
                                old(samples)@[i]
                            }),
                    decreases pairs - k,
                {
                    let right = samples[2 * k + 1];
                    samples[2 * k] = right;
                    k += 1;
                }
                assert(samples@ =~= mixed_samples(*self, old(samples)@));
            },
        }
    }
}

/// Interleaved stereo samples after mixing in mode `m`: LeftOnly copies each
/// left sample onto the right one, RightOnly the right onto the left; Stereo
/// and an odd last sample are left alone.
pub open spec fn mixed_samples<T>(m: AudioChannelMode, s: Seq<T>) -> Seq<T> {
    Seq::new(
        s.len(),
        |i: int|
            {
                let pair_end = s.len() - s.len() % 2;
                if i >= pair_end {
                    s[i]
                } else {
                    match m {
                        AudioChannelMode::Stereo => s[i],
                        AudioChannelMode::LeftOnly => s[i - i % 2],
                        AudioChannelMode::RightOnly => s[i - i % 2 + 1],
                    }
                }
            },
    )
}

/// Mixing twice in the same mode gives what mixing once gives.
pub proof fn lemma_mix_idempotent<T>(m: AudioChannelMode, s: Seq<T>)
    ensures
        mixed_samples(m, mixed_samples(m, s)) == mixed_samples(m, s),
{
    let once = mixed_samples(m, s);
    let twice = mixed_samples(m, once);
    assert forall|i: int| 0 <= i < s.len() implies #[trigger] twice[i] == once[i] by {
        let pair_end = s.len() - s.len() % 2;
        if i < pair_end {
            assert((i - i % 2) % 2 == 0);
            assert((i - i % 2 + 1) % 2 == 1);
            assert(i - i % 2 + 1 < pair_end);
        }
    }
    assert(twice =~= once);
}

/// Stereo leaves the samples as they are.
pub proof fn lemma_stereo_unchanged<T>(s: Seq<T>)
    ensures
        mixed_samples(AudioChannelMode::Stereo, s) == s,
{
    assert(mixed_samples(AudioChannelMode::Stereo, s) =~= s);
}

/// Three presses of the channel button return to the mode one started from.
pub proof fn lemma_channel_cycle_period(m: AudioChannelMode)
    ensures
        next_channel_mode(next_channel_mode(next_channel_mode(m))) == m,
        next_channel_mode(m) != m,
{
}

} // verus!
