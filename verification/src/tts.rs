//! The playback side of the text-to-speech service: what to hand the audio
//! codec each time it asks for frames.
//!
//! The synthesizer delivers samples in bursts; the codec asks for frames at
//! its own pace. Between them stands a queue of samples and three decisions:
//! how many frames to hand over, whether to play silence while the
//! synthesizer is still warming up, and when to pause the codec because
//! everything has been played.

use vstd::prelude::*;
use std::collections::VecDeque;

verus! {

/// Speaking rate that the service starts with, in words per minute.
pub const DEFAULT_WPM: u32 = 350;

/// Number of stereo samples in one frame of the codec.
pub const FIFO_DEPTH: usize = 256;

/// The sample that is silence.
pub const ZERO_PCM: u16 = 0;

/// The messages that the synthesizer sends back.
#[derive(Clone, Copy, Debug, PartialEq, Eq, Structural)]
pub enum WaveOp {
    /// A burst of samples.
    Return,
    /// The service is shutting down.
    Quit,
}

impl WaveOp {
    /// The message that the number `id` stands for.
    pub open spec fn spec_from_usize(id: usize) -> Option<WaveOp> {
        if id == 0 {
            Some(WaveOp::Return)
        } else if id == 1 {
            Some(WaveOp::Quit)
        } else {
            None
        }
    }

    /// The message that the number `id` stands for.
    pub fn from_usize(id: usize) -> (op: Option<WaveOp>)
        ensures
            op == Self::spec_from_usize(id),
    {
        if id == 0 {
            Some(WaveOp::Return)
        } else if id == 1 {
            Some(WaveOp::Quit)
        } else {
            None
        }
    }

    /// The number that stands for the message.
    pub fn to_usize(&self) -> (id: usize)
        ensures
            Self::spec_from_usize(id) == Some(*self),
            id == (match *self {
                WaveOp::Return => 0usize,
                WaveOp::Quit => 1usize,
            }),
    {
        match self {
            WaveOp::Return => 0,
            WaveOp::Quit => 1,
        }
    }
}

/// What the synthesizer says of a burst, beside its samples.
#[derive(Clone, Copy, Debug, PartialEq, Eq, Structural)]
pub enum WaveControl {
    /// This burst is the last of the utterance.
    End,
    /// The utterance was cut short: drop what has not been played.
    Abort,
}

/// The state of the playback.
#[derive(Debug)]
pub struct Playback {
    /// Samples received and not yet played.
    pub buffer: VecDeque<u16>,
    /// True when the synthesizer has delivered the whole utterance.
    pub synth_done: bool,
    /// True from the start of an utterance until a full frame is buffered.
    pub just_initiated: bool,
    /// Frames handed to the codec so far, counted modulo 2^32.
    pub frame_count: u32,
    /// The speaking rate, in words per minute.
    pub wpm: u32,
}

/// One mono sample on both channels of a stereo sample.
pub open spec fn stereo(sample: u16) -> u32 {
    sample as u32 | (sample as u32) << 16
}

/// A frame of silence.
pub open spec fn silent_frame() -> Seq<u32> {
    Seq::new(FIFO_DEPTH as nat, |i: int| stereo(ZERO_PCM))
}

/// The frame made of the first samples of `buffer`, with silence where the
/// buffer runs out.
pub open spec fn frame_from(buffer: Seq<u16>) -> Seq<u32> {
    Seq::new(
        FIFO_DEPTH as nat,
        |i: int|
            stereo(
                if i < buffer.len() {
                    buffer[i]
                } else {
                    ZERO_PCM
                },
            ),
    )
}

/// What is left of `buffer` once a frame has been taken from it.
pub open spec fn after_frame(buffer: Seq<u16>) -> Seq<u16> {
    if buffer.len() >= FIFO_DEPTH {
        buffer.subrange(FIFO_DEPTH as int, buffer.len() as int)
    } else {
        Seq::empty()
    }
}

/// True when a frame may be taken: a whole frame is buffered, or the
/// utterance is complete and what is left is played out with silence.
pub open spec fn can_take_frame(buffer: Seq<u16>, synth_done: bool) -> bool {
    buffer.len() >= FIFO_DEPTH || synth_done
}

/// The frames that `count` requests give, and what is left of the buffer.
pub open spec fn spec_fill(buffer: Seq<u16>, synth_done: bool, count: nat) -> (Seq<Seq<u32>>, Seq<u16>)
    decreases count,
{
    if count == 0 || !can_take_frame(buffer, synth_done) {
        (Seq::empty(), buffer)
    } else {
        let rest = spec_fill(after_frame(buffer), synth_done, (count - 1) as nat);
        (seq![frame_from(buffer)] + rest.0, rest.1)
    }
}

/// The number of frames to hand over: what the codec has room for, but no
/// more than the ring can carry.
pub open spec fn spec_frames_to_push(writeable: usize, free_play: usize) -> usize {
    if writeable < free_play {
        writeable
    } else {
        free_play
    }
}

/// The views of the frames in `frames`.
pub open spec fn frame_views(frames: Seq<[u32; 256]>) -> Seq<Seq<u32>> {
    Seq::new(frames.len(), |i: int| frames[i]@)
}

/// Puts one mono sample on both channels.
pub fn duplicate(sample: u16) -> (out: u32)
    ensures
        out == stereo(sample),
{
    let left: u32 = sample as u32;
    let right: u32 = sample as u32;
    right | left << 16
}

impl Playback {
    /// A playback with nothing buffered, at the default rate.
    pub fn new() -> (state: Playback)
        ensures
            state.buffer@ == Seq::<u16>::empty(),
            !state.synth_done,
            !state.just_initiated,
            state.frame_count == 0,
            state.wpm == DEFAULT_WPM,
    {
        Playback {
            buffer: VecDeque::new(),
            synth_done: false,
            just_initiated: false,
            frame_count: 0,
            wpm: DEFAULT_WPM,
        }
    }

    /// Starts a new utterance: whatever is still buffered is dropped, so
    /// that the new utterance cuts the old one short.
    pub fn start_utterance(&mut self)
        ensures
            final(self).buffer@ == Seq::<u16>::empty(),
            !final(self).synth_done,
            final(self).just_initiated,
            final(self).frame_count == old(self).frame_count,
            final(self).wpm == old(self).wpm,
    {
        self.buffer.clear();
        self.synth_done = false;
        self.just_initiated = true;
    }

    /// Sets the speaking rate.
    pub fn set_words_per_minute(&mut self, wpm: u32)
        ensures
            final(self).wpm == wpm,
            final(self).buffer == old(self).buffer,
            final(self).synth_done == old(self).synth_done,
            final(self).just_initiated == old(self).just_initiated,
            final(self).frame_count == old(self).frame_count,
    {
        self.wpm = wpm;
    }

    /// Takes in a burst of samples. The samples are queued; then `End`
    /// marks the utterance complete, `Abort` drops everything queued and
    /// marks it complete, and a burst without control marks it incomplete:
    /// samples may arrive after the end when a new utterance has cut in.
    pub fn take_wave(&mut self, samples: &[u16], control: Option<WaveControl>)
        ensures
            final(self).buffer@ == (if control == Some(WaveControl::Abort) {
                Seq::<u16>::empty()
            } else {
                old(self).buffer@ + samples@
            }),
            final(self).synth_done == (control is Some),
            final(self).just_initiated == old(self).just_initiated,
            final(self).frame_count == old(self).frame_count,
            final(self).wpm == old(self).wpm,
    {
        let mut i: usize = 0;
        while i < samples.len()
            invariant
                0 <= i <= samples@.len(),
                self.buffer@ == old(self).buffer@ + samples@.subrange(0, i as int),
                self.synth_done == old(self).synth_done,
                self.just_initiated == old(self).just_initiated,
                self.frame_count == old(self).frame_count,
                self.wpm == old(self).wpm,
            decreases samples@.len() - i,
        {
            self.buffer.push_back(samples[i]);
            assert(self.buffer@ =~= old(self).buffer@ + samples@.subrange(0, i + 1));
            i += 1;
        }
        assert(samples@.subrange(0, samples@.len() as int) =~= samples@);
        match control {
            Some(WaveControl::End) => {
                self.synth_done = true;
            },
            Some(WaveControl::Abort) => {
                self.buffer.clear();
                self.synth_done = true;
            },
            None => {
                self.synth_done = false;
            },
        }
    }

    /// Takes one frame from the buffer, with silence where it runs out.
    pub fn next_frame(&mut self) -> (frame: [u32; 256])
        ensures
            frame@ == frame_from(old(self).buffer@),
            final(self).buffer@ == after_frame(old(self).buffer@),
            final(self).synth_done == old(self).synth_done,
            final(self).just_initiated == old(self).just_initiated,
            final(self).frame_count == old(self).frame_count,
            final(self).wpm == old(self).wpm,
    {
        let mut frame: [u32; 256] = [0u32; 256];
        let ghost start = self.buffer@;
        let mut i: usize = 0;
        while i < FIFO_DEPTH
            invariant
                0 <= i <= FIFO_DEPTH,
                start == old(self).buffer@,
                self.buffer@ == (if i <= start.len() {
                    start.subrange(i as int, start.len() as int)
                } else {
                    Seq::<u16>::empty()
                }),
                forall|j: int|
                    0 <= j < i ==> frame@[j] == stereo(
                        if j < start.len() {
                            start[j]
                        } else {
                            ZERO_PCM
                        },
                    ),
                self.synth_done == old(self).synth_done,
                self.just_initiated == old(self).just_initiated,
                self.frame_count == old(self).frame_count,
                self.wpm == old(self).wpm,
            decreases FIFO_DEPTH - i,
        {
            let sample: u16 = match self.buffer.pop_front() {
                Some(s) => s,
                None => ZERO_PCM,
            };
            frame[i] = duplicate(sample);
            proof {
                if i < start.len() {
                    assert(self.buffer@ =~= start.subrange(i + 1, start.len() as int));
                } else {
                    assert(self.buffer@ =~= Seq::<u16>::empty());
                }
            }
            i += 1;
        }
        proof {
            assert(frame@ =~= frame_from(start));
            assert(self.buffer@ =~= after_frame(start));
        }
        frame
    }

    /// Answers one request of the codec for frames.
    ///
    /// The codec has room for `free_play` frames and the ring carries
    /// `writeable`; the smaller of the two is the number of frames wanted.
    /// Right after the start of an utterance, while less than one frame is
    /// buffered, that many frames of silence are handed over and nothing
    /// else happens: this keeps the codec fed and the start free of
    /// stutter. Otherwise frames are taken from the buffer as long as a
    /// whole frame is there or the utterance is complete, up to the number
    /// wanted; and the codec is to pause when the buffer is empty and the
    /// utterance complete.
    pub fn on_codec_callback(&mut self, free_play: usize, writeable: usize) -> (out: (
        Vec<[u32; 256]>,
        bool,
    ))
        ensures
            final(self).wpm == old(self).wpm,
            final(self).synth_done == old(self).synth_done,
            final(self).frame_count as int == (old(self).frame_count + (spec_frames_to_push(
                writeable,
                free_play,
            ) as int) % 0x1_0000_0000) % 0x1_0000_0000,
            if old(self).just_initiated && old(self).buffer@.len() < FIFO_DEPTH {
                &&& final(self).just_initiated
                &&& final(self).buffer@ == old(self).buffer@
                &&& out.0@.len() == spec_frames_to_push(writeable, free_play)
                &&& forall|i: int| 0 <= i < out.0@.len() ==> (#[trigger] out.0@[i])@ == silent_frame()
                &&& !out.1
            } else {
                &&& !final(self).just_initiated
                &&& (frame_views(out.0@), final(self).buffer@) == spec_fill(
                    old(self).buffer@,
                    old(self).synth_done,
                    spec_frames_to_push(writeable, free_play) as nat,
                )
                &&& out.1 == (final(self).buffer@.len() == 0 && old(self).synth_done)
            },
    {
        let frames_to_push: usize = if writeable < free_play {
            writeable
        } else {
            free_play
        };
        let wanted: u32 = (frames_to_push as u64 % 0x1_0000_0000) as u32;
        self.frame_count = self.frame_count.wrapping_add(wanted);
        let mut frames: Vec<[u32; 256]> = Vec::new();
        if self.just_initiated {
            if self.buffer.len() < FIFO_DEPTH {
                let silence: u32 = duplicate(ZERO_PCM);
                let mut i: usize = 0;
                while i < frames_to_push
                    invariant
                        0 <= i <= frames_to_push,
                        frames@.len() == i,
                        silence == stereo(ZERO_PCM),
                        forall|j: int| 0 <= j < i ==> (#[trigger] frames@[j])@ == silent_frame(),
                    decreases frames_to_push - i,
                {
                    let frame: [u32; 256] = [silence; 256];
                    assert(frame@ =~= silent_frame());
                    frames.push(frame);
                    i += 1;
                }
                return (frames, false);
            } else {
                self.just_initiated = false;
            }
        }
        let ghost start = self.buffer@;
        let done: bool = self.synth_done;
        let mut i: usize = 0;
        while i < frames_to_push && (self.buffer.len() >= FIFO_DEPTH || done)
            invariant
                0 <= i <= frames_to_push,
                done == self.synth_done,
                done == old(self).synth_done,
                start == old(self).buffer@,
                !self.just_initiated,
                self.wpm == old(self).wpm,
                self.frame_count as int == (old(self).frame_count + (frames_to_push as int)
                    % 0x1_0000_0000) % 0x1_0000_0000,
                frames@.len() == i,
                (
                    frame_views(frames@) + spec_fill(
                        self.buffer@,
                        done,
                        (frames_to_push - i) as nat,
                    ).0,
                    spec_fill(self.buffer@, done, (frames_to_push - i) as nat).1,
                ) == spec_fill(start, done, frames_to_push as nat),
            decreases frames_to_push - i,
        {
            let ghost before = self.buffer@;
            let ghost taken = frame_views(frames@);
            let frame: [u32; 256] = self.next_frame();
            frames.push(frame);
            proof {
                let rest = spec_fill(after_frame(before), done, (frames_to_push - i - 1) as nat);
                assert(frame_views(frames@) =~= taken + seq![frame_from(before)]);
                assert(frame_views(frames@) + rest.0 =~= taken + (seq![frame_from(before)]
                    + rest.0));
            }
            i += 1;
        }
        proof {
            let rest = spec_fill(self.buffer@, done, (frames_to_push - i) as nat);
            assert(rest.0 =~= Seq::<Seq<u32>>::empty());
            assert(frame_views(frames@) + rest.0 =~= frame_views(frames@));
        }
        let pause: bool = self.buffer.len() == 0 && done;
        (frames, pause)
    }
}

} // verus!
