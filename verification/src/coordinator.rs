//! The frame-capture state machine. For every timing record it decides what
//! the replay must do: on the very first record nothing is shown yet, the
//! chunk is only read and buffered; on every later record the previously
//! buffered chunk is emitted (validated as well-formed text first), a capture
//! of the display is requested under a path named by the current frame index,
//! and the frame index advances. In either case the record's chunk is then
//! read into the buffer, and the record's delay is paced last.

use vstd::prelude::*;

use crate::errors::ReplayError;
use crate::reader::ScriptChunkReader;
use crate::text::clone_bytes;
use crate::timing::SpecTimingRecord;
use crate::timing::TimingRecord;
use crate::utf8::is_utf8;
use crate::utf8::validate_utf8;

verus! {

/// One frame of the final animation.
pub struct SpecFrame {
    /// The delay spelling of the record whose chunk this frame displays.
    pub delay: Seq<u8>,
    /// Path of the captured image, named by the frame index.
    pub image_path: Seq<u8>,
}

/// One frame of the final animation: a captured image path and the decimal
/// delay spelling it is held for, in display order.
#[derive(Debug, PartialEq, Eq)]
pub struct Frame {
    /// The delay field of the record whose chunk this frame displays, exactly
    /// as it was spelled in the timing stream.
    pub delay: Vec<u8>,
    /// Path of the captured image, named by the frame index.
    pub image_path: Vec<u8>,
}

impl View for Frame {
    type V = SpecFrame;

    open spec fn view(&self) -> SpecFrame {
        SpecFrame { delay: self.delay@, image_path: self.image_path@ }
    }
}

/// Decimal digits of `n`, most significant first.
pub open spec fn dec_digits(n: nat) -> Seq<u8>
    decreases n,
{
    if n < 10 {
        seq![(48 + n) as u8]
    } else {
        dec_digits(n / 10).push((48 + n % 10) as u8)
    }
}

/// The directory all artifacts go to, as bytes: `output/`.
pub open spec fn dir_prefix() -> Seq<u8> {
    seq![
        'o' as u8,
        'u' as u8,
        't' as u8,
        'p' as u8,
        'u' as u8,
        't' as u8,
        '/' as u8,
    ]
}

/// The capture image path for a frame index: `output/img-<index>.xwd`.
pub open spec fn spec_image_path(n: nat) -> Seq<u8> {
    dir_prefix() + seq!['i' as u8, 'm' as u8, 'g' as u8, '-' as u8] + dec_digits(n) + seq![
        '.' as u8,
        'x' as u8,
        'w' as u8,
        'd' as u8,
    ]
}

/// The decimal spelling of `n`.
pub fn u64_to_dec(n: u64) -> (r: Vec<u8>)
    ensures
        r@ == dec_digits(n as nat),
    decreases n,
{
    if n < 10 {
        let mut r: Vec<u8> = Vec::new();
        r.push(48 + n as u8);
        proof {
            assert(r@ =~= dec_digits(n as nat));
        }
        r
    } else {
        let mut r = u64_to_dec(n / 10);
        r.push(48 + (n % 10) as u8);
        proof {
            assert(r@ =~= dec_digits(n as nat));
        }
        r
    }
}

/// Builds the capture image path for a frame index.
pub fn image_path(frame_index: u64) -> (r: Vec<u8>)
    ensures
        r@ == spec_image_path(frame_index as nat),
{
    let mut r: Vec<u8> = Vec::new();
    r.push('o' as u8);
    r.push('u' as u8);
    r.push('t' as u8);
    r.push('p' as u8);
    r.push('u' as u8);
    r.push('t' as u8);
    r.push('/' as u8);
    r.push('i' as u8);
    r.push('m' as u8);
    r.push('g' as u8);
    r.push('-' as u8);
    let mut d = u64_to_dec(frame_index);
    r.append(&mut d);
    r.push('.' as u8);
    r.push('x' as u8);
    r.push('w' as u8);
    r.push('d' as u8);
    proof {
        assert(r@ =~= spec_image_path(frame_index as nat));
    }
    r
}

/// The replay state, as the contracts see it.
#[verifier::ext_equal]
pub struct SpecReplayState {
    /// Index the next captured frame will carry.
    pub frame_index: int,
    /// The previously read chunk, pending emission.
    pub pending: Seq<u8>,
    /// Delay spelling of the record whose chunk is pending.
    pub pending_delay: Seq<u8>,
    /// Whether any record has been processed yet.
    pub started: bool,
    /// Position in the typescript stream.
    pub cursor: int,
}

/// What one step asks the surrounding process to do, as the contracts see it.
#[verifier::ext_equal]
pub struct SpecStepOutcome {
    /// Bytes to write and flush before capturing; absent on the first record.
    pub emit: Option<Seq<u8>>,
    /// The frame to capture; absent on the first record.
    pub frame: Option<SpecFrame>,
    /// Whole seconds to pace after buffering the chunk.
    pub delay_secs: int,
    /// Sub-second nanoseconds to pace.
    pub delay_nanos: int,
}

/// Meaning of one iteration of the replay loop over record `rec`: validate
/// and emit the pending chunk (except on the first record), capture a frame
/// named by the current frame index and advance it, then read the record's
/// chunk at the cursor. The emitted text must be well-formed, and the stream
/// must still hold the declared byte count.
pub open spec fn spec_step(
    st: SpecReplayState,
    rec: SpecTimingRecord,
    script: Seq<u8>,
) -> Result<(SpecReplayState, SpecStepOutcome), ReplayError> {
    if st.started && !is_utf8(st.pending) {
        Err(ReplayError::UndecodableOutput)
    } else if st.cursor + rec.byte_count > script.len() {
        Err(ReplayError::TruncatedScript)
    } else {
        let st2 = SpecReplayState {
            frame_index: if st.started {
                st.frame_index + 1
            } else {
                st.frame_index
            },
            pending: script.subrange(st.cursor, st.cursor + rec.byte_count),
            pending_delay: rec.delay_token,
            started: true,
            cursor: st.cursor + rec.byte_count,
        };
        let out = SpecStepOutcome {
            emit: if st.started {
                Some(st.pending)
            } else {
                None
            },
            frame: if st.started {
                Some(
                    SpecFrame {
                        delay: st.pending_delay,
                        image_path: spec_image_path(st.frame_index as nat),
                    },
                )
            } else {
                None
            },
            delay_secs: rec.delay_secs,
            delay_nanos: rec.delay_nanos,
        };
        Ok((st2, out))
    }
}

/// The replay loop's mutable state: a frame counter starting at 1, the
/// pending buffer (owned by the chunk reader), the pending record's delay
/// spelling, and the typescript cursor.
pub struct ReplayState {
    /// Index the next captured frame will carry; starts at 1.
    pub frame_index: u64,
    /// Reader whose reusable buffer holds the previously read chunk.
    pub reader: ScriptChunkReader,
    /// Delay spelling of the record whose chunk is pending.
    pub pending_delay: Vec<u8>,
    /// Whether any record has been processed yet.
    pub started: bool,
    /// Position in the typescript stream.
    pub cursor: usize,
}

impl View for ReplayState {
    type V = SpecReplayState;

    open spec fn view(&self) -> SpecReplayState {
        SpecReplayState {
            frame_index: self.frame_index as int,
            pending: self.reader.buf@,
            pending_delay: self.pending_delay@,
            started: self.started,
            cursor: self.cursor as int,
        }
    }
}

/// What one step asks the surrounding process to do, in order: write and
/// flush `emit`, capture `frame`, and finally pace for the delay.
#[derive(Debug, PartialEq, Eq)]
pub struct StepOutcome {
    /// Bytes to write and flush before capturing; absent on the first record.
    pub emit: Option<Vec<u8>>,
    /// The frame to capture; absent on the first record.
    pub frame: Option<Frame>,
    /// Whole seconds to pace after buffering the chunk.
    pub delay_secs: u64,
    /// Sub-second nanoseconds to pace.
    pub delay_nanos: u32,
}

impl View for StepOutcome {
    type V = SpecStepOutcome;

    open spec fn view(&self) -> SpecStepOutcome {
        SpecStepOutcome {
            emit: match self.emit {
                Some(v) => Some(v@),
                None => None,
            },
            frame: match self.frame {
                Some(f) => Some(f@),
                None => None,
            },
            delay_secs: self.delay_secs as int,
            delay_nanos: self.delay_nanos as int,
        }
    }
}

impl ReplayState {
    /// The state before the first record: frame index 1, nothing pending.
    pub fn new() -> (r: ReplayState)
        ensures
            r@ == (SpecReplayState {
                frame_index: 1,
                pending: Seq::<u8>::empty(),
                pending_delay: Seq::<u8>::empty(),
                started: false,
                cursor: 0,
            }),
    {
        let st = ReplayState {
            frame_index: 1,
            reader: ScriptChunkReader::new(),
            pending_delay: Vec::new(),
            started: false,
            cursor: 0,
        };
        proof {
            assert(st.pending_delay@ =~= Seq::<u8>::empty());
            assert(st@ =~= (SpecReplayState {
                frame_index: 1,
                pending: Seq::<u8>::empty(),
                pending_delay: Seq::<u8>::empty(),
                started: false,
                cursor: 0,
            }));
        }
        st
    }

    /// Runs one iteration of the state machine over `rec`, as `spec_step`
    /// describes; on failure the state is unchanged and the replay is over.
    pub fn step(&mut self, rec: &TimingRecord, script: &Vec<u8>) -> (r: Result<
        StepOutcome,
        ReplayError,
    >)
        requires
            old(self).cursor <= script@.len(),
            old(self).frame_index < u64::MAX,
        ensures
            match r {
                Ok(out) => {
                    &&& spec_step(old(self)@, rec@, script@) == Ok::<_, ReplayError>(
                        (final(self)@, out@),
                    )
                    &&& final(self).cursor <= script@.len()
                    &&& final(self).frame_index <= old(self).frame_index + 1
                },
                Err(e) => {
                    &&& spec_step(old(self)@, rec@, script@) == Err::<
                        (SpecReplayState, SpecStepOutcome),
                        _,
                    >(e)
                    &&& final(self)@ == old(self)@
                },
            },
    {
        let mut emit: Option<Vec<u8>> = None;
        let mut frame: Option<Frame> = None;
        if self.started {
            if !validate_utf8(&self.reader.buf) {
                return Err(ReplayError::UndecodableOutput);
            }
            emit = Some(clone_bytes(&self.reader.buf));
            frame = Some(
                Frame {
                    delay: clone_bytes(&self.pending_delay),
                    image_path: image_path(self.frame_index),
                },
            );
        }
        match self.reader.read_chunk(script, &mut self.cursor, rec.byte_count) {
            Ok(()) => {},
            Err(e) => {
                proof {
                    assert(final(self)@ =~= old(self)@);
                }
                return Err(e);
            },
        }
        if self.started {
            self.frame_index = self.frame_index + 1;
        }
        self.pending_delay = clone_bytes(&rec.delay_token);
        self.started = true;
        let out = StepOutcome {
            emit,
            frame,
            delay_secs: rec.delay_secs,
            delay_nanos: rec.delay_nanos,
        };
        proof {
            let (st2, sout) = spec_step(old(self)@, rec@, script@).unwrap();
            assert(final(self)@ =~= st2);
            assert(out@ =~= sout);
        }
        Ok(out)
    }
}

} // verus!
