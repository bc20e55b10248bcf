//! The replay loop: parse the timing stream line by line and drive the
//! frame-capture state machine over the typescript bytes, accumulating the
//! ordered frame list. `spec_run` is the loop's meaning; `replay` is its
//! verified in-memory run; the general laws of the pipeline are proved of
//! `spec_run` below.

use vstd::prelude::*;

use crate::assembler::frame_views;
use crate::coordinator::spec_step;
use crate::coordinator::Frame;
use crate::coordinator::ReplayState;
use crate::coordinator::SpecFrame;
use crate::coordinator::SpecReplayState;
use crate::errors::ReplayError;
use crate::text::first_index_of;
use crate::text::line_views;
use crate::text::spec_lines;
use crate::text::split_lines;
use crate::timing::lemma_dec_val_nonneg;
use crate::timing::parse_timing_line;
use crate::timing::spec_parse_timing_line;
use crate::timing::valid_timing_line;
use crate::utf8::is_utf8;

verus! {

/// The state before the first record: frame index 1, nothing pending, cursor
/// at the start.
pub open spec fn init_state() -> SpecReplayState {
    SpecReplayState {
        frame_index: 1,
        pending: Seq::<u8>::empty(),
        pending_delay: Seq::<u8>::empty(),
        started: false,
        cursor: 0,
    }
}

/// Meaning of the replay from state `st` over the remaining timing lines:
/// each line must parse, each record is stepped, and every captured frame is
/// appended to `frames`; the first failure ends the run.
pub open spec fn spec_run(
    st: SpecReplayState,
    lines: Seq<Seq<u8>>,
    script: Seq<u8>,
    frames: Seq<SpecFrame>,
) -> Result<(SpecReplayState, Seq<SpecFrame>), ReplayError>
    decreases lines.len(),
{
    if lines.len() == 0 {
        Ok((st, frames))
    } else if !valid_timing_line(lines[0]) {
        Err(ReplayError::MalformedTimingLine)
    } else {
        match spec_step(st, spec_parse_timing_line(lines[0]), script) {
            Err(e) => Err(e),
            Ok((st2, out)) => spec_run(
                st2,
                lines.skip(1),
                script,
                match out.frame {
                    Some(f) => frames.push(f),
                    None => frames,
                },
            ),
        }
    }
}

/// Meaning of the whole replay: the timing stream split into lines, run from
/// the initial state against the typescript bytes that follow the header.
pub open spec fn spec_replay(timing: Seq<u8>, body: Seq<u8>) -> Result<
    (SpecReplayState, Seq<SpecFrame>),
    ReplayError,
> {
    spec_run(init_state(), spec_lines(timing), body, Seq::<SpecFrame>::empty())
}

/// Everything a finished replay hands to the assembler: the ordered frame
/// list and how many typescript bytes the chunks consumed.
#[derive(Debug, PartialEq, Eq)]
pub struct ReplayOutcome {
    /// The captured frames, in display order.
    pub frames: Vec<Frame>,
    /// Typescript bytes consumed; equals the sum of the declared chunk sizes.
    pub bytes_consumed: usize,
}

/// Replays a timing stream against the typescript bytes that follow the
/// header line. Succeeds exactly when `spec_replay` does, and then carries
/// its frames and its final cursor.
pub fn replay(timing: &Vec<u8>, body: &Vec<u8>) -> (r: Result<ReplayOutcome, ReplayError>)
    ensures
        match r {
            Ok(out) => spec_replay(timing@, body@) matches Ok(p) && frame_views(out.frames@)
                == p.1 && out.bytes_consumed == p.0.cursor,
            Err(e) => spec_replay(timing@, body@) matches Err(e2) && e == e2,
        },
{
    let lines = split_lines(timing);
    let n = lines.len();
    let mut st = ReplayState::new();
    let mut frames: Vec<Frame> = Vec::new();
    let mut i: usize = 0;
    proof {
        assert(frame_views(frames@) =~= Seq::<SpecFrame>::empty());
        assert(line_views(lines@).skip(0) =~= line_views(lines@));
    }
    while i < n
        invariant
            i <= n,
            n == lines@.len(),
            line_views(lines@) == spec_lines(timing@),
            st.cursor <= body@.len(),
            st@.frame_index == 1 + frames@.len(),
            st@.started ==> frames@.len() < i,
            !st@.started ==> frames@.len() == 0 && i == 0,
            spec_replay(timing@, body@) == spec_run(
                st@,
                line_views(lines@).skip(i as int),
                body@,
                frame_views(frames@),
            ),
        decreases n - i,
    {
        let ghost rest = line_views(lines@).skip(i as int);
        proof {
            assert(rest.len() == n - i);
            assert(rest[0] == lines@[i as int]@);
            assert(rest.skip(1) =~= line_views(lines@).skip(i + 1));
        }
        let rec = match parse_timing_line(&lines[i]) {
            Ok(rec) => rec,
            Err(e) => {
                return Err(e);
            },
        };
        let ghost st0 = st@;
        let ghost frames0 = frames@;
        let out = match st.step(&rec, body) {
            Ok(out) => out,
            Err(e) => {
                return Err(e);
            },
        };
        match out.frame {
            Some(f) => {
                frames.push(f);
                proof {
                    assert(frame_views(frames@) =~= frame_views(frames0).push(f@));
                }
            },
            None => {},
        }
        i = i + 1;
        proof {
            assert(spec_run(st0, rest, body@, frame_views(frames0)) == spec_run(
                st@,
                rest.skip(1),
                body@,
                frame_views(frames@),
            ));
        }
    }
    proof {
        assert(line_views(lines@).skip(n as int) =~= Seq::<Seq<u8>>::empty());
    }
    Ok(ReplayOutcome { frames, bytes_consumed: st.cursor })
}

/// A successful run over the remaining records appends one frame per record,
/// except that the very first record of a fresh replay appends none: its
/// chunk is only buffered.
pub proof fn lemma_run_frame_count(
    st: SpecReplayState,
    lines: Seq<Seq<u8>>,
    script: Seq<u8>,
    frames: Seq<SpecFrame>,
)
    requires
        spec_run(st, lines, script, frames) is Ok,
    ensures
        spec_run(st, lines, script, frames)->Ok_0.1.len() == frames.len() + lines.len() - (
        if !st.started && lines.len() > 0 {
            1int
        } else {
            0int
        }),
    decreases lines.len(),
{
    if lines.len() > 0 {
        let rec = spec_parse_timing_line(lines[0]);
        let (st2, out) = spec_step(st, rec, script)->Ok_0;
        let frames2 = match out.frame {
            Some(f) => frames.push(f),
            None => frames,
        };
        lemma_run_frame_count(st2, lines.skip(1), script, frames2);
    }
}

/// For a well-formed timing stream of N records the frame list of a
/// successful replay has exactly N - 1 frames (none when the stream is
/// empty): the first record's chunk is buffered but never captured on its
/// own.
pub proof fn lemma_replay_frame_count(timing: Seq<u8>, body: Seq<u8>)
    requires
        spec_replay(timing, body) is Ok,
    ensures
        spec_replay(timing, body)->Ok_0.1.len() == if spec_lines(timing).len() == 0 {
            0int
        } else {
            spec_lines(timing).len() - 1
        },
{
    lemma_run_frame_count(init_state(), spec_lines(timing), body, Seq::<SpecFrame>::empty());
}

/// Sum of the declared chunk byte counts of the records.
pub open spec fn sum_counts(lines: Seq<Seq<u8>>) -> int
    decreases lines.len(),
{
    if lines.len() == 0 {
        0
    } else {
        spec_parse_timing_line(lines[0]).byte_count + sum_counts(lines.skip(1))
    }
}

/// Each record consumes exactly its declared byte count from the typescript,
/// so a successful run advances the cursor by exactly the sum of the declared
/// sizes: never more, never less.
pub proof fn lemma_run_bytes_consumed(
    st: SpecReplayState,
    lines: Seq<Seq<u8>>,
    script: Seq<u8>,
    frames: Seq<SpecFrame>,
)
    requires
        spec_run(st, lines, script, frames) is Ok,
    ensures
        spec_run(st, lines, script, frames)->Ok_0.0.cursor == st.cursor + sum_counts(lines),
    decreases lines.len(),
{
    if lines.len() > 0 {
        let rec = spec_parse_timing_line(lines[0]);
        let (st2, out) = spec_step(st, rec, script)->Ok_0;
        let frames2 = match out.frame {
            Some(f) => frames.push(f),
            None => frames,
        };
        lemma_run_bytes_consumed(st2, lines.skip(1), script, frames2);
    }
}

/// A successful replay consumes exactly the sum of the declared chunk sizes.
pub proof fn lemma_replay_bytes_consumed(timing: Seq<u8>, body: Seq<u8>)
    requires
        spec_replay(timing, body) is Ok,
    ensures
        spec_replay(timing, body)->Ok_0.0.cursor == sum_counts(spec_lines(timing)),
{
    lemma_run_bytes_consumed(init_state(), spec_lines(timing), body, Seq::<SpecFrame>::empty());
}

/// The declared chunk byte count of a well-formed line is non-negative.
proof fn lemma_count_nonneg(l: Seq<u8>)
    requires
        valid_timing_line(l),
    ensures
        spec_parse_timing_line(l).byte_count >= 0,
{
    lemma_dec_val_nonneg(l.skip(first_index_of(l, 32) + 1));
}

/// The summed chunk byte counts of well-formed lines are non-negative.
proof fn lemma_sum_counts_nonneg(lines: Seq<Seq<u8>>)
    requires
        forall|j: int| 0 <= j < lines.len() ==> valid_timing_line(#[trigger] lines[j]),
    ensures
        sum_counts(lines) >= 0,
    decreases lines.len(),
{
    if lines.len() > 0 {
        lemma_count_nonneg(lines[0]);
        assert(forall|j: int|
            0 <= j < lines.skip(1).len() ==> valid_timing_line(#[trigger] lines.skip(1)[j]));
        lemma_sum_counts_nonneg(lines.skip(1));
    }
}

/// Every chunk that fully fits in the typescript is well-formed text.
pub open spec fn chunks_decodable(cursor: int, lines: Seq<Seq<u8>>, script: Seq<u8>) -> bool
    decreases lines.len(),
{
    if lines.len() == 0 {
        true
    } else {
        let c = spec_parse_timing_line(lines[0]).byte_count;
        if cursor + c <= script.len() {
            is_utf8(script.subrange(cursor, cursor + c)) && chunks_decodable(
                cursor + c,
                lines.skip(1),
                script,
            )
        } else {
            true
        }
    }
}

/// A typescript shorter than the summed declared chunk sizes fails the run
/// with a truncated-script error, before any capture is attempted for the
/// under-filled chunk (given well-formed records and decodable chunks, so
/// that no other failure preempts it).
pub proof fn lemma_run_truncated(
    st: SpecReplayState,
    lines: Seq<Seq<u8>>,
    script: Seq<u8>,
    frames: Seq<SpecFrame>,
)
    requires
        forall|j: int| 0 <= j < lines.len() ==> valid_timing_line(#[trigger] lines[j]),
        0 <= st.cursor <= script.len(),
        st.cursor + sum_counts(lines) > script.len(),
        st.started ==> is_utf8(st.pending),
        chunks_decodable(st.cursor, lines, script),
    ensures
        spec_run(st, lines, script, frames) == Err::<(SpecReplayState, Seq<SpecFrame>), _>(
            ReplayError::TruncatedScript,
        ),
    decreases lines.len(),
{
    let rec = spec_parse_timing_line(lines[0]);
    if st.cursor + rec.byte_count > script.len() {
    } else {
        lemma_count_nonneg(lines[0]);
        let (st2, out) = spec_step(st, rec, script)->Ok_0;
        let frames2 = match out.frame {
            Some(f) => frames.push(f),
            None => frames,
        };
        assert(forall|j: int|
            0 <= j < lines.skip(1).len() ==> valid_timing_line(#[trigger] lines.skip(1)[j]));
        lemma_run_truncated(st2, lines.skip(1), script, frames2);
    }
}

/// A typescript shorter than the cumulative declared byte count fails the
/// whole replay with a truncated-script error.
pub proof fn lemma_replay_truncated(timing: Seq<u8>, body: Seq<u8>)
    requires
        forall|j: int|
            0 <= j < spec_lines(timing).len() ==> valid_timing_line(
                #[trigger] spec_lines(timing)[j],
            ),
        sum_counts(spec_lines(timing)) > body.len(),
        chunks_decodable(0, spec_lines(timing), body),
    ensures
        spec_replay(timing, body) == Err::<(SpecReplayState, Seq<SpecFrame>), _>(
            ReplayError::TruncatedScript,
        ),
{
    lemma_run_truncated(init_state(), spec_lines(timing), body, Seq::<SpecFrame>::empty());
}

/// A timing line that is not well-formed fails the run with a malformed-line
/// error, and no capture is requested for it (given that the records before
/// it are well-formed, their chunks fit, and the chunks emitted before it are
/// decodable, so that no other failure preempts it).
pub proof fn lemma_run_malformed(
    st: SpecReplayState,
    lines: Seq<Seq<u8>>,
    script: Seq<u8>,
    frames: Seq<SpecFrame>,
    b: int,
)
    requires
        0 <= b < lines.len(),
        !valid_timing_line(lines[b]),
        forall|j: int| 0 <= j < b ==> valid_timing_line(#[trigger] lines[j]),
        0 <= st.cursor,
        st.cursor + sum_counts(lines.take(b)) <= script.len(),
        b >= 1 && st.started ==> is_utf8(st.pending),
        b >= 2 ==> chunks_decodable(st.cursor, lines.take(b - 1), script),
    ensures
        spec_run(st, lines, script, frames) == Err::<(SpecReplayState, Seq<SpecFrame>), _>(
            ReplayError::MalformedTimingLine,
        ),
    decreases b,
{
    if b == 0 {
    } else {
        let rec = spec_parse_timing_line(lines[0]);
        lemma_count_nonneg(lines[0]);
        assert(lines.take(b)[0] == lines[0]);
        assert(lines.take(b).skip(1) =~= lines.skip(1).take(b - 1));
        assert(forall|j: int|
            0 <= j < b - 1 ==> valid_timing_line(#[trigger] lines.skip(1).take(b - 1)[j]));
        lemma_sum_counts_nonneg(lines.skip(1).take(b - 1));
        assert(sum_counts(lines.take(b)) == rec.byte_count + sum_counts(lines.skip(1).take(b - 1)));
        assert(st.cursor + rec.byte_count <= script.len());
        let (st2, out) = spec_step(st, rec, script)->Ok_0;
        let frames2 = match out.frame {
            Some(f) => frames.push(f),
            None => frames,
        };
        if b >= 2 {
            assert(lines.take(b - 1)[0] == lines[0]);
            assert(lines.take(b - 1).skip(1) =~= lines.skip(1).take(b - 2));
            assert(is_utf8(st2.pending));
        }
        assert(forall|j: int|
            0 <= j < b - 1 ==> valid_timing_line(#[trigger] lines.skip(1)[j]));
        assert(!valid_timing_line(lines.skip(1)[b - 1]));
        lemma_run_malformed(st2, lines.skip(1), script, frames2, b - 1);
    }
}

/// A timing stream whose line `b` is not well-formed fails the whole replay
/// with a malformed-line error.
pub proof fn lemma_replay_malformed(timing: Seq<u8>, body: Seq<u8>, b: int)
    requires
        0 <= b < spec_lines(timing).len(),
        !valid_timing_line(spec_lines(timing)[b]),
        forall|j: int|
            0 <= j < b ==> valid_timing_line(#[trigger] spec_lines(timing)[j]),
        sum_counts(spec_lines(timing).take(b)) <= body.len(),
        b >= 2 ==> chunks_decodable(0, spec_lines(timing).take(b - 1), body),
    ensures
        spec_replay(timing, body) == Err::<(SpecReplayState, Seq<SpecFrame>), _>(
            ReplayError::MalformedTimingLine,
        ),
{
    lemma_run_malformed(init_state(), spec_lines(timing), body, Seq::<SpecFrame>::empty(), b);
}

} // verus!
