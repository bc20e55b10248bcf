//! Assembly of the encoder invocation. Once the replay is over, the ordered
//! frame list becomes one argument list: the encoder command, then for every
//! frame its hold-delay immediately followed by its image path, in display
//! order, then a whole-animation optimization directive and the artifact
//! path. The invocation itself is a process call and happens outside the
//! library.

use vstd::prelude::*;

use crate::coordinator::dir_prefix;
use crate::coordinator::Frame;
use crate::coordinator::SpecFrame;
use crate::text::clone_bytes;
use crate::text::line_views;

verus! {

/// Views of a frame vector.
pub open spec fn frame_views(s: Seq<Frame>) -> Seq<SpecFrame> {
    s.map_values(|f: Frame| f@)
}

/// The encoder command name, as bytes: `convert`.
pub open spec fn convert_token() -> Seq<u8> {
    seq![
        'c' as u8,
        'o' as u8,
        'n' as u8,
        'v' as u8,
        'e' as u8,
        'r' as u8,
        't' as u8,
    ]
}

/// The per-frame delay flag, as bytes: `-delay`.
pub open spec fn delay_flag() -> Seq<u8> {
    seq!['-' as u8, 'd' as u8, 'e' as u8, 'l' as u8, 'a' as u8, 'y' as u8]
}

/// The layer-handling flag, as bytes: `-layers`.
pub open spec fn layers_flag() -> Seq<u8> {
    seq!['-' as u8, 'l' as u8, 'a' as u8, 'y' as u8, 'e' as u8, 'r' as u8, 's' as u8]
}

/// The whole-animation optimization directive, as bytes: `Optimize`.
pub open spec fn optimize_token() -> Seq<u8> {
    seq![
        'O' as u8,
        'p' as u8,
        't' as u8,
        'i' as u8,
        'm' as u8,
        'i' as u8,
        'z' as u8,
        'e' as u8,
    ]
}

/// The final artifact path, as bytes: `output/output.gif`.
pub open spec fn artifact_path() -> Seq<u8> {
    dir_prefix() + seq![
        'o' as u8,
        'u' as u8,
        't' as u8,
        'p' as u8,
        'u' as u8,
        't' as u8,
        '.' as u8,
        'g' as u8,
        'i' as u8,
        'f' as u8,
    ]
}

/// Command tokens contributed by the frames, in display order: for each frame
/// the delay flag, its hold-delay spelling, and its image path.
pub open spec fn spec_frame_tokens(frames: Seq<SpecFrame>) -> Seq<Seq<u8>>
    decreases frames.len(),
{
    if frames.len() == 0 {
        Seq::empty()
    } else {
        spec_frame_tokens(frames.drop_last()) + seq![
            delay_flag(),
            frames.last().delay,
            frames.last().image_path,
        ]
    }
}

/// The whole encoder invocation for a frame list.
pub open spec fn spec_encoder_args(frames: Seq<SpecFrame>) -> Seq<Seq<u8>> {
    seq![convert_token()] + spec_frame_tokens(frames) + seq![
        layers_flag(),
        optimize_token(),
        artifact_path(),
    ]
}

/// Collects the frames of a replay, in display order, and builds the encoder
/// invocation out of them.
pub struct AnimationAssembler {
    /// The ordered frame list; insertion order is display order.
    pub frames: Vec<Frame>,
}

impl AnimationAssembler {
    /// An assembler with no frames yet.
    pub fn new() -> (r: AnimationAssembler)
        ensures
            r.frames@ =~= Seq::<Frame>::empty(),
    {
        AnimationAssembler { frames: Vec::new() }
    }

    /// Appends one captured frame; insertion order is display order.
    pub fn push_frame(&mut self, f: Frame)
        ensures
            final(self).frames@ == old(self).frames@.push(f),
    {
        self.frames.push(f);
    }

    /// Builds the encoder argument list: the command, `-delay <delay> <path>`
    /// per frame in display order, then the optimization directive and the
    /// artifact path.
    pub fn encoder_args(&self) -> (r: Vec<Vec<u8>>)
        ensures
            line_views(r@) == spec_encoder_args(frame_views(self.frames@)),
    {
        let mut r: Vec<Vec<u8>> = Vec::new();
        r.push(tok_convert());
        let n = self.frames.len();
        let mut i: usize = 0;
        proof {
            assert(frame_views(self.frames@.take(0)) =~= Seq::<SpecFrame>::empty());
            assert(line_views(r@) =~= seq![convert_token()].add(
                spec_frame_tokens(frame_views(self.frames@.take(0))),
            ));
        }
        while i < n
            invariant
                i <= n,
                n == self.frames@.len(),
                line_views(r@) == seq![convert_token()].add(
                    spec_frame_tokens(frame_views(self.frames@.take(i as int))),
                ),
            decreases n - i,
        {
            let ghost r0 = r@;
            r.push(tok_delay_flag());
            r.push(clone_bytes(&self.frames[i].delay));
            r.push(clone_bytes(&self.frames[i].image_path));
            i = i + 1;
            proof {
                let prev = frame_views(self.frames@.take(i - 1));
                let f = self.frames@[i - 1]@;
                let fv = frame_views(self.frames@.take(i as int));
                assert(fv =~= prev.push(f));
                assert(prev.push(f).drop_last() =~= prev);
                assert(spec_frame_tokens(prev.push(f)) == spec_frame_tokens(prev).add(
                    seq![delay_flag(), f.delay, f.image_path],
                ));
                assert(line_views(r@) =~= line_views(r0).add(
                    seq![delay_flag(), f.delay, f.image_path],
                ));
                assert(line_views(r@) =~= seq![convert_token()].add(spec_frame_tokens(fv)));
            }
        }
        r.push(tok_layers());
        r.push(tok_optimize());
        r.push(tok_artifact());
        proof {
            assert(self.frames@.take(n as int) =~= self.frames@);
            assert(line_views(r@) =~= spec_encoder_args(frame_views(self.frames@)));
        }
        r
    }
}

/// The encoder command name.
fn tok_convert() -> (r: Vec<u8>)
    ensures
        r@ == convert_token(),
{
    let mut r: Vec<u8> = Vec::new();
    r.push('c' as u8);
    r.push('o' as u8);
    r.push('n' as u8);
    r.push('v' as u8);
    r.push('e' as u8);
    r.push('r' as u8);
    r.push('t' as u8);
    proof {
        assert(r@ =~= convert_token());
    }
    r
}

/// The per-frame delay flag.
fn tok_delay_flag() -> (r: Vec<u8>)
    ensures
        r@ == delay_flag(),
{
    let mut r: Vec<u8> = Vec::new();
    r.push('-' as u8);
    r.push('d' as u8);
    r.push('e' as u8);
    r.push('l' as u8);
    r.push('a' as u8);
    r.push('y' as u8);
    proof {
        assert(r@ =~= delay_flag());
    }
    r
}

/// The layer-handling flag.
fn tok_layers() -> (r: Vec<u8>)
    ensures
        r@ == layers_flag(),
{
    let mut r: Vec<u8> = Vec::new();
    r.push('-' as u8);
    r.push('l' as u8);
    r.push('a' as u8);
    r.push('y' as u8);
    r.push('e' as u8);
    r.push('r' as u8);
    r.push('s' as u8);
    proof {
        assert(r@ =~= layers_flag());
    }
    r
}

/// The optimization directive.
fn tok_optimize() -> (r: Vec<u8>)
    ensures
        r@ == optimize_token(),
{
    let mut r: Vec<u8> = Vec::new();
    r.push('O' as u8);
    r.push('p' as u8);
    r.push('t' as u8);
    r.push('i' as u8);
    r.push('m' as u8);
    r.push('i' as u8);
    r.push('z' as u8);
    r.push('e' as u8);
    proof {
        assert(r@ =~= optimize_token());
    }
    r
}

/// The final artifact path.
fn tok_artifact() -> (r: Vec<u8>)
    ensures
        r@ == artifact_path(),
{
    let mut r: Vec<u8> = Vec::new();
    r.push('o' as u8);
    r.push('u' as u8);
    r.push('t' as u8);
    r.push('p' as u8);
    r.push('u' as u8);
    r.push('t' as u8);
    r.push('/' as u8);
    r.push('o' as u8);
    r.push('u' as u8);
    r.push('t' as u8);
    r.push('p' as u8);
    r.push('u' as u8);
    r.push('t' as u8);
    r.push('.' as u8);
    r.push('g' as u8);
    r.push('i' as u8);
    r.push('f' as u8);
    proof {
        assert(r@ =~= artifact_path());
    }
    r
}

} // verus!
