//! Frame and animation records of the ACS 2.0 format: each gesture's animation record
//! holds its frames, each frame its image layers, branches and mouth overlays.

use crate::blocks::block_read;
use crate::error::Error;
use crate::model::{
    spec_mouth, spec_return_kind, Animation, Branch, Frame, FrameImage, FrameOverlay,
    MouthOverlay, ReturnKind,
};
use crate::reader::{
    is_eof, lemma_list_fail, lemma_offset_nonneg, sp_bytes, sp_text, sp_u16, sp_u32, sp_u8,
    spec_list, Cursor, StringForm,
};
use vstd::prelude::*;

verus! {

broadcast use lemma_offset_nonneg;

/// A frame as plain values.
pub struct FrameView {
    pub duration: u16,
    pub sound_ndx: i16,
    pub exit_frame: i16,
    pub branching: Seq<Branch>,
    pub images: Seq<FrameImage>,
    pub overlays: Seq<FrameOverlay>,
}

impl View for Frame {
    type V = FrameView;

    open spec fn view(&self) -> FrameView {
        FrameView {
            duration: self.duration,
            sound_ndx: self.sound_ndx,
            exit_frame: self.exit_frame,
            branching: self.branching@,
            images: self.images@,
            overlays: self.overlays@,
        }
    }
}

/// An animation as plain values.
pub struct AnimationView {
    pub name: Seq<char>,
    pub return_kind: ReturnKind,
    pub return_name: Seq<char>,
    pub frames: Seq<FrameView>,
}

impl View for Animation {
    type V = AnimationView;

    open spec fn view(&self) -> AnimationView {
        AnimationView {
            name: self.name@,
            return_kind: self.return_kind,
            return_name: self.return_name@,
            frames: frames_view(self.frames@),
        }
    }
}

/// The views of a list of frames.
pub open spec fn frames_view(v: Seq<Frame>) -> Seq<FrameView> {
    Seq::new(v.len(), |i: int| v[i]@)
}

/// The views of a list of animations.
pub open spec fn animations_view(v: Seq<Animation>) -> Seq<AnimationView> {
    Seq::new(v.len(), |i: int| v[i]@)
}

/// One image layer: `u32` image index, `i16` x and y offsets.
pub open spec fn spec_frame_image(b: Seq<u8>, at: int) -> Option<(FrameImage, int)> {
    match sp_u32(b, at) {
        None => None,
        Some((ndx, p1)) => match sp_u16(b, p1) {
            None => None,
            Some((x, p2)) => match sp_u16(b, p2) {
                None => None,
                Some((y, p3)) => Some((FrameImage { image_ndx: ndx, offset: (x as i16, y as i16) }, p3)),
            },
        },
    }
}

/// One branch: `i16` target frame and `u16` probability.
pub open spec fn spec_branch(b: Seq<u8>, at: int) -> Option<(Branch, int)> {
    match sp_u16(b, at) {
        None => None,
        Some((f, p1)) => match sp_u16(b, p1) {
            None => None,
            Some((prob, p2)) => Some((Branch { frame_ndx: f as i16, probability: prob }, p2)),
        },
    }
}

/// The fixed 14 bytes of a mouth overlay and, when its region flag is set, the skipped
/// `u32`-length-prefixed region data after them.
pub open spec fn spec_overlay(b: Seq<u8>, at: int) -> Option<(FrameOverlay, int)> {
    match sp_bytes(b, at, 14) {
        None => None,
        Some((f, p1)) => {
            let ov = FrameOverlay {
                overlay_type: spec_mouth(f[0]),
                image_ndx: (f[2] + 256 * f[3]) as u16,
                replace: f[1] != 0,
                offset: ((f[6] + 256 * f[7]) as u16 as i16, (f[8] + 256 * f[9]) as u16 as i16),
            };
            if f[5] == 0 {
                Some((ov, p1))
            } else {
                match sp_u32(b, p1) {
                    None => None,
                    Some((n, p2)) => match sp_bytes(b, p2, n as int) {
                        None => None,
                        Some((_r, p3)) => Some((ov, p3)),
                    },
                }
            }
        },
    }
}

/// The tail of a frame after its image layers: sound, duration, exit frame, branches and
/// overlays.
pub open spec fn spec_frame_tail(b: Seq<u8>, at: int, images: Seq<FrameImage>) -> Option<
    (FrameView, int),
> {
    match sp_u16(b, at) {
        None => None,
        Some((sound, p1)) => match sp_u16(b, p1) {
            None => None,
            Some((duration, p2)) => match sp_u16(b, p2) {
                None => None,
                Some((exit, p3)) => match sp_u8(b, p3) {
                    None => None,
                    Some((nb, p4)) => match spec_list(
                        b,
                        p4,
                        nb as nat,
                        |b: Seq<u8>, at: int| spec_branch(b, at),
                    ) {
                        None => None,
                        Some((branching, p5)) => match sp_u8(b, p5) {
                            None => None,
                            Some((no, p6)) => match spec_list(
                                b,
                                p6,
                                no as nat,
                                |b: Seq<u8>, at: int| spec_overlay(b, at),
                            ) {
                                None => None,
                                Some((overlays, p7)) => Some(
                                    (
                                        FrameView {
                                            duration,
                                            sound_ndx: sound as i16,
                                            exit_frame: exit as i16,
                                            branching,
                                            images,
                                            overlays,
                                        },
                                        p7,
                                    ),
                                ),
                            },
                        },
                    },
                },
            },
        },
    }
}

/// A frame record at `at`.
pub open spec fn spec_frame(b: Seq<u8>, at: int) -> Option<(FrameView, int)> {
    match sp_u16(b, at) {
        None => None,
        Some((ni, p1)) => match spec_list(b, p1, ni as nat, |b: Seq<u8>, at: int| spec_frame_image(b, at)) {
            None => None,
            Some((images, p2)) => spec_frame_tail(b, p2, images),
        },
    }
}

/// An animation record at `at`: name, return type, return name and the frames.
pub open spec fn spec_animation(b: Seq<u8>, at: int) -> Option<(AnimationView, int)> {
    match sp_text(b, at, StringForm::Utf16Terminated) {
        None => None,
        Some((name, p1)) => match sp_u8(b, p1) {
            None => None,
            Some((rt, p2)) => match sp_text(b, p2, StringForm::Utf16Terminated) {
                None => None,
                Some((return_name, p3)) => match sp_u16(b, p3) {
                    None => None,
                    Some((nf, p4)) => match spec_list(b, p4, nf as nat, |b: Seq<u8>, at: int| spec_frame(b, at)) {
                        None => None,
                        Some((frames, p5)) => Some(
                            (
                                AnimationView {
                                    name,
                                    return_kind: spec_return_kind(rt),
                                    return_name,
                                    frames,
                                },
                                p5,
                            ),
                        ),
                    },
                },
            },
        },
    }
}

fn read_frame_image(c: &mut Cursor) -> (r: Result<FrameImage, Error>)
    ensures
        block_read(r, old(c), final(c), spec_frame_image(old(c).data(), old(c).offset()), |v: FrameImage| v),
{
    let image_ndx = c.u32()?;
    let x = c.i16()?;
    let y = c.i16()?;
    Ok(FrameImage { image_ndx, offset: (x, y) })
}

fn read_branch(c: &mut Cursor) -> (r: Result<Branch, Error>)
    ensures
        block_read(r, old(c), final(c), spec_branch(old(c).data(), old(c).offset()), |v: Branch| v),
{
    let frame_ndx = c.i16()?;
    let probability = c.u16()?;
    Ok(Branch { frame_ndx, probability })
}

fn read_overlay(c: &mut Cursor) -> (r: Result<FrameOverlay, Error>)
    ensures
        block_read(r, old(c), final(c), spec_overlay(old(c).data(), old(c).offset()), |v: FrameOverlay| v),
{
    let f = c.bytes(14)?;
    let ov = FrameOverlay {
        overlay_type: MouthOverlay::from_u8(f[0]),
        image_ndx: f[2] as u16 + 256 * (f[3] as u16),
        replace: f[1] != 0,
        offset: (
            (f[6] as u16 + 256 * (f[7] as u16)) as i16,
            (f[8] as u16 + 256 * (f[9] as u16)) as i16,
        ),
    };
    if f[5] != 0 {
        let n = c.u32()?;
        c.skip(n as usize)?;
    }
    Ok(ov)
}

/// Read a frame's image layers.
#[verifier::loop_isolation(false)]
fn read_frame_images(c: &mut Cursor, count: u16) -> (r: Result<Vec<FrameImage>, Error>)
    ensures
        block_read(
            r,
            old(c),
            final(c),
            spec_list(old(c).data(), old(c).offset(), count as nat, |b: Seq<u8>, at: int| spec_frame_image(b, at)),
            |v: Vec<FrameImage>| v@,
        ),
{
    let ghost b = c.data();
    let ghost start = c.offset();
    let ghost item = |b: Seq<u8>, at: int| spec_frame_image(b, at);
    let mut out: Vec<FrameImage> = Vec::new();
    let mut i: u16 = 0;
    while i < count
        invariant
            c.data() == b,
            0 <= i <= count,
            spec_list(b, start, i as nat, item) is Some,
            c.offset() == spec_list(b, start, i as nat, item).unwrap().1,
            out@ == spec_list(b, start, i as nat, item).unwrap().0,
        decreases count - i,
    {
        match read_frame_image(c) {
            Ok(x) => out.push(x),
            Err(e) => {
                proof {
                    assert(spec_list(b, start, (i + 1) as nat, item) is None);
                    lemma_list_fail(b, start, (i + 1) as nat, count as nat, item);
                }
                return Err(e);
            },
        }
        i += 1;
    }
    Ok(out)
}

/// Read a frame's branches.
#[verifier::loop_isolation(false)]
pub(crate) fn read_branches(c: &mut Cursor, count: u8) -> (r: Result<Vec<Branch>, Error>)
    ensures
        block_read(
            r,
            old(c),
            final(c),
            spec_list(old(c).data(), old(c).offset(), count as nat, |b: Seq<u8>, at: int| spec_branch(b, at)),
            |v: Vec<Branch>| v@,
        ),
{
    let ghost b = c.data();
    let ghost start = c.offset();
    let ghost item = |b: Seq<u8>, at: int| spec_branch(b, at);
    let mut out: Vec<Branch> = Vec::new();
    let mut i: u8 = 0;
    while i < count
        invariant
            c.data() == b,
            0 <= i <= count,
            spec_list(b, start, i as nat, item) is Some,
            c.offset() == spec_list(b, start, i as nat, item).unwrap().1,
            out@ == spec_list(b, start, i as nat, item).unwrap().0,
        decreases count - i,
    {
        match read_branch(c) {
            Ok(x) => out.push(x),
            Err(e) => {
                proof {
                    assert(spec_list(b, start, (i + 1) as nat, item) is None);
                    lemma_list_fail(b, start, (i + 1) as nat, count as nat, item);
                }
                return Err(e);
            },
        }
        i += 1;
    }
    Ok(out)
}

/// Read a frame's mouth overlays.
#[verifier::loop_isolation(false)]
fn read_overlays(c: &mut Cursor, count: u8) -> (r: Result<Vec<FrameOverlay>, Error>)
    ensures
        block_read(
            r,
            old(c),
            final(c),
            spec_list(old(c).data(), old(c).offset(), count as nat, |b: Seq<u8>, at: int| spec_overlay(b, at)),
            |v: Vec<FrameOverlay>| v@,
        ),
{
    let ghost b = c.data();
    let ghost start = c.offset();
    let ghost item = |b: Seq<u8>, at: int| spec_overlay(b, at);
    let mut out: Vec<FrameOverlay> = Vec::new();
    let mut i: u8 = 0;
    while i < count
        invariant
            c.data() == b,
            0 <= i <= count,
            spec_list(b, start, i as nat, item) is Some,
            c.offset() == spec_list(b, start, i as nat, item).unwrap().1,
            out@ == spec_list(b, start, i as nat, item).unwrap().0,
        decreases count - i,
    {
        match read_overlay(c) {
            Ok(x) => out.push(x),
            Err(e) => {
                proof {
                    assert(spec_list(b, start, (i + 1) as nat, item) is None);
                    lemma_list_fail(b, start, (i + 1) as nat, count as nat, item);
                }
                return Err(e);
            },
        }
        i += 1;
    }
    Ok(out)
}

/// Read one frame record.
#[verifier::rlimit(40)]
pub fn read_frame(c: &mut Cursor) -> (r: Result<Frame, Error>)
    ensures
        block_read(r, old(c), final(c), spec_frame(old(c).data(), old(c).offset()), |v: Frame| v@),
{
    let ni = c.u16()?;
    let images = read_frame_images(c, ni)?;
    let sound_ndx = c.i16()?;
    let duration = c.u16()?;
    let exit_frame = c.i16()?;
    let nb = c.u8()?;
    let branching = read_branches(c, nb)?;
    let no = c.u8()?;
    let overlays = read_overlays(c, no)?;
    Ok(Frame { duration, sound_ndx, exit_frame, branching, images, overlays })
}

/// Read an animation's frames.
#[verifier::loop_isolation(false)]
fn read_frames(c: &mut Cursor, count: u16) -> (r: Result<Vec<Frame>, Error>)
    ensures
        block_read(
            r,
            old(c),
            final(c),
            spec_list(old(c).data(), old(c).offset(), count as nat, |b: Seq<u8>, at: int| spec_frame(b, at)),
            |v: Vec<Frame>| frames_view(v@),
        ),
{
    let ghost b = c.data();
    let ghost start = c.offset();
    let ghost item = |b: Seq<u8>, at: int| spec_frame(b, at);
    let mut out: Vec<Frame> = Vec::new();
    let mut i: u16 = 0;
    while i < count
        invariant
            c.data() == b,
            0 <= i <= count,
            spec_list(b, start, i as nat, item) is Some,
            c.offset() == spec_list(b, start, i as nat, item).unwrap().1,
            frames_view(out@) == spec_list(b, start, i as nat, item).unwrap().0,
        decreases count - i,
    {
        match read_frame(c) {
            Ok(x) => out.push(x),
            Err(e) => {
                proof {
                    assert(spec_list(b, start, (i + 1) as nat, item) is None);
                    lemma_list_fail(b, start, (i + 1) as nat, count as nat, item);
                }
                return Err(e);
            },
        }
        i += 1;
        assert(frames_view(out@) =~= spec_list(b, start, i as nat, item).unwrap().0);
    }
    Ok(out)
}

/// Read one animation record.
pub fn read_animation(c: &mut Cursor) -> (r: Result<Animation, Error>)
    ensures
        block_read(r, old(c), final(c), spec_animation(old(c).data(), old(c).offset()), |v: Animation| v@),
{
    let name = c.string(true)?;
    let rt = c.u8()?;
    let return_name = c.string(true)?;
    let nf = c.u16()?;
    let frames = read_frames(c, nf)?;
    Ok(Animation { name, return_kind: ReturnKind::from_u8(rt), return_name, frames })
}

} // verus!
