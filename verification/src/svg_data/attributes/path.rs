//! The `d` attribute: a list of path segments, normalised so that the first
//! segment is one absolute move and every later segment is relative.

use vstd::prelude::*;

use crate::errors::SvgError;
use crate::number::SCALE;
use crate::number::fixed_str;
use crate::number::parse_fixed;
use crate::number::print_fixed;
use crate::text::string_from_chars;
use crate::tokens::is_alpha;
use crate::tokens::split_tokens;

verus! {

/// One path segment; coordinates are scaled by `10^8` (see
/// [`crate::number`]).
#[derive(Debug, Clone, Copy, PartialEq, Eq, Structural)]
pub enum PathSeg {
    MoveTo { abs: bool, x: i64, y: i64 },
    LineTo { abs: bool, x: i64, y: i64 },
    HorizontalLineTo { abs: bool, x: i64 },
    VerticalLineTo { abs: bool, y: i64 },
    CurveTo { abs: bool, x1: i64, y1: i64, x2: i64, y2: i64, x: i64, y: i64 },
    SmoothCurveTo { abs: bool, x2: i64, y2: i64, x: i64, y: i64 },
    Quadratic { abs: bool, x1: i64, y1: i64, x: i64, y: i64 },
    SmoothQuadratic { abs: bool, x: i64, y: i64 },
    EllipticalArc {
        abs: bool,
        rx: i64,
        ry: i64,
        x_axis_rotation: i64,
        large_arc: bool,
        sweep: bool,
        x: i64,
        y: i64,
    },
    ClosePath { abs: bool },
}

/// Whether a segment is marked absolute.
pub open spec fn seg_abs(s: PathSeg) -> bool {
    match s {
        PathSeg::MoveTo { abs, .. } => abs,
        PathSeg::LineTo { abs, .. } => abs,
        PathSeg::HorizontalLineTo { abs, .. } => abs,
        PathSeg::VerticalLineTo { abs, .. } => abs,
        PathSeg::CurveTo { abs, .. } => abs,
        PathSeg::SmoothCurveTo { abs, .. } => abs,
        PathSeg::Quadratic { abs, .. } => abs,
        PathSeg::SmoothQuadratic { abs, .. } => abs,
        PathSeg::EllipticalArc { abs, .. } => abs,
        PathSeg::ClosePath { abs, .. } => abs,
    }
}

/// One normalisation step: the segment rewritten relative to the pen
/// position `(px, py)`, and the pen position after it.  Differences are
/// taken over the unbounded integers; [`rel_step_ok`] says when they fit.
pub open spec fn rel_step(s: PathSeg, px: int, py: int) -> (PathSeg, (int, int)) {
    match s {
        PathSeg::MoveTo { abs, x, y } => if abs {
            (PathSeg::MoveTo { abs: false, x: (x - px) as i64, y: (y - py) as i64 }, (
                x as int,
                y as int,
            ))
        } else {
            (s, (px + x, py + y))
        },
        PathSeg::LineTo { abs, x, y } => if abs {
            (PathSeg::LineTo { abs: false, x: (x - px) as i64, y: (y - py) as i64 }, (
                x as int,
                y as int,
            ))
        } else {
            (s, (px + x, py + y))
        },
        PathSeg::HorizontalLineTo { abs, x } => if abs {
            (PathSeg::HorizontalLineTo { abs: false, x: (x - px) as i64 }, (x as int, py))
        } else {
            (s, (px + x, py))
        },
        PathSeg::VerticalLineTo { abs, y } => if abs {
            (PathSeg::VerticalLineTo { abs: false, y: (y - py) as i64 }, (px, y as int))
        } else {
            (s, (px, py + y))
        },
        PathSeg::CurveTo { abs, x1, y1, x2, y2, x, y } => if abs {
            (
                PathSeg::CurveTo {
                    abs: false,
                    x1: (x1 - px) as i64,
                    y1: (y1 - py) as i64,
                    x2: (x2 - px) as i64,
                    y2: (y2 - py) as i64,
                    x: (x - px) as i64,
                    y: (y - py) as i64,
                },
                (x as int, y as int),
            )
        } else {
            (s, (px + x, py + y))
        },
        PathSeg::SmoothCurveTo { abs, x2, y2, x, y } => if abs {
            (
                PathSeg::SmoothCurveTo {
                    abs: false,
                    x2: (x2 - px) as i64,
                    y2: (y2 - py) as i64,
                    x: (x - px) as i64,
                    y: (y - py) as i64,
                },
                (x as int, y as int),
            )
        } else {
            (s, (px + x, py + y))
        },
        PathSeg::Quadratic { abs, x1, y1, x, y } => if abs {
            (
                PathSeg::Quadratic {
                    abs: false,
                    x1: (x1 - px) as i64,
                    y1: (y1 - py) as i64,
                    x: (x - px) as i64,
                    y: (y - py) as i64,
                },
                (x as int, y as int),
            )
        } else {
            (s, (px + x, py + y))
        },
        PathSeg::SmoothQuadratic { abs, x, y } => if abs {
            (PathSeg::SmoothQuadratic { abs: false, x: (x - px) as i64, y: (y - py) as i64 }, (
                x as int,
                y as int,
            ))
        } else {
            (s, (px + x, py + y))
        },
        PathSeg::EllipticalArc { abs, rx, ry, x_axis_rotation, large_arc, sweep, x, y } => if abs {
            // the radii are lengths, not positions: only the end point is
            // made relative to the pen
            (
                PathSeg::EllipticalArc {
                    abs: false,
                    rx,
                    ry,
                    x_axis_rotation,
                    large_arc,
                    sweep,
                    x: (x - px) as i64,
                    y: (y - py) as i64,
                },
                (x as int, y as int),
            )
        } else {
            (s, (px + x, py + y))
        },
        PathSeg::ClosePath { abs } => (PathSeg::ClosePath { abs: false }, (px, py)),
    }
}

/// Whether every difference and position taken in [`rel_step`] fits the
/// storable range.
pub open spec fn rel_step_ok(s: PathSeg, px: int, py: int) -> bool {
    let (r, p) = rel_step(s, px, py);
    &&& crate::number::fits_fixed(p.0)
    &&& crate::number::fits_fixed(p.1)
    &&& match s {
        PathSeg::MoveTo { abs: true, x, y } => crate::number::fits_fixed(x - px)
            && crate::number::fits_fixed(y - py),
        PathSeg::LineTo { abs: true, x, y } => crate::number::fits_fixed(x - px)
            && crate::number::fits_fixed(y - py),
        PathSeg::HorizontalLineTo { abs: true, x } => crate::number::fits_fixed(x - px),
        PathSeg::VerticalLineTo { abs: true, y } => crate::number::fits_fixed(y - py),
        PathSeg::CurveTo { abs: true, x1, y1, x2, y2, x, y } => crate::number::fits_fixed(x1 - px)
            && crate::number::fits_fixed(y1 - py) && crate::number::fits_fixed(x2 - px)
            && crate::number::fits_fixed(y2 - py) && crate::number::fits_fixed(x - px)
            && crate::number::fits_fixed(y - py),
        PathSeg::SmoothCurveTo { abs: true, x2, y2, x, y } => crate::number::fits_fixed(x2 - px)
            && crate::number::fits_fixed(y2 - py) && crate::number::fits_fixed(x - px)
            && crate::number::fits_fixed(y - py),
        PathSeg::Quadratic { abs: true, x1, y1, x, y } => crate::number::fits_fixed(x1 - px)
            && crate::number::fits_fixed(y1 - py) && crate::number::fits_fixed(x - px)
            && crate::number::fits_fixed(y - py),
        PathSeg::SmoothQuadratic { abs: true, x, y } => crate::number::fits_fixed(x - px)
            && crate::number::fits_fixed(y - py),
        PathSeg::EllipticalArc { abs: true, x, y, .. } => crate::number::fits_fixed(x - px)
            && crate::number::fits_fixed(y - py),
        _ => true,
    }
}

/// The normalised form of the segments after the first, walked with the pen
/// at `(px, py)`.
pub open spec fn rel_path(segs: Seq<PathSeg>, px: int, py: int) -> Seq<PathSeg>
    decreases segs.len(),
{
    if segs.len() == 0 {
        Seq::empty()
    } else {
        let (r, p) = rel_step(segs[0], px, py);
        seq![r] + rel_path(segs.drop_first(), p.0, p.1)
    }
}

/// Every step of the walk stays in the storable range.
pub open spec fn rel_path_ok(segs: Seq<PathSeg>, px: int, py: int) -> bool
    decreases segs.len(),
{
    if segs.len() == 0 {
        true
    } else {
        let (r, p) = rel_step(segs[0], px, py);
        rel_step_ok(segs[0], px, py) && rel_path_ok(segs.drop_first(), p.0, p.1)
    }
}

/// A normalised segment list: either empty, or one absolute move followed by
/// relative segments only.
pub open spec fn path_norm_wf(segs: Seq<PathSeg>) -> bool {
    segs.len() == 0 || ((segs[0] matches PathSeg::MoveTo { abs: true, .. }) && (forall|i: int|
        1 <= i < segs.len() ==> !seg_abs(#[trigger] segs[i])))
}

/// A path attribute value in normalised form.
#[derive(Debug, Clone, PartialEq)]
pub struct PathValue {
    pub segments: Vec<PathSeg>,
}

/// The printed form of one coordinate.
pub open spec fn num_str(x: i64) -> Seq<char> {
    fixed_str(x as int)
}

/// The printed form of one segment: the command letter and its numbers.
pub open spec fn seg_str(s: PathSeg) -> Seq<char> {
    match s {
        PathSeg::MoveTo { abs, x, y } => (if abs {
            "M "@
        } else {
            "m "@
        }) + num_str(x) + " "@ + num_str(y),
        PathSeg::LineTo { abs, x, y } => (if abs {
            "L "@
        } else {
            "l "@
        }) + num_str(x) + " "@ + num_str(y),
        PathSeg::HorizontalLineTo { abs, x } => (if abs {
            "H "@
        } else {
            "h "@
        }) + num_str(x),
        PathSeg::VerticalLineTo { abs, y } => (if abs {
            "V "@
        } else {
            "v "@
        }) + num_str(y),
        PathSeg::CurveTo { abs, x1, y1, x2, y2, x, y } => (if abs {
            "C "@
        } else {
            "c "@
        }) + num_str(x1) + " "@ + num_str(y1) + ", "@ + num_str(x2) + " "@ + num_str(y2) + ", "@
            + num_str(x) + " "@ + num_str(y),
        PathSeg::SmoothCurveTo { abs, x2, y2, x, y } => (if abs {
            "S "@
        } else {
            "s "@
        }) + num_str(x2) + " "@ + num_str(y2) + ", "@ + num_str(x) + " "@ + num_str(y),
        PathSeg::Quadratic { abs, x1, y1, x, y } => (if abs {
            "Q "@
        } else {
            "q "@
        }) + num_str(x1) + " "@ + num_str(y1) + ", "@ + num_str(x) + " "@ + num_str(y),
        PathSeg::SmoothQuadratic { abs, x, y } => (if abs {
            "T "@
        } else {
            "t "@
        }) + num_str(x) + " "@ + num_str(y),
        PathSeg::EllipticalArc { abs, rx, ry, x_axis_rotation, large_arc, sweep, x, y } => (if abs {
            "A "@
        } else {
            "a "@
        }) + num_str(rx) + " "@ + num_str(ry) + " "@ + num_str(x_axis_rotation) + " "@ + (if large_arc {
            "1"@
        } else {
            "0"@
        }) + " "@ + (if sweep {
            "1"@
        } else {
            "0"@
        }) + " "@ + num_str(x) + " "@ + num_str(y),
        PathSeg::ClosePath { abs } => if abs {
            "Z"@
        } else {
            "z"@
        },
    }
}

/// The printed form of a whole segment list.
pub open spec fn path_str(segs: Seq<PathSeg>) -> Seq<char>
    decreases segs.len(),
{
    if segs.len() == 0 {
        Seq::empty()
    } else {
        path_str(segs.drop_last()) + seg_str(segs.last())
    }
}

/// All coordinates of a segment avoid the one unprintable value.
pub open spec fn seg_printable(s: PathSeg) -> bool {
    match s {
        PathSeg::MoveTo { x, y, .. } => x > i64::MIN && y > i64::MIN,
        PathSeg::LineTo { x, y, .. } => x > i64::MIN && y > i64::MIN,
        PathSeg::HorizontalLineTo { x, .. } => x > i64::MIN,
        PathSeg::VerticalLineTo { y, .. } => y > i64::MIN,
        PathSeg::CurveTo { x1, y1, x2, y2, x, y, .. } => x1 > i64::MIN && y1 > i64::MIN && x2
            > i64::MIN && y2 > i64::MIN && x > i64::MIN && y > i64::MIN,
        PathSeg::SmoothCurveTo { x2, y2, x, y, .. } => x2 > i64::MIN && y2 > i64::MIN && x
            > i64::MIN && y > i64::MIN,
        PathSeg::Quadratic { x1, y1, x, y, .. } => x1 > i64::MIN && y1 > i64::MIN && x > i64::MIN
            && y > i64::MIN,
        PathSeg::SmoothQuadratic { x, y, .. } => x > i64::MIN && y > i64::MIN,
        PathSeg::EllipticalArc { rx, ry, x_axis_rotation, x, y, .. } => rx > i64::MIN && ry
            > i64::MIN && x_axis_rotation > i64::MIN && x > i64::MIN && y > i64::MIN,
        PathSeg::ClosePath { .. } => true,
    }
}

pub open spec fn path_printable(segs: Seq<PathSeg>) -> bool {
    forall|i: int| 0 <= i < segs.len() ==> seg_printable(#[trigger] segs[i])
}

impl PathValue {
    /// Parses a `d` value and normalises it: the first segment becomes one
    /// absolute move and every later segment is rewritten to its relative
    /// form.  Fails with `AttributeParse` on a malformed list, when the
    /// first segment is not a move, or when a coordinate leaves the storable
    /// range.
    pub fn from_string(s: &Vec<char>) -> (r: Result<PathValue, SvgError>)
        ensures
            match r {
                Ok(p) => path_norm_wf(p.segments@) && path_printable(p.segments@),
                Err(e) => e == SvgError::AttributeParse,
            },
    {
        let raw = match parse_raw_path(s) {
            Some(raw) => raw,
            None => {
                return Err(SvgError::AttributeParse);
            },
        };
        if raw.len() == 0 {
            return Ok(PathValue { segments: Vec::new() });
        }
        let (fx, fy) = match raw[0] {
            PathSeg::MoveTo { abs: _, x, y } => (x, y),
            _ => {
                return Err(SvgError::AttributeParse);
            },
        };
        let mut segs: Vec<PathSeg> = Vec::new();
        segs.push(PathSeg::MoveTo { abs: true, x: fx, y: fy });
        let mut px: i64 = fx;
        let mut py: i64 = fy;
        let mut i: usize = 1;
        let ghost rest = raw@.skip(1);
        proof {
            assert(rest =~= raw@.subrange(1, raw@.len() as int));
            assert(raw@.subrange(1, 1) =~= Seq::<PathSeg>::empty());
            assert(segs@.skip(1) =~= Seq::<PathSeg>::empty());
        }
        while i < raw.len()
            invariant
                1 <= i <= raw@.len(),
                rest == raw@.subrange(1, raw@.len() as int),
                segs@.len() == i,
                segs@[0] == (PathSeg::MoveTo { abs: true, x: fx, y: fy }),
                rel_path_ok(raw@.subrange(1, i as int), fx as int, fy as int),
                segs@.skip(1) == rel_path(raw@.subrange(1, i as int), fx as int, fy as int),
                (px as int, py as int) == rel_walk(
                    raw@.subrange(1, i as int),
                    fx as int,
                    fy as int,
                ),
                px > i64::MIN,
                py > i64::MIN,
                forall|k: int| 0 <= k < raw@.len() ==> seg_printable(#[trigger] raw@[k]),
                forall|k: int| 0 <= k < segs@.len() ==> seg_printable(#[trigger] segs@[k]),
                forall|k: int| 1 <= k < segs@.len() ==> !seg_abs(#[trigger] segs@[k]),
            decreases raw@.len() - i,
        {
            let seg = raw[i];
            proof {
                assert(seg_printable(raw@[i as int]));
            }
            let stepped = rel_seg_exec(seg, px, py);
            let (out, npx, npy) = match stepped {
                Some(t) => t,
                None => {
                    return Err(SvgError::AttributeParse);
                },
            };
            segs.push(out);
            px = npx;
            py = npy;
            i = i + 1;
            proof {
                let pre = raw@.subrange(1, i - 1);
                let cur = raw@.subrange(1, i as int);
                assert(cur.drop_last() =~= pre);
                assert(cur.last() == raw@[i - 1]);
                lemma_rel_path_snoc(cur, fx as int, fy as int);
                assert(segs@.skip(1) =~= rel_path(pre, fx as int, fy as int).push(out));
            }
        }
        proof {
            assert(raw@.subrange(1, raw@.len() as int) == raw@.skip(1));
        }
        Ok(PathValue { segments: segs })
    }

    /// The canonical serialisation: the printed segments, joined.
    pub fn to_string(&self) -> (r: String)
        requires
            path_printable(self.segments@),
        ensures
            r@ == path_str(self.segments@),
    {
        let mut s = String::new();
        let mut i: usize = 0;
        proof {
            assert(self.segments@.take(0) =~= Seq::<PathSeg>::empty());
        }
        while i < self.segments.len()
            invariant
                i <= self.segments@.len(),
                path_printable(self.segments@),
                s@ == path_str(self.segments@.take(i as int)),
            decreases self.segments@.len() - i,
        {
            let seg = self.segments[i];
            let piece = seg_to_string(seg);
            s.push_str(piece.as_str());
            i = i + 1;
            proof {
                assert(self.segments@.take(i as int).drop_last() =~= self.segments@.take(i - 1));
                assert(self.segments@.take(i as int).last() == self.segments@[i - 1]);
            }
        }
        proof {
            assert(self.segments@.take(self.segments@.len() as int) =~= self.segments@);
        }
        s
    }
}

/// The pen position after walking `segs` from `(px, py)`.
pub open spec fn rel_walk(segs: Seq<PathSeg>, px: int, py: int) -> (int, int)
    decreases segs.len(),
{
    if segs.len() == 0 {
        (px, py)
    } else {
        let (r, p) = rel_step(segs[0], px, py);
        rel_walk(segs.drop_first(), p.0, p.1)
    }
}

/// Peeling the last element off a non-empty walk.
proof fn lemma_rel_path_snoc(segs: Seq<PathSeg>, px: int, py: int)
    requires
        segs.len() > 0,
    ensures
        rel_path(segs, px, py) == rel_path(segs.drop_last(), px, py).push(
            rel_step(
                segs.last(),
                rel_walk(segs.drop_last(), px, py).0,
                rel_walk(segs.drop_last(), px, py).1,
            ).0,
        ),
        rel_walk(segs, px, py) == rel_step(
            segs.last(),
            rel_walk(segs.drop_last(), px, py).0,
            rel_walk(segs.drop_last(), px, py).1,
        ).1,
        rel_path_ok(segs, px, py) == (rel_path_ok(segs.drop_last(), px, py) && rel_step_ok(
            segs.last(),
            rel_walk(segs.drop_last(), px, py).0,
            rel_walk(segs.drop_last(), px, py).1,
        )),
    decreases segs.len(),
{
    if segs.len() == 1 {
        assert(segs.drop_last() =~= Seq::<PathSeg>::empty());
        assert(segs.drop_first() =~= Seq::<PathSeg>::empty());
        let (r, p) = rel_step(segs[0], px, py);
        assert(rel_path(segs, px, py) == seq![r] + rel_path(segs.drop_first(), p.0, p.1));
        assert(rel_path(segs.drop_first(), p.0, p.1) =~= Seq::<PathSeg>::empty());
        assert(seq![r] + Seq::<PathSeg>::empty() =~= seq![r]);
        assert(rel_path(segs.drop_last(), px, py) =~= Seq::<PathSeg>::empty());
        assert(rel_path(segs.drop_last(), px, py).push(r) =~= seq![r]);
        assert(rel_walk(segs, px, py) == rel_walk(segs.drop_first(), p.0, p.1));
        assert(rel_walk(segs.drop_last(), px, py) == (px, py));
        assert(segs.last() == segs[0]);
        assert(rel_path_ok(segs, px, py) == (rel_step_ok(segs[0], px, py) && rel_path_ok(
            segs.drop_first(),
            p.0,
            p.1,
        )));
        assert(rel_path_ok(segs.drop_first(), p.0, p.1));
        assert(rel_path_ok(segs.drop_last(), px, py));
    } else {
        let (r, p) = rel_step(segs[0], px, py);
        lemma_rel_path_snoc(segs.drop_first(), p.0, p.1);
        assert(segs.drop_first().drop_last() =~= segs.drop_last().drop_first());
        assert(segs.drop_first().last() == segs.last());
        assert(segs.drop_last()[0] == segs[0]);
        assert(segs.drop_last().len() > 0);
        assert(rel_path(segs, px, py) =~= rel_path(segs.drop_last(), px, py).push(
            rel_step(
                segs.last(),
                rel_walk(segs.drop_last(), px, py).0,
                rel_walk(segs.drop_last(), px, py).1,
            ).0,
        ));
    }
}

/// One executable normalisation step; `None` exactly when a difference or
/// position leaves the storable range.
fn rel_seg_exec(s: PathSeg, px: i64, py: i64) -> (r: Option<(PathSeg, i64, i64)>)
    requires
        seg_printable(s),
        px > i64::MIN,
        py > i64::MIN,
    ensures
        match r {
            Some(t) => rel_step_ok(s, px as int, py as int) && t.0 == rel_step(
                s,
                px as int,
                py as int,
            ).0 && (t.1 as int, t.2 as int) == rel_step(s, px as int, py as int).1 && !seg_abs(t.0)
                && seg_printable(t.0) && t.1 > i64::MIN && t.2 > i64::MIN,
            None => !rel_step_ok(s, px as int, py as int),
        },
{
    match s {
        PathSeg::MoveTo { abs, x, y } => {
            if abs {
                let dx = checked_sub(x, px)?;
                let dy = checked_sub(y, py)?;
                Some((PathSeg::MoveTo { abs: false, x: dx, y: dy }, x, y))
            } else {
                let nx = checked_add(px, x)?;
                let ny = checked_add(py, y)?;
                Some((s, nx, ny))
            }
        },
        PathSeg::LineTo { abs, x, y } => {
            if abs {
                let dx = checked_sub(x, px)?;
                let dy = checked_sub(y, py)?;
                Some((PathSeg::LineTo { abs: false, x: dx, y: dy }, x, y))
            } else {
                let nx = checked_add(px, x)?;
                let ny = checked_add(py, y)?;
                Some((s, nx, ny))
            }
        },
        PathSeg::HorizontalLineTo { abs, x } => {
            if abs {
                let dx = checked_sub(x, px)?;
                Some((PathSeg::HorizontalLineTo { abs: false, x: dx }, x, py))
            } else {
                let nx = checked_add(px, x)?;
                Some((s, nx, py))
            }
        },
        PathSeg::VerticalLineTo { abs, y } => {
            if abs {
                let dy = checked_sub(y, py)?;
                Some((PathSeg::VerticalLineTo { abs: false, y: dy }, px, y))
            } else {
                let ny = checked_add(py, y)?;
                Some((s, px, ny))
            }
        },
        PathSeg::CurveTo { abs, x1, y1, x2, y2, x, y } => {
            if abs {
                let dx1 = checked_sub(x1, px)?;
                let dy1 = checked_sub(y1, py)?;
                let dx2 = checked_sub(x2, px)?;
                let dy2 = checked_sub(y2, py)?;
                let dx = checked_sub(x, px)?;
                let dy = checked_sub(y, py)?;
                Some((
                    PathSeg::CurveTo {
                        abs: false,
                        x1: dx1,
                        y1: dy1,
                        x2: dx2,
                        y2: dy2,
                        x: dx,
                        y: dy,
                    },
                    x,
                    y,
                ))
            } else {
                let nx = checked_add(px, x)?;
                let ny = checked_add(py, y)?;
                Some((s, nx, ny))
            }
        },
        PathSeg::SmoothCurveTo { abs, x2, y2, x, y } => {
            if abs {
                let dx2 = checked_sub(x2, px)?;
                let dy2 = checked_sub(y2, py)?;
                let dx = checked_sub(x, px)?;
                let dy = checked_sub(y, py)?;
                Some((PathSeg::SmoothCurveTo { abs: false, x2: dx2, y2: dy2, x: dx, y: dy }, x, y))
            } else {
                let nx = checked_add(px, x)?;
                let ny = checked_add(py, y)?;
                Some((s, nx, ny))
            }
        },
        PathSeg::Quadratic { abs, x1, y1, x, y } => {
            if abs {
                let dx1 = checked_sub(x1, px)?;
                let dy1 = checked_sub(y1, py)?;
                let dx = checked_sub(x, px)?;
                let dy = checked_sub(y, py)?;
                Some((PathSeg::Quadratic { abs: false, x1: dx1, y1: dy1, x: dx, y: dy }, x, y))
            } else {
                let nx = checked_add(px, x)?;
                let ny = checked_add(py, y)?;
                Some((s, nx, ny))
            }
        },
        PathSeg::SmoothQuadratic { abs, x, y } => {
            if abs {
                let dx = checked_sub(x, px)?;
                let dy = checked_sub(y, py)?;
                Some((PathSeg::SmoothQuadratic { abs: false, x: dx, y: dy }, x, y))
            } else {
                let nx = checked_add(px, x)?;
                let ny = checked_add(py, y)?;
                Some((s, nx, ny))
            }
        },
        PathSeg::EllipticalArc { abs, rx, ry, x_axis_rotation, large_arc, sweep, x, y } => {
            if abs {
                let dx = checked_sub(x, px)?;
                let dy = checked_sub(y, py)?;
                Some((
                    PathSeg::EllipticalArc {
                        abs: false,
                        rx,
                        ry,
                        x_axis_rotation,
                        large_arc,
                        sweep,
                        x: dx,
                        y: dy,
                    },
                    x,
                    y,
                ))
            } else {
                let nx = checked_add(px, x)?;
                let ny = checked_add(py, y)?;
                Some((s, nx, ny))
            }
        },
        PathSeg::ClosePath { abs: _ } => Some((PathSeg::ClosePath { abs: false }, px, py)),
    }
}

/// A subtraction in the storable range, or `None`.
fn checked_sub(a: i64, b: i64) -> (r: Option<i64>)
    ensures
        match r {
            Some(x) => x as int == a - b && crate::number::fits_fixed(a - b),
            None => !crate::number::fits_fixed(a - b),
        },
{
    match a.checked_sub(b) {
        Some(x) => if x == i64::MIN {
            None
        } else {
            Some(x)
        },
        None => None,
    }
}

/// An addition in the storable range, or `None`.
fn checked_add(a: i64, b: i64) -> (r: Option<i64>)
    ensures
        match r {
            Some(x) => x as int == a + b && crate::number::fits_fixed(a + b),
            None => !crate::number::fits_fixed(a + b),
        },
{
    match a.checked_add(b) {
        Some(x) => if x == i64::MIN {
            None
        } else {
            Some(x)
        },
        None => None,
    }
}

/// The printed form of one segment.
fn seg_to_string(s: PathSeg) -> (r: String)
    requires
        seg_printable(s),
    ensures
        r@ == seg_str(s),
{
    let mut out = String::new();
    match s {
        PathSeg::MoveTo { abs, x, y } => {
            out.push_str(if abs { "M " } else { "m " });
            push_num(&mut out, x);
            out.push_str(" ");
            push_num(&mut out, y);
        },
        PathSeg::LineTo { abs, x, y } => {
            out.push_str(if abs { "L " } else { "l " });
            push_num(&mut out, x);
            out.push_str(" ");
            push_num(&mut out, y);
        },
        PathSeg::HorizontalLineTo { abs, x } => {
            out.push_str(if abs { "H " } else { "h " });
            push_num(&mut out, x);
        },
        PathSeg::VerticalLineTo { abs, y } => {
            out.push_str(if abs { "V " } else { "v " });
            push_num(&mut out, y);
        },
        PathSeg::CurveTo { abs, x1, y1, x2, y2, x, y } => {
            out.push_str(if abs { "C " } else { "c " });
            push_num(&mut out, x1);
            out.push_str(" ");
            push_num(&mut out, y1);
            out.push_str(", ");
            push_num(&mut out, x2);
            out.push_str(" ");
            push_num(&mut out, y2);
            out.push_str(", ");
            push_num(&mut out, x);
            out.push_str(" ");
            push_num(&mut out, y);
        },
        PathSeg::SmoothCurveTo { abs, x2, y2, x, y } => {
            out.push_str(if abs { "S " } else { "s " });
            push_num(&mut out, x2);
            out.push_str(" ");
            push_num(&mut out, y2);
            out.push_str(", ");
            push_num(&mut out, x);
            out.push_str(" ");
            push_num(&mut out, y);
        },
        PathSeg::Quadratic { abs, x1, y1, x, y } => {
            out.push_str(if abs { "Q " } else { "q " });
            push_num(&mut out, x1);
            out.push_str(" ");
            push_num(&mut out, y1);
            out.push_str(", ");
            push_num(&mut out, x);
            out.push_str(" ");
            push_num(&mut out, y);
        },
        PathSeg::SmoothQuadratic { abs, x, y } => {
            out.push_str(if abs { "T " } else { "t " });
            push_num(&mut out, x);
            out.push_str(" ");
            push_num(&mut out, y);
        },
        PathSeg::EllipticalArc { abs, rx, ry, x_axis_rotation, large_arc, sweep, x, y } => {
            out.push_str(if abs { "A " } else { "a " });
            push_num(&mut out, rx);
            out.push_str(" ");
            push_num(&mut out, ry);
            out.push_str(" ");
            push_num(&mut out, x_axis_rotation);
            out.push_str(" ");
            out.push_str(if large_arc { "1" } else { "0" });
            out.push_str(" ");
            out.push_str(if sweep { "1" } else { "0" });
            out.push_str(" ");
            push_num(&mut out, x);
            out.push_str(" ");
            push_num(&mut out, y);
        },
        PathSeg::ClosePath { abs } => {
            out.push_str(if abs { "Z" } else { "z" });
        },
    }
    proof {
        assert(out@ =~= seg_str(s));
    }
    out
}

/// Appends one printed coordinate.
fn push_num(out: &mut String, x: i64)
    requires
        x > i64::MIN,
    ensures
        final(out)@ == old(out)@ + num_str(x),
{
    let v = print_fixed(x);
    out.push_str(string_from_chars(&v).as_str());
}

/// Reads the raw segment list from the tokens; `None` when the list is
/// malformed or a number is unstorable.
fn parse_raw_path(s: &Vec<char>) -> (r: Option<Vec<PathSeg>>)
    ensures
        match r {
            Some(segs) => forall|k: int| 0 <= k < segs@.len() ==> seg_printable(#[trigger] segs@[k]),
            None => true,
        },
{
    let ts = split_tokens(s);
    let n = ts.len();
    let mut segs: Vec<PathSeg> = Vec::new();
    let mut i: usize = 0;
    let mut cmd: char = ' ';
    let mut have_cmd: bool = false;
    while i < n
        invariant
            i <= n,
            n == ts@.len(),
            forall|k: int| 0 <= k < segs@.len() ==> seg_printable(#[trigger] segs@[k]),
        decreases n - i,
    {
        let t = &ts[i];
        if t.len() == 1 && is_alpha_exec(t[0]) {
            cmd = t[0];
            have_cmd = true;
            i = i + 1;
            if cmd == 'Z' || cmd == 'z' {
                segs.push(PathSeg::ClosePath { abs: cmd == 'Z' });
                have_cmd = false;
                continue ;
            }
            continue ;
        }
        if !have_cmd {
            return None;
        }
        // a numeric token: read this command's parameters
        let count: usize = param_count(cmd);
        if count == 0 {
            // numbers after a close command
            return None;
        }
        if n < count || i > n - count {
            return None;
        }
        let mut nums: Vec<i64> = Vec::new();
        let mut k: usize = 0;
        while k < count
            invariant
                k <= count,
                i + count <= n,
                n == ts@.len(),
                nums@.len() == k,
                forall|j: int| 0 <= j < k ==> (#[trigger] nums@[j]) > i64::MIN,
            decreases count - k,
        {
            match parse_fixed(&ts[i + k]) {
                Some(x) => {
                    nums.push(x);
                },
                None => {
                    return None;
                },
            }
            k = k + 1;
        }
        i = i + count;
        let abs = is_upper(cmd);
        let seg: PathSeg = if cmd == 'M' || cmd == 'm' {
            PathSeg::MoveTo { abs, x: nums[0], y: nums[1] }
        } else if cmd == 'L' || cmd == 'l' {
            PathSeg::LineTo { abs, x: nums[0], y: nums[1] }
        } else if cmd == 'H' || cmd == 'h' {
            PathSeg::HorizontalLineTo { abs, x: nums[0] }
        } else if cmd == 'V' || cmd == 'v' {
            PathSeg::VerticalLineTo { abs, y: nums[0] }
        } else if cmd == 'C' || cmd == 'c' {
            PathSeg::CurveTo {
                abs,
                x1: nums[0],
                y1: nums[1],
                x2: nums[2],
                y2: nums[3],
                x: nums[4],
                y: nums[5],
            }
        } else if cmd == 'S' || cmd == 's' {
            PathSeg::SmoothCurveTo { abs, x2: nums[0], y2: nums[1], x: nums[2], y: nums[3] }
        } else if cmd == 'Q' || cmd == 'q' {
            PathSeg::Quadratic { abs, x1: nums[0], y1: nums[1], x: nums[2], y: nums[3] }
        } else if cmd == 'T' || cmd == 't' {
            PathSeg::SmoothQuadratic { abs, x: nums[0], y: nums[1] }
        } else if cmd == 'A' || cmd == 'a' {
            let la = nums[3];
            let sw = nums[4];
            if !(la == 0 || la == SCALE as i64) || !(sw == 0 || sw == SCALE as i64) {
                // the two flags must be 0 or 1
                return None;
            }
            PathSeg::EllipticalArc {
                abs,
                rx: nums[0],
                ry: nums[1],
                x_axis_rotation: nums[2],
                large_arc: la != 0,
                sweep: sw != 0,
                x: nums[5],
                y: nums[6],
            }
        } else {
            // an unknown command letter
            return None;
        };
        segs.push(seg);
        // after a move, further pairs continue as lines
        if cmd == 'M' {
            cmd = 'L';
        } else if cmd == 'm' {
            cmd = 'l';
        }
    }
    Some(segs)
}

/// How many numbers one segment of this command takes.
pub open spec fn spec_param_count(cmd: char) -> int {
    if cmd == 'M' || cmd == 'm' || cmd == 'L' || cmd == 'l' || cmd == 'T' || cmd == 't' {
        2
    } else if cmd == 'H' || cmd == 'h' || cmd == 'V' || cmd == 'v' {
        1
    } else if cmd == 'C' || cmd == 'c' {
        6
    } else if cmd == 'S' || cmd == 's' || cmd == 'Q' || cmd == 'q' {
        4
    } else if cmd == 'A' || cmd == 'a' {
        7
    } else {
        0
    }
}

fn param_count(cmd: char) -> (r: usize)
    ensures
        r <= 7,
        r == spec_param_count(cmd),
{
    if cmd == 'M' || cmd == 'm' || cmd == 'L' || cmd == 'l' || cmd == 'T' || cmd == 't' {
        2
    } else if cmd == 'H' || cmd == 'h' || cmd == 'V' || cmd == 'v' {
        1
    } else if cmd == 'C' || cmd == 'c' {
        6
    } else if cmd == 'S' || cmd == 's' || cmd == 'Q' || cmd == 'q' {
        4
    } else if cmd == 'A' || cmd == 'a' {
        7
    } else {
        0
    }
}

fn is_alpha_exec(c: char) -> (r: bool)
    ensures
        r == is_alpha(c),
{
    let u = c as u32;
    (65 <= u && u <= 90) || (97 <= u && u <= 122)
}

fn is_upper(c: char) -> (r: bool)
    ensures
        r == (65 <= c as u32 <= 90),
{
    let u = c as u32;
    65 <= u && u <= 90
}

} // verus!
