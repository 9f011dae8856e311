//! Bounds of a shape: the box around every anchor and control point that
//! its records visit, padded so that strokes are not clipped.
use vstd::prelude::*;
use crate::model::{Rect, Shape, ShapeRecord, Vector2D};

verus! {

/// Margin added on every side of a non-empty box, in twips (ten pixels).
pub const BOUNDS_PADDING: i32 = 200;

/// The largest coordinate a visited point may have, so that the padded box
/// fits in 32 bits.
pub const BOUNDS_MAX: i32 = 0x7fff_ffff - 200;

/// The smallest coordinate a visited point may have, so that the padded box
/// fits in 32 bits.
pub const BOUNDS_MIN: i32 = -0x8000_0000 + 200;

/// A box as (x_min, x_max, y_min, y_max).
pub type Extent = (int, int, int, int);

/// The smallest box holding `b` and the point (x, y).
pub open spec fn enclose(b: Option<Extent>, x: int, y: int) -> Option<Extent> {
    match b {
        None => Some((x, x, y, y)),
        Some(e) => Some((
            if x < e.0 { x } else { e.0 },
            if x > e.1 { x } else { e.1 },
            if y < e.2 { y } else { e.2 },
            if y > e.3 { y } else { e.3 },
        )),
    }
}

/// The pen position and the box of visited points after `recs`, starting
/// at the origin with nothing visited.
pub open spec fn walk(recs: Seq<ShapeRecord>) -> (int, int, Option<Extent>)
    decreases recs.len(),
{
    if recs.len() == 0 {
        (0, 0, None)
    } else {
        let w = walk(recs.drop_last());
        step(w, recs.last())
    }
}

pub open spec fn step(w: (int, int, Option<Extent>), r: ShapeRecord) -> (int, int, Option<Extent>) {
    match r {
        ShapeRecord::StyleChange(sc) => match sc.move_to {
            Some(p) => (p.x as int, p.y as int, enclose(w.2, p.x as int, p.y as int)),
            None => w,
        },
        ShapeRecord::Edge(e) => {
            let nx = w.0 + e.delta.x;
            let ny = w.1 + e.delta.y;
            let b = enclose(w.2, nx, ny);
            match e.control_delta {
                Some(c) => (nx, ny, enclose(b, w.0 + c.x, w.1 + c.y)),
                None => (nx, ny, b),
            }
        },
    }
}

pub open spec fn fits(v: int) -> bool {
    BOUNDS_MIN <= v <= BOUNDS_MAX
}

/// Every point visited while walking `recs` (pen positions and control
/// points) lies within `BOUNDS_MIN..=BOUNDS_MAX`.
pub open spec fn walk_fits(recs: Seq<ShapeRecord>) -> bool
    decreases recs.len(),
{
    recs.len() == 0 || {
        let w = walk(recs.drop_last());
        &&& walk_fits(recs.drop_last())
        &&& match recs.last() {
            ShapeRecord::StyleChange(sc) => match sc.move_to {
                Some(p) => fits(p.x as int) && fits(p.y as int),
                None => true,
            },
            ShapeRecord::Edge(e) => {
                &&& fits(w.0 + e.delta.x)
                &&& fits(w.1 + e.delta.y)
                &&& match e.control_delta {
                    Some(c) => fits(w.0 + c.x) && fits(w.1 + c.y),
                    None => true,
                }
            },
        }
    }
}

/// The bounds of a record list: the zero box when no point is visited,
/// else the box of visited points padded by `BOUNDS_PADDING` on every side.
pub open spec fn spec_bounds(recs: Seq<ShapeRecord>) -> Rect {
    match walk(recs).2 {
        None => Rect { x_min: 0, x_max: 0, y_min: 0, y_max: 0 },
        Some(e) => Rect {
            x_min: (e.0 - BOUNDS_PADDING) as i32,
            x_max: (e.1 + BOUNDS_PADDING) as i32,
            y_min: (e.2 - BOUNDS_PADDING) as i32,
            y_max: (e.3 + BOUNDS_PADDING) as i32,
        },
    }
}

pub open spec fn extent_fits(b: Option<Extent>) -> bool {
    match b {
        None => true,
        Some(e) => fits(e.0) && fits(e.1) && fits(e.2) && fits(e.3),
    }
}

pub open spec fn lift(b: Option<(i32, i32, i32, i32)>) -> Option<Extent> {
    match b {
        None => None,
        Some(e) => Some((e.0 as int, e.1 as int, e.2 as int, e.3 as int)),
    }
}

fn enclose_point(b: Option<(i32, i32, i32, i32)>, x: i32, y: i32) -> (r: Option<(i32, i32, i32, i32)>)
    ensures
        lift(r) == enclose(lift(b), x as int, y as int),
{
    match b {
        None => Some((x, x, y, y)),
        Some(e) => Some((
            if x < e.0 { x } else { e.0 },
            if x > e.1 { x } else { e.1 },
            if y < e.2 { y } else { e.2 },
            if y > e.3 { y } else { e.3 },
        )),
    }
}

proof fn lemma_walk_fits(recs: Seq<ShapeRecord>)
    requires
        walk_fits(recs),
    ensures
        fits(walk(recs).0),
        fits(walk(recs).1),
        extent_fits(walk(recs).2),
    decreases recs.len(),
{
    if recs.len() > 0 {
        lemma_walk_fits(recs.drop_last());
    }
}

/// Computes the padded bounds of a shape's records; `None` when a visited
/// point lies outside `BOUNDS_MIN..=BOUNDS_MAX`, where the padded box would
/// not fit.
pub fn calculate_shape_bounds(shape: &Shape) -> (r: Option<Rect>)
    ensures
        walk_fits(shape.records@) ==> r == Some(spec_bounds(shape.records@)),
        !walk_fits(shape.records@) ==> r is None,
{
    let recs = &shape.records;
    let mut x: i32 = 0;
    let mut y: i32 = 0;
    let mut b: Option<(i32, i32, i32, i32)> = None;
    let mut i: usize = 0;
    while i < recs.len()
        invariant
            0 <= i <= recs.len(),
            recs@ == shape.records@,
            walk_fits(recs@.subrange(0, i as int)),
            (x as int, y as int, lift(b)) == walk(recs@.subrange(0, i as int)),
        decreases recs.len() - i,
    {
        let ghost pre = recs@.subrange(0, i as int);
        let ghost next = recs@.subrange(0, i + 1);
        proof {
            assert(next.drop_last() =~= pre);
            assert(next.last() == recs@[i as int]);
            lemma_walk_fits(pre);
        }
        match &recs[i] {
            ShapeRecord::StyleChange(sc) => {
                if let Some(p) = sc.move_to {
                    if !in_limit(p.x as i64) || !in_limit(p.y as i64) {
                        proof {
                            assert(!walk_fits(next));
                            lemma_prefix_fits_or_not(recs@, i + 1);
                        }
                        return None;
                    }
                    x = p.x;
                    y = p.y;
                    b = enclose_point(b, x, y);
                }
            },
            ShapeRecord::Edge(e) => {
                let nx: i64 = x as i64 + e.delta.x as i64;
                let ny: i64 = y as i64 + e.delta.y as i64;
                let (cx, cy): (i64, i64) = match e.control_delta {
                    Some(c) => (x as i64 + c.x as i64, y as i64 + c.y as i64),
                    None => (0, 0),
                };
                if !in_limit(nx) || !in_limit(ny) || !in_limit(cx) || !in_limit(cy) {
                    proof {
                        assert(!walk_fits(next));
                        lemma_prefix_fits_or_not(recs@, i + 1);
                    }
                    return None;
                }
                let px = x;
                let py = y;
                x = nx as i32;
                y = ny as i32;
                b = enclose_point(b, x, y);
                if let Some(c) = e.control_delta {
                    b = enclose_point(b, px + c.x, py + c.y);
                }
            },
        }
        i += 1;
    }
    proof {
        assert(recs@.subrange(0, recs@.len() as int) =~= recs@);
        lemma_walk_fits(recs@);
    }
    match b {
        None => Some(Rect { x_min: 0, x_max: 0, y_min: 0, y_max: 0 }),
        Some(e) => Some(Rect {
            x_min: e.0 - BOUNDS_PADDING,
            x_max: e.1 + BOUNDS_PADDING,
            y_min: e.2 - BOUNDS_PADDING,
            y_max: e.3 + BOUNDS_PADDING,
        }),
    }
}

fn in_limit(v: i64) -> (r: bool)
    ensures
        r == fits(v as int),
{
    BOUNDS_MIN as i64 <= v && v <= BOUNDS_MAX as i64
}

/// A record list whose prefix of length `n` does not fit does not fit either.
proof fn lemma_prefix_fits_or_not(recs: Seq<ShapeRecord>, n: int)
    requires
        0 <= n <= recs.len(),
        !walk_fits(recs.subrange(0, n)),
    ensures
        !walk_fits(recs),
    decreases recs.len() - n,
{
    if n == recs.len() {
        assert(recs.subrange(0, n) =~= recs);
    } else {
        let next = recs.subrange(0, n + 1);
        assert(next.drop_last() =~= recs.subrange(0, n));
        lemma_prefix_fits_or_not(recs, n + 1);
    }
}

/// A shape without records has the zero box; a lone move-to at `p` has the
/// box centred on `p` reaching `BOUNDS_PADDING` to every side.
pub proof fn lemma_bounds_of_empty_and_single_point(p: Vector2D)
    requires
        fits(p.x as int),
        fits(p.y as int),
    ensures
        spec_bounds(Seq::<ShapeRecord>::empty()) == (Rect { x_min: 0, x_max: 0, y_min: 0, y_max: 0 }),
        spec_bounds(seq![crate::geometry::move_record(p)]) == (Rect {
            x_min: (p.x - BOUNDS_PADDING) as i32,
            x_max: (p.x + BOUNDS_PADDING) as i32,
            y_min: (p.y - BOUNDS_PADDING) as i32,
            y_max: (p.y + BOUNDS_PADDING) as i32,
        }),
{
    let one = seq![crate::geometry::move_record(p)];
    assert(one.drop_last() =~= Seq::<ShapeRecord>::empty());
    assert(walk(one.drop_last()) == (0int, 0int, None::<Extent>));
}

} // verus!
