//! Shape compilation: turns paths whose points are already placed on the
//! stage and scaled to twips into shape records and style tables.
use vstd::prelude::*;
use crate::model::{CapStyle, Edge, FillStyle, JoinStyle, LineStyle, Rgb, Rgba, Shape, ShapeRecord, ShapeStyles, StyleChange, Vector2D};

verus! {

/// Twips per pixel.
pub const TWIPS_PER_PIXEL: i32 = 20;

/// The largest coordinate magnitude a segment may use, so that every delta
/// between two points fits the format's 32-bit fields.
pub const COORD_LIMIT: i32 = 0x3fff_ffff;

/// One drawing command of a path, its points transformed to stage space and
/// scaled to twips.
#[derive(Clone, Copy, Debug, PartialEq, Eq, Structural)]
pub enum Segment {
    MoveTo(Vector2D),
    LineTo(Vector2D),
    QuadTo { control: Vector2D, to: Vector2D },
    CubicTo { control1: Vector2D, control2: Vector2D, to: Vector2D },
    Close,
}

/// The pen: its position and the first move-to of the shape being built.
#[derive(Clone, Copy, Debug, PartialEq, Eq, Structural)]
pub struct Pen {
    pub at: Vector2D,
    pub start: Option<Vector2D>,
}

pub open spec fn point_in_range(p: Vector2D) -> bool {
    -COORD_LIMIT <= p.x <= COORD_LIMIT && -COORD_LIMIT <= p.y <= COORD_LIMIT
}

pub open spec fn segment_in_range(s: Segment) -> bool {
    match s {
        Segment::MoveTo(p) => point_in_range(p),
        Segment::LineTo(p) => point_in_range(p),
        Segment::QuadTo { control, to } => point_in_range(control) && point_in_range(to),
        Segment::CubicTo { control1, control2, to } =>
            point_in_range(control1) && point_in_range(control2) && point_in_range(to),
        Segment::Close => true,
    }
}

pub open spec fn pen_in_range(pen: Pen) -> bool {
    point_in_range(pen.at) && match pen.start {
        Some(s) => point_in_range(s),
        None => true,
    }
}

/// `to - from`, componentwise.
pub open spec fn spec_delta(from: Vector2D, to: Vector2D) -> Vector2D {
    Vector2D { x: (to.x - from.x) as i32, y: (to.y - from.y) as i32 }
}

/// Half of `v`, rounded toward zero.
pub open spec fn half(v: int) -> int {
    if v >= 0 { v / 2 } else { -((-v) / 2) }
}

/// The point halfway between two control points of a cubic curve.
pub open spec fn spec_midpoint(a: Vector2D, b: Vector2D) -> Vector2D {
    Vector2D { x: half(a.x + b.x) as i32, y: half(a.y + b.y) as i32 }
}

/// Whether two points are more than one unit apart on some axis. A close
/// is skipped only when the pen is within one unit (one twip) of the start:
/// points are committed to the stage at that precision, so one unit is the
/// device-space resolution, and a closed path then always ends within one
/// unit of where it began.
pub open spec fn apart(a: Vector2D, b: Vector2D) -> bool {
    a.x - b.x > 1 || b.x - a.x > 1 || a.y - b.y > 1 || b.y - a.y > 1
}

pub open spec fn move_record(p: Vector2D) -> ShapeRecord {
    ShapeRecord::StyleChange(
        StyleChange { move_to: Some(p), left_fill: None, right_fill: None, line_style: None, new_styles: None },
    )
}

pub open spec fn line_record(d: Vector2D) -> ShapeRecord {
    ShapeRecord::Edge(Edge { delta: d, control_delta: None })
}

pub open spec fn curve_record(d: Vector2D, c: Vector2D) -> ShapeRecord {
    ShapeRecord::Edge(Edge { delta: d, control_delta: Some(c) })
}

/// The records one segment adds, drawn from `pen`.
pub open spec fn segment_records(pen: Pen, s: Segment) -> Seq<ShapeRecord> {
    match s {
        Segment::MoveTo(p) => seq![move_record(p)],
        Segment::LineTo(p) => seq![line_record(spec_delta(pen.at, p))],
        Segment::QuadTo { control, to } => seq![
            curve_record(spec_delta(pen.at, to), spec_delta(pen.at, control)),
        ],
        Segment::CubicTo { control1, control2, to } => {
            let m = spec_midpoint(control1, control2);
            seq![
                curve_record(spec_delta(pen.at, m), spec_delta(pen.at, control1)),
                curve_record(spec_delta(m, to), spec_delta(m, control2)),
            ]
        },
        Segment::Close => match pen.start {
            Some(s) => if apart(pen.at, s) {
                seq![line_record(spec_delta(pen.at, s))]
            } else {
                seq![]
            },
            None => seq![],
        },
    }
}

/// The pen after one segment.
pub open spec fn pen_after(pen: Pen, s: Segment) -> Pen {
    match s {
        Segment::MoveTo(p) => Pen {
            at: p,
            start: match pen.start {
                Some(st) => Some(st),
                None => Some(p),
            },
        },
        Segment::LineTo(p) => Pen { at: p, ..pen },
        Segment::QuadTo { to, .. } => Pen { at: to, ..pen },
        Segment::CubicTo { to, .. } => Pen { at: to, ..pen },
        Segment::Close => match pen.start {
            Some(s) => if apart(pen.at, s) { Pen { at: s, ..pen } } else { pen },
            None => pen,
        },
    }
}

/// The records a sequence of segments adds, drawn from `pen`.
pub open spec fn trace_records(pen: Pen, segs: Seq<Segment>) -> Seq<ShapeRecord>
    decreases segs.len(),
{
    if segs.len() == 0 {
        seq![]
    } else {
        let init = segs.drop_last();
        trace_records(pen, init) + segment_records(trace_pen(pen, init), segs.last())
    }
}

/// The pen after a sequence of segments.
pub open spec fn trace_pen(pen: Pen, segs: Seq<Segment>) -> Pen
    decreases segs.len(),
{
    if segs.len() == 0 {
        pen
    } else {
        pen_after(trace_pen(pen, segs.drop_last()), segs.last())
    }
}

pub open spec fn segments_in_range(segs: Seq<Segment>) -> bool {
    forall|i: int| 0 <= i < segs.len() ==> segment_in_range(#[trigger] segs[i])
}

pub proof fn lemma_trace_pen_in_range(pen: Pen, segs: Seq<Segment>)
    requires
        pen_in_range(pen),
        segments_in_range(segs),
    ensures
        pen_in_range(trace_pen(pen, segs)),
    decreases segs.len(),
{
    if segs.len() > 0 {
        let init = segs.drop_last();
        assert(segment_in_range(segs[segs.len() - 1]));
        lemma_trace_pen_in_range(pen, init);
    }
}

fn delta(from: Vector2D, to: Vector2D) -> (r: Vector2D)
    requires
        point_in_range(from),
        point_in_range(to),
    ensures
        r == spec_delta(from, to),
{
    Vector2D { x: to.x - from.x, y: to.y - from.y }
}

fn halve(v: i32) -> (r: i32)
    ensures
        r == half(v as int),
{
    if v >= 0 {
        v / 2
    } else {
        let n: i64 = -(v as i64);
        -((n / 2) as i32)
    }
}

fn midpoint(a: Vector2D, b: Vector2D) -> (r: Vector2D)
    requires
        point_in_range(a),
        point_in_range(b),
    ensures
        r == spec_midpoint(a, b),
        point_in_range(r),
{
    Vector2D { x: halve(a.x + b.x), y: halve(a.y + b.y) }
}

fn is_apart(a: Vector2D, b: Vector2D) -> (r: bool)
    requires
        point_in_range(a),
        point_in_range(b),
    ensures
        r == apart(a, b),
{
    a.x - b.x > 1 || b.x - a.x > 1 || a.y - b.y > 1 || b.y - a.y > 1
}

fn move_to(p: Vector2D) -> (r: ShapeRecord)
    ensures
        r == move_record(p),
{
    ShapeRecord::StyleChange(
        StyleChange { move_to: Some(p), left_fill: None, right_fill: None, line_style: None, new_styles: None },
    )
}

/// Appends the records of one segment and advances the pen.
pub fn draw_segment(records: &mut Vec<ShapeRecord>, pen: &mut Pen, s: Segment)
    requires
        pen_in_range(*old(pen)),
        segment_in_range(s),
    ensures
        final(records)@ == old(records)@ + segment_records(*old(pen), s),
        *final(pen) == pen_after(*old(pen), s),
{
    let at = pen.at;
    match s {
        Segment::MoveTo(p) => {
            records.push(move_to(p));
            pen.at = p;
            if pen.start.is_none() {
                pen.start = Some(p);
            }
        },
        Segment::LineTo(p) => {
            records.push(ShapeRecord::Edge(Edge { delta: delta(at, p), control_delta: None }));
            pen.at = p;
        },
        Segment::QuadTo { control, to } => {
            records.push(
                ShapeRecord::Edge(Edge { delta: delta(at, to), control_delta: Some(delta(at, control)) }),
            );
            pen.at = to;
        },
        Segment::CubicTo { control1, control2, to } => {
            let m = midpoint(control1, control2);
            records.push(
                ShapeRecord::Edge(Edge { delta: delta(at, m), control_delta: Some(delta(at, control1)) }),
            );
            records.push(
                ShapeRecord::Edge(Edge { delta: delta(m, to), control_delta: Some(delta(m, control2)) }),
            );
            pen.at = to;
        },
        Segment::Close => {
            if let Some(st) = pen.start {
                if is_apart(at, st) {
                    records.push(ShapeRecord::Edge(Edge { delta: delta(at, st), control_delta: None }));
                    pen.at = st;
                }
            }
        },
    }
    proof {
        assert(final(records)@ =~= old(records)@ + segment_records(*old(pen), s));
    }
}

/// Appends the records of a sequence of segments and advances the pen.
pub fn draw_segments(records: &mut Vec<ShapeRecord>, pen: &mut Pen, segs: &Vec<Segment>)
    requires
        pen_in_range(*old(pen)),
        segments_in_range(segs@),
    ensures
        final(records)@ == old(records)@ + trace_records(*old(pen), segs@),
        *final(pen) == trace_pen(*old(pen), segs@),
{
    let ghost pen0 = *pen;
    let ghost recs0 = records@;
    let mut i: usize = 0;
    proof {
        assert(segs@.subrange(0, 0) =~= Seq::<Segment>::empty());
        assert(records@ =~= recs0 + trace_records(pen0, segs@.subrange(0, 0)));
    }
    while i < segs.len()
        invariant
            0 <= i <= segs.len(),
            segments_in_range(segs@),
            pen_in_range(pen0),
            records@ == recs0 + trace_records(pen0, segs@.subrange(0, i as int)),
            *pen == trace_pen(pen0, segs@.subrange(0, i as int)),
        decreases segs.len() - i,
    {
        proof {
            lemma_trace_pen_in_range(pen0, segs@.subrange(0, i as int));
        }
        let s = segs[i];
        assert(segment_in_range(segs@[i as int]));
        draw_segment(records, pen, s);
        proof {
            let next = segs@.subrange(0, i + 1);
            assert(next.drop_last() =~= segs@.subrange(0, i as int));
            assert(next.last() == s);
            assert(records@ =~= recs0 + trace_records(pen0, next));
        }
        i += 1;
    }
    proof {
        assert(segs@.subrange(0, segs@.len() as int) =~= segs@);
    }
}

/// Full opacity, in millionths.
pub const OPAQUE: i32 = 1_000_000;

/// An opacity in millionths, clamped to `0..=OPAQUE` and scaled to an 8-bit
/// alpha, rounding half up.
pub open spec fn alpha_of(opacity: i32) -> u8 {
    let c: int = if opacity < 0 { 0 } else if opacity > OPAQUE { OPAQUE as int } else { opacity as int };
    ((c * 255 + 500_000) / 1_000_000) as u8
}

/// Maps an opacity given in millionths to an 8-bit alpha: out-of-range
/// opacities are clamped first, so 0 and below give 0 and `OPAQUE` and above
/// give 255.
pub fn opacity_to_alpha(opacity: i32) -> (r: u8)
    ensures
        r == alpha_of(opacity),
        opacity <= 0 ==> r == 0,
        opacity >= OPAQUE ==> r == 255,
{
    let c: i32 = if opacity < 0 {
        0
    } else if opacity > OPAQUE {
        OPAQUE
    } else {
        opacity
    };
    ((c * 255 + 500_000) / 1_000_000) as u8
}

/// A path ready for compilation: its paint, and its segments in twips.
#[derive(Clone, Debug, PartialEq)]
pub struct PathInput {
    /// Fill colour, when the path is filled.
    pub fill: Option<Rgb>,
    /// Fill opacity in millionths.
    pub fill_opacity: i32,
    /// Stroke colour, when the path is stroked.
    pub stroke: Option<Rgb>,
    /// Stroke opacity in millionths.
    pub stroke_opacity: i32,
    /// Stroke width in twips.
    pub stroke_width: u16,
    pub segments: Vec<Segment>,
}

pub open spec fn with_alpha(c: Rgb, opacity: i32) -> Rgba {
    Rgba { r: c.r, g: c.g, b: c.b, a: alpha_of(opacity) }
}

/// The line style a stroke compiles to: round caps and joins.
pub open spec fn stroke_style(c: Rgb, opacity: i32, width: u16) -> LineStyle {
    LineStyle {
        width: width,
        start_cap: CapStyle::Round,
        end_cap: CapStyle::Round,
        join: JoinStyle::Round,
        no_h_scale: false,
        no_v_scale: false,
        no_close: false,
        pixel_hinting: false,
        fill: FillStyle::Solid(with_alpha(c, opacity)),
    }
}

pub open spec fn path_fills(p: PathInput) -> Seq<FillStyle> {
    match p.fill {
        Some(c) => seq![FillStyle::Solid(with_alpha(c, p.fill_opacity))],
        None => seq![],
    }
}

pub open spec fn path_lines(p: PathInput) -> Seq<LineStyle> {
    match p.stroke {
        Some(c) => seq![stroke_style(c, p.stroke_opacity, p.stroke_width)],
        None => seq![],
    }
}

pub open spec fn has_style(p: PathInput) -> bool {
    p.fill is Some || p.stroke is Some
}

/// How many of `paths` are filled.
pub open spec fn fill_count(paths: Seq<PathInput>) -> nat
    decreases paths.len(),
{
    if paths.len() == 0 {
        0
    } else {
        fill_count(paths.drop_last()) + if paths.last().fill is Some { 1nat } else { 0nat }
    }
}

/// How many of `paths` are stroked.
pub open spec fn line_count(paths: Seq<PathInput>) -> nat
    decreases paths.len(),
{
    if paths.len() == 0 {
        0
    } else {
        line_count(paths.drop_last()) + if paths.last().stroke is Some { 1nat } else { 0nat }
    }
}

/// The style-defining record of a path: it appends the path's styles and
/// selects them by their running 1-based indices `fills` and `lines`.
pub open spec fn is_style_record(r: ShapeRecord, p: PathInput, fills: nat, lines: nat) -> bool {
    match r {
        ShapeRecord::StyleChange(sc) => {
            &&& sc.move_to is None
            &&& sc.right_fill is None
            &&& sc.left_fill == (if p.fill is Some { Some(fills as usize) } else { None })
            &&& sc.line_style == (if p.stroke is Some { Some(lines as usize) } else { None })
            &&& sc.new_styles matches Some(st) && st.fill@ == path_fills(p) && st.line@ == path_lines(p)
        },
        _ => false,
    }
}

pub open spec fn origin() -> Vector2D {
    Vector2D { x: 0, y: 0 }
}

/// Each path is drawn from the origin; the shape's first move-to persists.
pub open spec fn path_pen(start: Option<Vector2D>) -> Pen {
    Pen { at: origin(), start: start }
}

/// The shape's first move-to after `paths`.
pub open spec fn start_after(paths: Seq<PathInput>) -> Option<Vector2D>
    decreases paths.len(),
{
    if paths.len() == 0 {
        None
    } else {
        trace_pen(path_pen(start_after(paths.drop_last())), paths.last().segments@).start
    }
}

/// `recs` is the record list that `paths` compile to: for each path in
/// order, its style-defining record when it has a fill or a stroke, then the
/// records of its segments.
pub open spec fn compiled(recs: Seq<ShapeRecord>, paths: Seq<PathInput>) -> bool
    decreases paths.len(),
{
    if paths.len() == 0 {
        recs.len() == 0
    } else {
        let init = paths.drop_last();
        let p = paths.last();
        let g = trace_records(path_pen(start_after(init)), p.segments@);
        let k: int = if has_style(p) { 1 } else { 0 };
        let n: int = recs.len() - g.len() - k;
        &&& n >= 0
        &&& compiled(recs.subrange(0, n), init)
        &&& (has_style(p) ==> is_style_record(recs[n], p, fill_count(paths), line_count(paths)))
        &&& recs.subrange(n + k, recs.len() as int) == g
    }
}

pub open spec fn paths_in_range(paths: Seq<PathInput>) -> bool {
    forall|i: int| 0 <= i < paths.len() ==> segments_in_range(#[trigger] paths[i].segments@)
}

pub proof fn lemma_start_in_range(paths: Seq<PathInput>)
    requires
        paths_in_range(paths),
    ensures
        pen_in_range(path_pen(start_after(paths))),
    decreases paths.len(),
{
    if paths.len() > 0 {
        let init = paths.drop_last();
        assert(paths_in_range(init)) by {
            assert forall|i: int| 0 <= i < init.len() implies segments_in_range(#[trigger] init[i].segments@) by {
                assert(init[i] == paths[i]);
            }
        }
        lemma_start_in_range(init);
        assert(segments_in_range(paths[paths.len() - 1].segments@));
        lemma_trace_pen_in_range(path_pen(start_after(init)), paths.last().segments@);
    }
}

pub proof fn lemma_counts_bounded(paths: Seq<PathInput>)
    ensures
        fill_count(paths) <= paths.len(),
        line_count(paths) <= paths.len(),
    decreases paths.len(),
{
    if paths.len() > 0 {
        lemma_counts_bounded(paths.drop_last());
    }
}

fn solid(c: Rgb, opacity: i32) -> (r: FillStyle)
    ensures
        r == FillStyle::Solid(with_alpha(c, opacity)),
{
    FillStyle::Solid(Rgba { r: c.r, g: c.g, b: c.b, a: opacity_to_alpha(opacity) })
}

/// The style-defining record of a path with a fill or a stroke.
fn style_record(p: &PathInput, fills: usize, lines: usize) -> (r: ShapeRecord)
    requires
        has_style(*p),
    ensures
        is_style_record(r, *p, fills as nat, lines as nat),
{
    let mut fill: Vec<FillStyle> = Vec::new();
    let mut line: Vec<LineStyle> = Vec::new();
    let mut left_fill: Option<usize> = None;
    let mut line_style: Option<usize> = None;
    if let Some(c) = p.fill {
        fill.push(solid(c, p.fill_opacity));
        left_fill = Some(fills);
    }
    if let Some(c) = p.stroke {
        line.push(LineStyle {
            width: p.stroke_width,
            start_cap: CapStyle::Round,
            end_cap: CapStyle::Round,
            join: JoinStyle::Round,
            no_h_scale: false,
            no_v_scale: false,
            no_close: false,
            pixel_hinting: false,
            fill: solid(c, p.stroke_opacity),
        });
        line_style = Some(lines);
    }
    proof {
        assert(fill@ =~= path_fills(*p));
        assert(line@ =~= path_lines(*p));
    }
    ShapeRecord::StyleChange(StyleChange {
        move_to: None,
        left_fill: left_fill,
        right_fill: None,
        line_style: line_style,
        new_styles: Some(ShapeStyles { fill: fill, line: line }),
    })
}

/// Compiles paths into shapes. All paths go into one shape, with an empty
/// initial style table; no shape comes out when no path adds a record.
pub fn compile_paths(paths: &Vec<PathInput>) -> (r: Vec<Shape>)
    requires
        paths_in_range(paths@),
    ensures
        r@.len() <= 1,
        r@.len() == 0 ==> compiled(seq![], paths@),
        r@.len() == 1 ==> {
            &&& compiled(r@[0].records@, paths@)
            &&& r@[0].records@.len() > 0
            &&& r@[0].initial_styles.fill@.len() == 0
            &&& r@[0].initial_styles.line@.len() == 0
        },
{
    let mut records: Vec<ShapeRecord> = Vec::new();
    let mut start: Option<Vector2D> = None;
    let mut fills: usize = 0;
    let mut lines: usize = 0;
    let mut i: usize = 0;
    proof {
        assert(paths@.subrange(0, 0) =~= Seq::<PathInput>::empty());
    }
    while i < paths.len()
        invariant
            0 <= i <= paths.len(),
            paths_in_range(paths@),
            compiled(records@, paths@.subrange(0, i as int)),
            start == start_after(paths@.subrange(0, i as int)),
            fills as nat == fill_count(paths@.subrange(0, i as int)),
            lines as nat == line_count(paths@.subrange(0, i as int)),
        decreases paths.len() - i,
    {
        let ghost before = records@;
        let ghost init = paths@.subrange(0, i as int);
        let ghost next = paths@.subrange(0, i + 1);
        let p = &paths[i];
        proof {
            assert(next.drop_last() =~= init);
            assert(next.last() == *p);
            lemma_counts_bounded(init);
            lemma_start_in_range(init);
        }
        if p.fill.is_some() {
            fills = fills + 1;
        }
        if p.stroke.is_some() {
            lines = lines + 1;
        }
        if p.fill.is_some() || p.stroke.is_some() {
            records.push(style_record(p, fills, lines));
        }
        let ghost styled = records@;
        let mut pen = Pen { at: Vector2D { x: 0, y: 0 }, start: start };
        assert(segments_in_range(paths@[i as int].segments@));
        draw_segments(&mut records, &mut pen, &p.segments);
        start = pen.start;
        proof {
            let g = trace_records(path_pen(start_after(init)), p.segments@);
            let k: int = if has_style(*p) { 1 } else { 0 };
            let n: int = records@.len() - g.len() - k;
            assert(n == before.len());
            assert(records@.subrange(0, n) =~= before);
            assert(records@.subrange(n + k, records@.len() as int) =~= g);
            if has_style(*p) {
                assert(records@[n] == styled[n]);
            }
        }
        i += 1;
    }
    proof {
        assert(paths@.subrange(0, paths@.len() as int) =~= paths@);
    }
    if records.len() == 0 {
        assert(records@ =~= seq![]);
        Vec::new()
    } else {
        let mut shapes: Vec<Shape> = Vec::new();
        shapes.push(Shape { initial_styles: ShapeStyles { fill: Vec::new(), line: Vec::new() }, records: records });
        shapes
    }
}

/// Sum of the x deltas of the edges among `recs`.
pub open spec fn edges_dx(recs: Seq<ShapeRecord>) -> int
    decreases recs.len(),
{
    if recs.len() == 0 {
        0
    } else {
        edges_dx(recs.drop_last()) + match recs.last() {
            ShapeRecord::Edge(e) => e.delta.x as int,
            _ => 0,
        }
    }
}

/// Sum of the y deltas of the edges among `recs`.
pub open spec fn edges_dy(recs: Seq<ShapeRecord>) -> int
    decreases recs.len(),
{
    if recs.len() == 0 {
        0
    } else {
        edges_dy(recs.drop_last()) + match recs.last() {
            ShapeRecord::Edge(e) => e.delta.y as int,
            _ => 0,
        }
    }
}

pub open spec fn is_straight(s: Segment) -> bool {
    s is MoveTo || s is LineTo || s is Close
}

/// A path made of moves, lines and closes compiles to move records and
/// straight edges only: no edge carries a control delta.
pub proof fn lemma_straight_segments_give_straight_edges(pen: Pen, segs: Seq<Segment>)
    requires
        forall|i: int| 0 <= i < segs.len() ==> is_straight(#[trigger] segs[i]),
    ensures
        forall|j: int| 0 <= j < trace_records(pen, segs).len() ==> match #[trigger] trace_records(pen, segs)[j] {
            ShapeRecord::Edge(e) => e.control_delta is None,
            ShapeRecord::StyleChange(sc) => sc.new_styles is None && sc.move_to is Some,
        },
    decreases segs.len(),
{
    if segs.len() > 0 {
        let init = segs.drop_last();
        assert forall|i: int| 0 <= i < init.len() implies is_straight(#[trigger] init[i]) by {
            assert(init[i] == segs[i]);
        }
        lemma_straight_segments_give_straight_edges(pen, init);
        assert(is_straight(segs[segs.len() - 1]));
        let a = trace_records(pen, init);
        let b = segment_records(trace_pen(pen, init), segs.last());
        assert(trace_records(pen, segs) == a + b);
        assert forall|j: int| 0 <= j < (a + b).len() implies match #[trigger] (a + b)[j] {
            ShapeRecord::Edge(e) => e.control_delta is None,
            ShapeRecord::StyleChange(sc) => sc.new_styles is None && sc.move_to is Some,
        } by {
            if j >= a.len() {
                assert((a + b)[j] == b[j - a.len()]);
            } else {
                assert((a + b)[j] == a[j]);
            }
        }
    }
}

/// The segments of a closed polyline: a move to `p`, lines through `points`,
/// then a close.
pub open spec fn closed_polyline(p: Vector2D, points: Seq<Vector2D>) -> Seq<Segment> {
    seq![Segment::MoveTo(p)] + points.map_values(|q: Vector2D| Segment::LineTo(q)) + seq![Segment::Close]
}

pub open spec fn open_polyline(p: Vector2D, points: Seq<Vector2D>, k: int) -> Seq<Segment> {
    seq![Segment::MoveTo(p)] + points.take(k).map_values(|q: Vector2D| Segment::LineTo(q))
}

pub open spec fn polyline_end(p: Vector2D, points: Seq<Vector2D>, k: int) -> Vector2D {
    if k == 0 { p } else { points[k - 1] }
}

proof fn lemma_open_polyline(pen: Pen, p: Vector2D, points: Seq<Vector2D>, k: int)
    requires
        pen.start is None,
        pen_in_range(pen),
        point_in_range(p),
        forall|i: int| 0 <= i < points.len() ==> point_in_range(#[trigger] points[i]),
        0 <= k <= points.len(),
    ensures
        trace_pen(pen, open_polyline(p, points, k)) == (Pen { at: polyline_end(p, points, k), start: Some(p) }),
        edges_dx(trace_records(pen, open_polyline(p, points, k))) == polyline_end(p, points, k).x - p.x,
        edges_dy(trace_records(pen, open_polyline(p, points, k))) == polyline_end(p, points, k).y - p.y,
    decreases k,
{
    let segs = open_polyline(p, points, k);
    if k == 0 {
        assert(segs =~= seq![Segment::MoveTo(p)]);
        assert(segs.drop_last() =~= Seq::<Segment>::empty());
        assert(segs.last() == Segment::MoveTo(p));
        assert(trace_records(pen, segs.drop_last()) == Seq::<ShapeRecord>::empty());
        assert(trace_pen(pen, segs.drop_last()) == pen);
        let r = trace_records(pen, segs);
        assert(r =~= seq![move_record(p)]);
        assert(r.drop_last() =~= Seq::<ShapeRecord>::empty());
        assert(edges_dx(r.drop_last()) == 0);
        assert(edges_dy(r.drop_last()) == 0);
        assert(r.last() == move_record(p));
        assert(edges_dx(r) == 0);
        assert(edges_dy(r) == 0);
    } else {
        let prev = open_polyline(p, points, k - 1);
        assert(segs.drop_last() =~= prev);
        assert(segs.last() == Segment::LineTo(points[k - 1]));
        lemma_open_polyline(pen, p, points, k - 1);
        let pp = trace_pen(pen, prev);
        assert(point_in_range(pp.at));
        assert(point_in_range(points[k - 1]));
        let r = trace_records(pen, segs);
        assert(r.drop_last() =~= trace_records(pen, prev));
        assert(r.last() == line_record(spec_delta(pp.at, points[k - 1])));
        assert(edges_dx(r) == edges_dx(r.drop_last()) + (points[k - 1].x - pp.at.x));
        assert(trace_pen(pen, segs).at == points[k - 1]);
        assert(edges_dy(r) == edges_dy(r.drop_last()) + (points[k - 1].y - pp.at.y));
    }
}

/// A closed path of straight segments, started on a fresh shape, returns to
/// its first point: the deltas of its edges sum to at most one unit on
/// each axis (zero whenever the close draws an edge).
pub proof fn lemma_closed_polyline_returns(pen: Pen, p: Vector2D, points: Seq<Vector2D>)
    requires
        pen.start is None,
        pen_in_range(pen),
        point_in_range(p),
        forall|i: int| 0 <= i < points.len() ==> point_in_range(#[trigger] points[i]),
    ensures
        -1 <= edges_dx(trace_records(pen, closed_polyline(p, points))) <= 1,
        -1 <= edges_dy(trace_records(pen, closed_polyline(p, points))) <= 1,
{
    let n = points.len() as int;
    let segs = closed_polyline(p, points);
    let open = open_polyline(p, points, n);
    assert(points.take(n) =~= points);
    assert(segs.drop_last() =~= open);
    assert(segs.last() == Segment::Close);
    lemma_open_polyline(pen, p, points, n);
    let pp = trace_pen(pen, open);
    let r = trace_records(pen, segs);
    let r0 = trace_records(pen, open);
    assert(r == r0 + segment_records(pp, Segment::Close));
    if apart(pp.at, p) {
        assert(r.drop_last() =~= r0);
    } else {
        assert(r =~= r0);
    }
}

/// A cubic segment compiles to exactly two edges, each with a control delta.
pub proof fn lemma_cubic_gives_two_curves(pen: Pen, control1: Vector2D, control2: Vector2D, to: Vector2D)
    ensures
        segment_records(pen, Segment::CubicTo { control1, control2, to }).len() == 2,
        forall|j: int| 0 <= j < 2 ==> match #[trigger] segment_records(pen, Segment::CubicTo { control1, control2, to })[j] {
            ShapeRecord::Edge(e) => e.control_delta is Some,
            _ => false,
        },
{
}

/// How many edges are among `recs`.
pub open spec fn edge_count(recs: Seq<ShapeRecord>) -> nat
    decreases recs.len(),
{
    if recs.len() == 0 {
        0
    } else {
        edge_count(recs.drop_last()) + if recs.last() is Edge { 1nat } else { 0nat }
    }
}

proof fn lemma_sums_concat(a: Seq<ShapeRecord>, b: Seq<ShapeRecord>)
    ensures
        edges_dx(a + b) == edges_dx(a) + edges_dx(b),
        edges_dy(a + b) == edges_dy(a) + edges_dy(b),
        edge_count(a + b) == edge_count(a) + edge_count(b),
    decreases b.len(),
{
    if b.len() == 0 {
        assert(a + b =~= a);
    } else {
        assert((a + b).drop_last() =~= a + b.drop_last());
        assert((a + b).last() == b.last());
        lemma_sums_concat(a, b.drop_last());
    }
}

/// What one path compiles to on a fresh shape: its style-defining record
/// when it has a fill or a stroke, then the records of its segments.
proof fn lemma_single_path(recs: Seq<ShapeRecord>, p: PathInput)
    requires
        compiled(recs, seq![p]),
    ensures
        ({
            let k: int = if has_style(p) { 1 } else { 0 };
            &&& recs.len() == k + trace_records(path_pen(None), p.segments@).len()
            &&& recs.subrange(k, recs.len() as int) == trace_records(path_pen(None), p.segments@)
            &&& recs == recs.subrange(0, k) + recs.subrange(k, recs.len() as int)
            &&& (k == 1 ==> recs[0] is StyleChange)
        }),
{
    let one = seq![p];
    let none = Seq::<PathInput>::empty();
    assert(one.drop_last() =~= none);
    assert(one.last() == p);
    assert(start_after(none) == None::<Vector2D>);
    let g = trace_records(path_pen(None), p.segments@);
    let k: int = if has_style(p) { 1 } else { 0 };
    let n: int = recs.len() - g.len() - k;
    assert(compiled(recs.subrange(0, n), none));
    assert(recs.subrange(0, n).len() == 0);
    assert(n == 0);
    if has_style(p) {
        assert(is_style_record(recs[0], p, fill_count(one), line_count(one)));
    }
    assert(recs =~= recs.subrange(0, k) + recs.subrange(k, recs.len() as int));
}

/// A style-defining record adds no edge and moves nothing.
proof fn lemma_style_prefix(recs: Seq<ShapeRecord>, k: int)
    requires
        0 <= k <= 1,
        k <= recs.len(),
        k == 1 ==> recs[0] is StyleChange,
    ensures
        edges_dx(recs.subrange(0, k)) == 0,
        edges_dy(recs.subrange(0, k)) == 0,
        edge_count(recs.subrange(0, k)) == 0,
{
    let pre = recs.subrange(0, k);
    let empty = Seq::<ShapeRecord>::empty();
    assert(edges_dx(empty) == 0 && edges_dy(empty) == 0 && edge_count(empty) == 0);
    if k == 1 {
        assert(pre.drop_last() =~= empty);
        assert(pre.last() == recs[0]);
    } else {
        assert(pre =~= empty);
    }
}

/// A single path made of a move, lines and a close compiles, through
/// `compile_paths`, to straight edges whose deltas sum to at most one unit
/// on each axis: the outline returns to its start.
pub proof fn lemma_compiled_closed_polyline_returns(recs: Seq<ShapeRecord>, p: PathInput, start: Vector2D, points: Seq<Vector2D>)
    requires
        compiled(recs, seq![p]),
        p.segments@ == closed_polyline(start, points),
        point_in_range(start),
        forall|i: int| 0 <= i < points.len() ==> point_in_range(#[trigger] points[i]),
    ensures
        -1 <= edges_dx(recs) <= 1,
        -1 <= edges_dy(recs) <= 1,
        forall|j: int| 0 <= j < recs.len() && #[trigger] recs[j] is Edge ==> recs[j]->Edge_0.control_delta is None,
{
    let k: int = if has_style(p) { 1 } else { 0 };
    let segs = p.segments@;
    let g = trace_records(path_pen(None), segs);
    lemma_single_path(recs, p);
    lemma_style_prefix(recs, k);
    lemma_sums_concat(recs.subrange(0, k), g);
    lemma_closed_polyline_returns(path_pen(None), start, points);
    assert forall|i: int| 0 <= i < segs.len() implies is_straight(#[trigger] segs[i]) by {
        let n = points.len() as int;
        if i == 0 {
            assert(segs[i] == Segment::MoveTo(start));
        } else if i <= n {
            assert(segs[i] == Segment::LineTo(points[i - 1]));
        } else {
            assert(segs[i] == Segment::Close);
        }
    }
    lemma_straight_segments_give_straight_edges(path_pen(None), segs);
    assert forall|j: int| 0 <= j < recs.len() && #[trigger] recs[j] is Edge implies recs[j]->Edge_0.control_delta is None by {
        if j >= k {
            assert(recs[j] == g[j - k]);
        }
    }
}

/// The segments of a move to `start` followed by cubic curves.
pub open spec fn cubic_path(start: Vector2D, cubics: Seq<Segment>, n: int) -> Seq<Segment> {
    seq![Segment::MoveTo(start)] + cubics.take(n)
}

proof fn lemma_cubic_trace(pen: Pen, start: Vector2D, cubics: Seq<Segment>, n: int)
    requires
        0 <= n <= cubics.len(),
        forall|i: int| 0 <= i < cubics.len() ==> #[trigger] cubics[i] is CubicTo,
    ensures
        edge_count(trace_records(pen, cubic_path(start, cubics, n))) == 2 * n,
        forall|j: int| 0 <= j < trace_records(pen, cubic_path(start, cubics, n)).len()
            && #[trigger] trace_records(pen, cubic_path(start, cubics, n))[j] is Edge
            ==> trace_records(pen, cubic_path(start, cubics, n))[j]->Edge_0.control_delta is Some,
    decreases n,
{
    let segs = cubic_path(start, cubics, n);
    let t = trace_records(pen, segs);
    if n == 0 {
        assert(segs =~= seq![Segment::MoveTo(start)]);
        assert(segs.drop_last() =~= Seq::<Segment>::empty());
        assert(trace_records(pen, segs.drop_last()) == Seq::<ShapeRecord>::empty());
        assert(t =~= seq![move_record(start)]);
        assert(t.drop_last() =~= Seq::<ShapeRecord>::empty());
        assert(edge_count(t.drop_last()) == 0);
        assert(t.last() == move_record(start));
    } else {
        let prev = cubic_path(start, cubics, n - 1);
        assert(segs.drop_last() =~= prev);
        assert(segs.last() == cubics[n - 1]);
        lemma_cubic_trace(pen, start, cubics, n - 1);
        let a = trace_records(pen, prev);
        let c = cubics[n - 1];
        let b = segment_records(trace_pen(pen, prev), c);
        assert(t == a + b);
        lemma_cubic_gives_two_curves(trace_pen(pen, prev), c->control1, c->control2, c->CubicTo_to);
        assert(b.drop_last().drop_last() =~= Seq::<ShapeRecord>::empty());
        assert(b.drop_last().last() == b[0]);
        assert(b.last() == b[1]);
        assert(b[0] is Edge && b[1] is Edge);
        assert(edge_count(b.drop_last().drop_last()) == 0);
        assert(edge_count(b.drop_last()) == 1);
        assert(edge_count(b) == 2);
        lemma_sums_concat(a, b);
        assert forall|j: int| 0 <= j < t.len() && #[trigger] t[j] is Edge implies t[j]->Edge_0.control_delta is Some by {
            if j >= a.len() {
                assert(t[j] == b[j - a.len()]);
            } else {
                assert(t[j] == a[j]);
            }
        }
    }
}

/// A single path of a move followed by n cubic curves compiles, through
/// `compile_paths`, to exactly 2n edges, every one of them curved.
pub proof fn lemma_compiled_cubics_split_in_two(recs: Seq<ShapeRecord>, p: PathInput, start: Vector2D, cubics: Seq<Segment>)
    requires
        compiled(recs, seq![p]),
        p.segments@ == seq![Segment::MoveTo(start)] + cubics,
        forall|i: int| 0 <= i < cubics.len() ==> #[trigger] cubics[i] is CubicTo,
    ensures
        edge_count(recs) == 2 * cubics.len(),
        forall|j: int| 0 <= j < recs.len() && #[trigger] recs[j] is Edge ==> recs[j]->Edge_0.control_delta is Some,
{
    let k: int = if has_style(p) { 1 } else { 0 };
    let n = cubics.len() as int;
    assert(cubics.take(n) =~= cubics);
    assert(p.segments@ == cubic_path(start, cubics, n));
    let g = trace_records(path_pen(None), p.segments@);
    lemma_single_path(recs, p);
    lemma_style_prefix(recs, k);
    lemma_sums_concat(recs.subrange(0, k), g);
    lemma_cubic_trace(path_pen(None), start, cubics, n);
    assert forall|j: int| 0 <= j < recs.len() && #[trigger] recs[j] is Edge implies recs[j]->Edge_0.control_delta is Some by {
        if j >= k {
            assert(recs[j] == g[j - k]);
        }
    }
}

} // verus!
