//! Transparency conversion: shapes whose fills become fully transparent,
//! on a movie version that supports alpha.
use vstd::prelude::*;
use crate::model::{DefineShape, FillStyle, Header, Movie, Rgba, Shape, ShapeStyles, Tag};

verus! {

/// The first format version whose shapes carry alpha.
pub const ALPHA_VERSION: u8 = 8;

/// The version after conversion: raised to `ALPHA_VERSION`, never lowered.
pub open spec fn raised_version(v: u8) -> u8 {
    if v < ALPHA_VERSION { ALPHA_VERSION } else { v }
}

pub open spec fn clear() -> FillStyle {
    FillStyle::Solid(Rgba { r: 0, g: 0, b: 0, a: 0 })
}

/// The id of a shape definition.
pub open spec fn shape_id_at(t: Tag) -> Option<u16> {
    match t {
        Tag::DefineShape(d) => Some(d.id),
        _ => None,
    }
}

/// Whether the tag at `i` is the first shape definition with an id in `ids`.
pub open spec fn targeted(tags: Seq<Tag>, ids: Seq<u16>, i: int) -> bool {
    &&& 0 <= i < tags.len()
    &&& shape_id_at(tags[i]) matches Some(x)
    &&& ids.contains(x)
    &&& forall|j: int| 0 <= j < i ==> shape_id_at(#[trigger] tags[j]) != Some(x)
}

/// `n` is the transparent form of shape definition `o`: the same id, bounds,
/// stroke flags and records, two fully transparent solid fills, no line
/// styles, no edge bounds and no fill winding.
pub open spec fn is_transparent_form(o: Tag, n: Tag) -> bool {
    match (o, n) {
        (Tag::DefineShape(a), Tag::DefineShape(b)) => {
            &&& b.id == a.id
            &&& b.bounds == a.bounds
            &&& b.edge_bounds is None
            &&& !b.has_fill_winding
            &&& b.has_non_scaling_strokes == a.has_non_scaling_strokes
            &&& b.has_scaling_strokes == a.has_scaling_strokes
            &&& b.shape.records == a.shape.records
            &&& b.shape.initial_styles.fill@ == seq![clear(), clear()]
            &&& b.shape.initial_styles.line@.len() == 0
        },
        _ => false,
    }
}

pub open spec fn converted(old: Seq<Tag>, new: Seq<Tag>, ids: Seq<u16>) -> bool {
    &&& new.len() == old.len()
    &&& forall|i: int| 0 <= i < old.len() ==> if targeted(old, ids, i) {
        is_transparent_form(#[trigger] old[i], new[i])
    } else {
        new[i] == old[i]
    }
}

fn transparent_form(d: DefineShape) -> (r: DefineShape)
    ensures
        is_transparent_form(Tag::DefineShape(d), Tag::DefineShape(r)),
{
    let DefineShape { id, bounds, edge_bounds: _, has_fill_winding: _, has_non_scaling_strokes, has_scaling_strokes, shape } = d;
    let mut fill: Vec<FillStyle> = Vec::new();
    fill.push(FillStyle::Solid(Rgba { r: 0, g: 0, b: 0, a: 0 }));
    fill.push(FillStyle::Solid(Rgba { r: 0, g: 0, b: 0, a: 0 }));
    proof {
        assert(fill@ =~= seq![clear(), clear()]);
    }
    DefineShape {
        id,
        bounds,
        edge_bounds: None,
        has_fill_winding: false,
        has_non_scaling_strokes,
        has_scaling_strokes,
        shape: Shape { initial_styles: ShapeStyles { fill, line: Vec::new() }, records: shape.records },
    }
}

fn shape_id_of(t: &Tag) -> (r: Option<u16>)
    ensures
        r == shape_id_at(*t),
{
    match t {
        Tag::DefineShape(d) => Some(d.id),
        _ => None,
    }
}

/// Makes the listed shapes transparent: raises the movie's version to
/// `ALPHA_VERSION` when below it, and gives the first shape definition of
/// each listed id two fully transparent fills. Ids without a shape
/// definition are skipped.
pub fn apply_transparency(movie: &mut Movie, shape_ids: &Vec<u16>)
    ensures
        final(movie).header == (Header { swf_version: raised_version(old(movie).header.swf_version), ..old(movie).header }),
        converted(old(movie).tags@, final(movie).tags@, shape_ids@),
{
    if movie.header.swf_version < ALPHA_VERSION {
        movie.header.swf_version = ALPHA_VERSION;
    }
    let ghost orig = old(movie).tags@;
    let mut k: usize = 0;
    while k < shape_ids.len()
        invariant
            0 <= k <= shape_ids.len(),
            orig == old(movie).tags@,
            movie.header == (Header { swf_version: raised_version(old(movie).header.swf_version), ..old(movie).header }),
            converted(orig, movie.tags@, shape_ids@.subrange(0, k as int)),
        decreases shape_ids.len() - k,
    {
        let id = shape_ids[k];
        let ghost done = shape_ids@.subrange(0, k as int);
        let ghost next = shape_ids@.subrange(0, k + 1);
        proof {
            assert(next =~= done.push(id));
            assert forall|i: int| 0 <= i < orig.len() implies shape_id_at(#[trigger] movie.tags@[i]) == shape_id_at(orig[i]) by {
                if targeted(orig, done, i) {
                    assert(is_transparent_form(orig[i], movie.tags@[i]));
                }
            }
        }
        let mut i: usize = 0;
        let mut found = false;
        while i < movie.tags.len()
            invariant_except_break
                !found,
            invariant
                0 <= i <= movie.tags.len(),
                movie.tags@.len() == orig.len(),
                forall|j: int| 0 <= j < orig.len() ==> shape_id_at(#[trigger] movie.tags@[j]) == shape_id_at(orig[j]),
                forall|j: int| 0 <= j < i ==> shape_id_at(#[trigger] orig[j]) != Some(id),
            ensures
                found ==> i < movie.tags.len() && shape_id_at(orig[i as int]) == Some(id),
                !found ==> i == movie.tags.len(),
            decreases movie.tags.len() - i,
        {
            if shape_id_of(&movie.tags[i]) == Some(id) {
                found = true;
                break;
            }
            i += 1;
        }
        let ghost before = movie.tags@;
        if found {
            let t = movie.tags.remove(i);
            match t {
                Tag::DefineShape(d) => {
                    movie.tags.insert(i, Tag::DefineShape(transparent_form(d)));
                },
                other => {
                    movie.tags.insert(i, other);
                },
            }
        }
        proof {
            assert forall|j: int| 0 <= j < orig.len() implies if targeted(orig, next, j) {
                is_transparent_form(#[trigger] orig[j], movie.tags@[j])
            } else {
                movie.tags@[j] == orig[j]
            } by {
                if found && j == i {
                    assert(shape_id_at(orig[j]) == Some(id));
                    assert(next.contains(id)) by {
                        assert(next[k as int] == id);
                    }
                    assert(targeted(orig, next, j));
                    if targeted(orig, done, j) {
                        assert(is_transparent_form(orig[j], before[j]));
                    }
                } else {
                    if found {
                        assert(movie.tags@[j] == before[j]);
                    }
                    if targeted(orig, next, j) && !targeted(orig, done, j) {
                        let x = shape_id_at(orig[j])->Some_0;
                        let w = choose|w: int| 0 <= w < next.len() && next[w] == x;
                        if w < done.len() {
                            assert(done[w] == x);
                            assert(done.contains(x));
                        }
                        assert(x == id);
                        if !found {
                            assert(false);
                        } else {
                            assert(j > i);
                            assert(shape_id_at(orig[i as int]) == Some(id));
                            assert(false);
                        }
                    }
                    if targeted(orig, done, j) {
                        let x = shape_id_at(orig[j])->Some_0;
                        let w = choose|w: int| 0 <= w < done.len() && done[w] == x;
                        assert(next[w] == x);
                        assert(targeted(orig, next, j));
                    }
                }
            }
        }
        k += 1;
    }
    proof {
        assert(shape_ids@.subrange(0, shape_ids@.len() as int) =~= shape_ids@);
    }
}

/// Conversion raises a version below `ALPHA_VERSION` to exactly that
/// version and never lowers one.
pub proof fn lemma_version_only_raised(v: u8)
    ensures
        raised_version(v) >= v,
        v < ALPHA_VERSION ==> raised_version(v) == ALPHA_VERSION,
        v >= ALPHA_VERSION ==> raised_version(v) == v,
{
}

} // verus!
