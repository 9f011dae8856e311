//! The movie-level patch steps in their fixed order: stage bounds, tag
//! modifications, new elements, removal.
use vstd::prelude::*;
use crate::config::{rect_of, bounds_to_rect, CompiledShape, NewBitmap, NewButton, NewElements, NewScene, NewSprite, NewText, SwfModification};
use crate::lifecycle::{removal, views, RemoveElements, bitmaps_added, buttons_added, scenes_added, shapes_added, sprites_added, texts_added, add_new_bitmap, add_new_button, add_new_scenes, add_new_shape, add_new_sprite, add_new_text, remove_swf_elements, AddError};
use crate::model::{Header, Movie, Tag};
use crate::patch::{apply_tag_modifications, patch_all, PatchError};

verus! {

/// Why a movie-level patch failed.
#[derive(Debug, PartialEq)]
pub enum ModifyError {
    Patch(PatchError),
    Add(AddError),
}

/// Adds the shapes of `items` in order.
fn add_shapes(movie: &mut Movie, items: Vec<CompiledShape>) -> (r: Result<(), AddError>)
    ensures
        final(movie).header == old(movie).header,
        match shapes_added(old(movie).tags@, items@) {
            Ok(t) => r is Ok && final(movie).tags@ == t,
            Err(e) => r == Err::<(), AddError>(e),
        },
{
    let ghost orig = items@;
    let mut rest = items;
    let mut k: usize = 0;
    let total = rest.len();
    proof {
        assert(orig.subrange(0, 0) =~= Seq::<CompiledShape>::empty());
    }
    while rest.len() > 0
        invariant
            k + rest@.len() == orig.len(),
            orig.len() == total,
            orig == items@,
            rest@ == orig.subrange(k as int, orig.len() as int),
            movie.header == old(movie).header,
            shapes_added(old(movie).tags@, orig.subrange(0, k as int)) == Ok::<Seq<Tag>, AddError>(movie.tags@),
        decreases rest@.len(),
    {
        let item = rest.remove(0);
        proof {
            assert(orig.subrange(0, k + 1).drop_last() =~= orig.subrange(0, k as int));
            assert(orig.subrange(0, k + 1).last() == item);
        }
        match add_new_shape(movie, item) {
            Ok(_) => {},
            Err(e) => {
                proof {
                    lemma_shapes_added_stops(old(movie).tags@, orig, k as int + 1);
                }
                return Err(e);
            },
        }
        k += 1;
        proof {
            assert(rest@ =~= orig.subrange(k as int, orig.len() as int));
        }
    }
    proof {
        assert(orig.subrange(0, k as int) =~= orig);
    }
    Ok(())
}

proof fn lemma_shapes_added_stops(tags: Seq<Tag>, items: Seq<CompiledShape>, n: int)
    requires
        0 <= n <= items.len(),
        shapes_added(tags, items.subrange(0, n)) is Err,
    ensures
        shapes_added(tags, items) == shapes_added(tags, items.subrange(0, n)),
    decreases items.len() - n,
{
    if n == items.len() {
        assert(items.subrange(0, n) =~= items);
    } else {
        assert(items.subrange(0, n + 1).drop_last() =~= items.subrange(0, n));
        lemma_shapes_added_stops(tags, items, n + 1);
    }
}

fn add_sprites(movie: &mut Movie, items: Vec<NewSprite>) -> (r: Result<(), AddError>)
    ensures
        final(movie).header == old(movie).header,
        match sprites_added(old(movie).tags@, items@) {
            Ok(t) => r is Ok && final(movie).tags@ == t,
            Err(e) => r == Err::<(), AddError>(e),
        },
{
    let ghost orig = items@;
    let mut rest = items;
    let mut k: usize = 0;
    let total = rest.len();
    proof {
        assert(orig.subrange(0, 0) =~= Seq::<NewSprite>::empty());
    }
    while rest.len() > 0
        invariant
            k + rest@.len() == orig.len(),
            orig.len() == total,
            orig == items@,
            rest@ == orig.subrange(k as int, orig.len() as int),
            movie.header == old(movie).header,
            sprites_added(old(movie).tags@, orig.subrange(0, k as int)) == Ok::<Seq<Tag>, AddError>(movie.tags@),
        decreases rest@.len(),
    {
        let item = rest.remove(0);
        proof {
            assert(orig.subrange(0, k + 1).drop_last() =~= orig.subrange(0, k as int));
            assert(orig.subrange(0, k + 1).last() == item);
        }
        match add_new_sprite(movie, item) {
            Ok(_) => {},
            Err(e) => {
                proof {
                    lemma_sprites_added_stops(old(movie).tags@, orig, k as int + 1);
                }
                return Err(e);
            },
        }
        k += 1;
        proof {
            assert(rest@ =~= orig.subrange(k as int, orig.len() as int));
        }
    }
    proof {
        assert(orig.subrange(0, k as int) =~= orig);
    }
    Ok(())
}

proof fn lemma_sprites_added_stops(tags: Seq<Tag>, items: Seq<NewSprite>, n: int)
    requires
        0 <= n <= items.len(),
        sprites_added(tags, items.subrange(0, n)) is Err,
    ensures
        sprites_added(tags, items) == sprites_added(tags, items.subrange(0, n)),
    decreases items.len() - n,
{
    if n == items.len() {
        assert(items.subrange(0, n) =~= items);
    } else {
        assert(items.subrange(0, n + 1).drop_last() =~= items.subrange(0, n));
        lemma_sprites_added_stops(tags, items, n + 1);
    }
}

fn add_texts(movie: &mut Movie, items: Vec<NewText>) -> (r: Result<(), AddError>)
    ensures
        final(movie).header == old(movie).header,
        match texts_added(old(movie).tags@, items@) {
            Ok(t) => r is Ok && final(movie).tags@ == t,
            Err(e) => r == Err::<(), AddError>(e),
        },
{
    let ghost orig = items@;
    let mut rest = items;
    let mut k: usize = 0;
    let total = rest.len();
    proof {
        assert(orig.subrange(0, 0) =~= Seq::<NewText>::empty());
    }
    while rest.len() > 0
        invariant
            k + rest@.len() == orig.len(),
            orig.len() == total,
            orig == items@,
            rest@ == orig.subrange(k as int, orig.len() as int),
            movie.header == old(movie).header,
            texts_added(old(movie).tags@, orig.subrange(0, k as int)) == Ok::<Seq<Tag>, AddError>(movie.tags@),
        decreases rest@.len(),
    {
        let item = rest.remove(0);
        proof {
            assert(orig.subrange(0, k + 1).drop_last() =~= orig.subrange(0, k as int));
            assert(orig.subrange(0, k + 1).last() == item);
        }
        match add_new_text(movie, item) {
            Ok(_) => {},
            Err(e) => {
                proof {
                    lemma_texts_added_stops(old(movie).tags@, orig, k as int + 1);
                }
                return Err(e);
            },
        }
        k += 1;
        proof {
            assert(rest@ =~= orig.subrange(k as int, orig.len() as int));
        }
    }
    proof {
        assert(orig.subrange(0, k as int) =~= orig);
    }
    Ok(())
}

proof fn lemma_texts_added_stops(tags: Seq<Tag>, items: Seq<NewText>, n: int)
    requires
        0 <= n <= items.len(),
        texts_added(tags, items.subrange(0, n)) is Err,
    ensures
        texts_added(tags, items) == texts_added(tags, items.subrange(0, n)),
    decreases items.len() - n,
{
    if n == items.len() {
        assert(items.subrange(0, n) =~= items);
    } else {
        assert(items.subrange(0, n + 1).drop_last() =~= items.subrange(0, n));
        lemma_texts_added_stops(tags, items, n + 1);
    }
}

fn add_bitmaps(movie: &mut Movie, items: Vec<NewBitmap>) -> (r: Result<(), AddError>)
    ensures
        final(movie).header == old(movie).header,
        match bitmaps_added(old(movie).tags@, items@) {
            Ok(t) => r is Ok && final(movie).tags@ == t,
            Err(e) => r == Err::<(), AddError>(e),
        },
{
    let ghost orig = items@;
    let mut rest = items;
    let mut k: usize = 0;
    let total = rest.len();
    proof {
        assert(orig.subrange(0, 0) =~= Seq::<NewBitmap>::empty());
    }
    while rest.len() > 0
        invariant
            k + rest@.len() == orig.len(),
            orig.len() == total,
            orig == items@,
            rest@ == orig.subrange(k as int, orig.len() as int),
            movie.header == old(movie).header,
            bitmaps_added(old(movie).tags@, orig.subrange(0, k as int)) == Ok::<Seq<Tag>, AddError>(movie.tags@),
        decreases rest@.len(),
    {
        let item = rest.remove(0);
        proof {
            assert(orig.subrange(0, k + 1).drop_last() =~= orig.subrange(0, k as int));
            assert(orig.subrange(0, k + 1).last() == item);
        }
        match add_new_bitmap(movie, item) {
            Ok(_) => {},
            Err(e) => {
                proof {
                    lemma_bitmaps_added_stops(old(movie).tags@, orig, k as int + 1);
                }
                return Err(e);
            },
        }
        k += 1;
        proof {
            assert(rest@ =~= orig.subrange(k as int, orig.len() as int));
        }
    }
    proof {
        assert(orig.subrange(0, k as int) =~= orig);
    }
    Ok(())
}

proof fn lemma_bitmaps_added_stops(tags: Seq<Tag>, items: Seq<NewBitmap>, n: int)
    requires
        0 <= n <= items.len(),
        bitmaps_added(tags, items.subrange(0, n)) is Err,
    ensures
        bitmaps_added(tags, items) == bitmaps_added(tags, items.subrange(0, n)),
    decreases items.len() - n,
{
    if n == items.len() {
        assert(items.subrange(0, n) =~= items);
    } else {
        assert(items.subrange(0, n + 1).drop_last() =~= items.subrange(0, n));
        lemma_bitmaps_added_stops(tags, items, n + 1);
    }
}

fn add_buttons(movie: &mut Movie, items: Vec<NewButton>)
    ensures
        final(movie).header == old(movie).header,
        final(movie).tags@ == buttons_added(old(movie).tags@, items@),
{
    let ghost orig = items@;
    let mut rest = items;
    let mut k: usize = 0;
    let total = rest.len();
    proof {
        assert(orig.subrange(0, 0) =~= Seq::<NewButton>::empty());
    }
    while rest.len() > 0
        invariant
            k + rest@.len() == orig.len(),
            orig.len() == total,
            orig == items@,
            rest@ == orig.subrange(k as int, orig.len() as int),
            movie.header == old(movie).header,
            movie.tags@ == buttons_added(old(movie).tags@, orig.subrange(0, k as int)),
        decreases rest@.len(),
    {
        let item = rest.remove(0);
        proof {
            assert(orig.subrange(0, k + 1).drop_last() =~= orig.subrange(0, k as int));
            assert(orig.subrange(0, k + 1).last() == item);
        }
        add_new_button(movie, item);
        k += 1;
        proof {
            assert(rest@ =~= orig.subrange(k as int, orig.len() as int));
        }
    }
    proof {
        assert(orig.subrange(0, k as int) =~= orig);
    }
}

/// The tags after every addition but the scenes, in the fixed order:
/// shapes, sprites, texts, bitmaps, buttons.
pub open spec fn elements_added(tags: Seq<Tag>, e: NewElements) -> Result<Seq<Tag>, AddError> {
    let a = match e.shapes {
        Some(v) => shapes_added(tags, v@),
        None => Ok(tags),
    };
    let b = match (a, e.sprites) {
        (Ok(t), Some(v)) => sprites_added(t, v@),
        _ => a,
    };
    let c = match (b, e.texts) {
        (Ok(t), Some(v)) => texts_added(t, v@),
        _ => b,
    };
    let d = match (c, e.bitmaps) {
        (Ok(t), Some(v)) => bitmaps_added(t, v@),
        _ => c,
    };
    match (d, e.buttons) {
        (Ok(t), Some(v)) => Ok(buttons_added(t, v@)),
        _ => d,
    }
}

/// Adds new elements in a fixed order (shapes, sprites, texts, bitmaps,
/// buttons, scenes); each element without an id gets the next free one,
/// counting the elements added before it. Stops at the first failure.
pub fn add_new_elements(movie: &mut Movie, elements: NewElements) -> (r: Result<(), AddError>)
    ensures
        final(movie).header == old(movie).header,
        match elements_added(old(movie).tags@, elements) {
            Err(e) => r == Err::<(), AddError>(e),
            Ok(t) => r is Ok && match elements.scenes {
                None => final(movie).tags@ == t,
                Some(sc) => scenes_added(t, final(movie).tags@, sc@),
            },
        },
{
    let NewElements { shapes, sprites, texts, bitmaps, buttons, scenes } = elements;
    if let Some(items) = shapes {
        add_shapes(movie, items)?;
    }
    if let Some(items) = sprites {
        add_sprites(movie, items)?;
    }
    if let Some(items) = texts {
        add_texts(movie, items)?;
    }
    if let Some(items) = bitmaps {
        add_bitmaps(movie, items)?;
    }
    if let Some(items) = buttons {
        add_buttons(movie, items);
    }
    if let Some(items) = scenes {
        add_new_scenes(movie, items);
    }
    Ok(())
}

/// The header after a stage-bounds override.
pub open spec fn with_stage(h: Header, b: Option<crate::config::Bounds>) -> Header {
    match b {
        Some(bounds) => Header { frame_size: rect_of(bounds), ..h },
        None => h,
    }
}

/// `fin` is what the scene additions and then the removal make of `added`.
pub open spec fn scenes_then_removal(
    added: Seq<Tag>,
    scenes: Option<Vec<NewScene>>,
    remove: Option<RemoveElements>,
    fin: Seq<Tag>,
) -> bool {
    match remove {
        None => match scenes {
            None => fin == added,
            Some(sc) => scenes_added(added, fin, sc@),
        },
        Some(r) => exists|mid: Seq<Tag>| {
            &&& match scenes {
                None => mid == added,
                Some(sc) => scenes_added(added, mid, sc@),
            }
            &&& views(fin) == removal(mid, r)
        },
    }
}

/// Applies the movie-level part of a patch: the stage-bounds override, then
/// the tag modifications in order, then new elements, then removal.
pub fn apply_modifications(movie: &mut Movie, config: SwfModification) -> (r: Result<(), ModifyError>)
    ensures
        final(movie).header == with_stage(old(movie).header, config.bounds),
        match patch_all(old(movie).tags@, config.modifications@) {
            Err(e) => r == Err::<(), ModifyError>(ModifyError::Patch(e)),
            Ok(patched) => match config.new_elements {
                None => r is Ok && scenes_then_removal(patched, None, config.remove_elements, final(movie).tags@),
                Some(ne) => match elements_added(patched, ne) {
                    Err(e) => r == Err::<(), ModifyError>(ModifyError::Add(e)),
                    Ok(added) => r is Ok && scenes_then_removal(added, ne.scenes, config.remove_elements, final(movie).tags@),
                },
            },
        },
{
    let SwfModification { bounds, modifications, new_elements, remove_elements } = config;
    if let Some(b) = bounds {
        movie.header.frame_size = bounds_to_rect(&b);
    }
    match apply_tag_modifications(movie, modifications) {
        Ok(()) => {},
        Err(e) => return Err(ModifyError::Patch(e)),
    }
    if let Some(elements) = new_elements {
        match add_new_elements(movie, elements) {
            Ok(()) => {},
            Err(e) => return Err(ModifyError::Add(e)),
        }
    }
    let ghost mid = movie.tags@;
    if let Some(r) = remove_elements {
        remove_swf_elements(movie, &r);
        assert(views(movie.tags@) == removal(mid, r));
    }
    Ok(())
}

} // verus!
