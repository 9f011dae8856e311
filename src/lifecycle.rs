//! Character-id allocation, new elements, and removal of elements with
//! every reference to them.
use vstd::prelude::*;
use crate::bounds::{calculate_shape_bounds, spec_bounds, walk_fits};
use crate::config::{bounds_to_rect, rect_of, CompiledShape, NewBitmap, NewButton, NewScene, NewSprite, NewText};
use crate::model::{defined_id, tag_defined_id, DefineBitmap, DefineButton, DefineDynamicText, DefineShape, DefineSprite, ImageType, Label, Movie, Rect, Scene, Shape, Tag};

verus! {

/// What to remove: character ids by kind, frame labels and scenes by name.
#[derive(Debug)]
pub struct RemoveElements {
    pub shapes: Option<Vec<u16>>,
    pub sprites: Option<Vec<u16>>,
    pub texts: Option<Vec<u16>>,
    pub buttons: Option<Vec<u16>>,
    pub bitmaps: Option<Vec<u16>>,
    pub frames: Option<Vec<String>>,
    pub scenes: Option<Vec<String>>,
}

pub open spec fn listed(v: Option<Vec<u16>>, id: u16) -> bool {
    match v {
        Some(l) => l@.contains(id),
        None => false,
    }
}

pub open spec fn named(v: Option<Vec<String>>, n: Seq<char>) -> bool {
    match v {
        Some(l) => exists|i: int| 0 <= i < l@.len() && (#[trigger] l@[i])@ == n,
        None => false,
    }
}

pub open spec fn names_scenes(r: RemoveElements) -> bool {
    match r.scenes {
        Some(l) => l@.len() > 0,
        None => false,
    }
}

/// Whether `id` is among the ids to remove, of any kind.
pub open spec fn removes_id(r: RemoveElements, id: u16) -> bool {
    listed(r.shapes, id) || listed(r.sprites, id) || listed(r.texts, id) || listed(r.buttons, id)
        || listed(r.bitmaps, id)
}

/// A placement of a removed character, or a removed frame label. A
/// placement that names no character refers to nothing removed.
pub open spec fn is_stale(t: Tag, r: RemoveElements) -> bool {
    match t {
        Tag::PlaceObject(p) => match p.character_id {
            Some(c) => removes_id(r, c),
            None => false,
        },
        Tag::FrameLabel { name, .. } => named(r.frames, name@),
        _ => false,
    }
}

pub open spec fn scene_kept(s: Scene, r: RemoveElements) -> bool {
    !named(r.scenes, s.name@)
}

/// A removed definition, or a scene table left with neither scenes nor labels.
pub open spec fn is_removed_definition(t: Tag, r: RemoveElements) -> bool {
    match t {
        Tag::DefineShape(d) => listed(r.shapes, d.id),
        Tag::DefineSprite(d) => listed(r.sprites, d.id),
        Tag::DefineText(d) => listed(r.texts, d.id),
        Tag::DefineDynamicText(d) => listed(r.texts, d.id),
        Tag::DefineButton(d) => listed(r.buttons, d.id),
        Tag::DefineBitmap(d) => listed(r.bitmaps, d.id),
        Tag::DefineSceneAndFrameLabelData { scenes, labels } =>
            names_scenes(r) && scenes@.filter(scene_filter(r)).len() == 0 && labels@.len() == 0,
        _ => false,
    }
}

pub open spec fn kept(t: Tag, r: RemoveElements) -> bool {
    !is_stale(t, r) && !is_removed_definition(t, r)
}

pub open spec fn fresh(r: RemoveElements) -> spec_fn(Tag) -> bool {
    |c: Tag| !is_stale(c, r)
}

pub open spec fn scene_filter(r: RemoveElements) -> spec_fn(Scene) -> bool {
    |s: Scene| scene_kept(s, r)
}

pub open spec fn keep(r: RemoveElements) -> spec_fn(Tag) -> bool {
    |t: Tag| kept(t, r)
}

pub open spec fn clean(r: RemoveElements) -> spec_fn(Tag) -> TagView {
    |t: Tag| cleaned(t, r)
}

/// How the removal sees a tag: the timeline of a sprite and the tables of a
/// scene tag as sequences, every other tag as it is.
pub enum TagView {
    Sprite { id: u16, frame_count: usize, tags: Seq<Tag> },
    Scenes { scenes: Seq<Scene>, labels: Seq<Label> },
    Plain(Tag),
}

pub open spec fn tag_view(t: Tag) -> TagView {
    match t {
        Tag::DefineSprite(s) => TagView::Sprite { id: s.id, frame_count: s.frame_count, tags: s.tags@ },
        Tag::DefineSceneAndFrameLabelData { scenes, labels } => TagView::Scenes { scenes: scenes@, labels: labels@ },
        _ => TagView::Plain(t),
    }
}

/// A kept tag after removal: a sprite loses its stale placements and
/// labels, a scene table loses the removed scenes.
pub open spec fn cleaned(t: Tag, r: RemoveElements) -> TagView {
    match t {
        Tag::DefineSprite(s) => TagView::Sprite {
            id: s.id,
            frame_count: s.frame_count,
            tags: s.tags@.filter(fresh(r)),
        },
        Tag::DefineSceneAndFrameLabelData { scenes, labels } => TagView::Scenes {
            scenes: if names_scenes(r) { scenes@.filter(scene_filter(r)) } else { scenes@ },
            labels: labels@,
        },
        _ => TagView::Plain(t),
    }
}

/// The tags of a movie after removal, as the removal sees them.
pub open spec fn removal(tags: Seq<Tag>, r: RemoveElements) -> Seq<TagView> {
    tags.filter(keep(r)).map_values(clean(r))
}

pub open spec fn views(tags: Seq<Tag>) -> Seq<TagView> {
    tags.map_values(|t: Tag| tag_view(t))
}

fn list_has(v: &Option<Vec<u16>>, id: u16) -> (r: bool)
    ensures
        r == listed(*v, id),
{
    match v {
        Some(l) => {
            let mut i: usize = 0;
            while i < l.len()
                invariant
                    0 <= i <= l.len(),
                    *v == Some(*l),
                    forall|j: int| 0 <= j < i ==> l@[j] != id,
                decreases l.len() - i,
            {
                if l[i] == id {
                    assert(l@[i as int] == id);
                    assert(l@.contains(id));
                    return true;
                }
                i += 1;
            }
            false
        },
        None => false,
    }
}

fn names_have(v: &Option<Vec<String>>, n: &String) -> (r: bool)
    ensures
        r == named(*v, n@),
{
    match v {
        Some(l) => {
            let mut i: usize = 0;
            while i < l.len()
                invariant
                    0 <= i <= l.len(),
                    *v == Some(*l),
                    forall|j: int| 0 <= j < i ==> (#[trigger] l@[j])@ != n@,
                decreases l.len() - i,
            {
                if l[i] == *n {
                    assert(l@[i as int]@ == n@);
                    let ghost w = v->Some_0;
                    assert(w@[i as int]@ == n@);
                    assert(0 <= i < w@.len());
                    return true;
                }
                i += 1;
            }
            false
        },
        None => false,
    }
}

fn removes(r: &RemoveElements, id: u16) -> (b: bool)
    ensures
        b == removes_id(*r, id),
{
    list_has(&r.shapes, id) || list_has(&r.sprites, id) || list_has(&r.texts, id) || list_has(&r.buttons, id)
        || list_has(&r.bitmaps, id)
}

fn stale(t: &Tag, r: &RemoveElements) -> (b: bool)
    ensures
        b == is_stale(*t, *r),
{
    match t {
        Tag::PlaceObject(p) => match p.character_id {
            Some(c) => removes(r, c),
            None => false,
        },
        Tag::FrameLabel { name, .. } => names_have(&r.frames, name),
        _ => false,
    }
}

fn drop_stale(tags: Vec<Tag>, r: &RemoveElements) -> (res: Vec<Tag>)
    ensures
        res@ == tags@.filter(fresh(*r)),
{
    let ghost orig = tags@;
    let ghost pred = fresh(*r);
    let mut rest = tags;
    let mut res: Vec<Tag> = Vec::new();
    let mut k: usize = 0;
    let total = rest.len();
    proof {
        assert(orig.subrange(0, 0) =~= Seq::<Tag>::empty());
        reveal(Seq::filter);
    }
    while rest.len() > 0
        invariant
            k + rest@.len() == orig.len(),
            orig.len() == total,
            rest@ == orig.subrange(k as int, orig.len() as int),
            pred == fresh(*r),
            res@ == orig.subrange(0, k as int).filter(pred),
        decreases rest@.len(),
    {
        let t = rest.remove(0);
        proof {
            assert(orig.subrange(0, k + 1) =~= orig.subrange(0, k as int).push(t));
            orig.subrange(0, k as int).lemma_filter_push(t, pred);
        }
        assert(pred(t) == !is_stale(t, *r));
        if !stale(&t, r) {
            res.push(t);
        }
        k += 1;
        proof {
            assert(rest@ =~= orig.subrange(k as int, orig.len() as int));
        }
    }
    proof {
        assert(orig.subrange(0, k as int) =~= orig);
    }
    res
}

fn drop_scenes(scenes: Vec<Scene>, r: &RemoveElements) -> (res: Vec<Scene>)
    ensures
        res@ == scenes@.filter(scene_filter(*r)),
{
    let ghost orig = scenes@;
    let ghost pred = scene_filter(*r);
    let mut rest = scenes;
    let mut res: Vec<Scene> = Vec::new();
    let mut k: usize = 0;
    let total = rest.len();
    proof {
        assert(orig.subrange(0, 0) =~= Seq::<Scene>::empty());
        reveal(Seq::filter);
    }
    while rest.len() > 0
        invariant
            k + rest@.len() == orig.len(),
            orig.len() == total,
            rest@ == orig.subrange(k as int, orig.len() as int),
            pred == scene_filter(*r),
            res@ == orig.subrange(0, k as int).filter(pred),
        decreases rest@.len(),
    {
        let s = rest.remove(0);
        proof {
            assert(orig.subrange(0, k + 1) =~= orig.subrange(0, k as int).push(s));
            orig.subrange(0, k as int).lemma_filter_push(s, pred);
        }
        assert(pred(s) == scene_kept(s, *r));
        if !names_have(&r.scenes, &s.name) {
            res.push(s);
        }
        k += 1;
        proof {
            assert(rest@ =~= orig.subrange(k as int, orig.len() as int));
        }
    }
    proof {
        assert(orig.subrange(0, k as int) =~= orig);
    }
    res
}

fn scenes_named(r: &RemoveElements) -> (b: bool)
    ensures
        b == names_scenes(*r),
{
    match &r.scenes {
        Some(l) => l.len() > 0,
        None => false,
    }
}

/// Removes what `r` names from the top-level tags and cleans the kept ones.
fn remove_and_clean(t: Tag, r: &RemoveElements) -> (res: Option<Tag>)
    ensures
        kept(t, *r) ==> (res matches Some(n) && tag_view(n) == cleaned(t, *r)),
        !kept(t, *r) ==> res is None,
{
    if stale(&t, r) {
        return None;
    }
    match t {
        Tag::DefineShape(d) => if list_has(&r.shapes, d.id) { None } else { Some(Tag::DefineShape(d)) },
        Tag::DefineSprite(d) => {
            if list_has(&r.sprites, d.id) {
                None
            } else {
                let DefineSprite { id, frame_count, tags } = d;
                Some(Tag::DefineSprite(DefineSprite { id, frame_count, tags: drop_stale(tags, r) }))
            }
        },
        Tag::DefineText(d) => if list_has(&r.texts, d.id) { None } else { Some(Tag::DefineText(d)) },
        Tag::DefineDynamicText(d) => if list_has(&r.texts, d.id) { None } else { Some(Tag::DefineDynamicText(d)) },
        Tag::DefineButton(d) => if list_has(&r.buttons, d.id) { None } else { Some(Tag::DefineButton(d)) },
        Tag::DefineBitmap(d) => if list_has(&r.bitmaps, d.id) { None } else { Some(Tag::DefineBitmap(d)) },
        Tag::DefineSceneAndFrameLabelData { scenes, labels } => {
            if scenes_named(r) {
                let remaining = drop_scenes(scenes, r);
                if remaining.len() == 0 && labels.len() == 0 {
                    None
                } else {
                    Some(Tag::DefineSceneAndFrameLabelData { scenes: remaining, labels })
                }
            } else {
                Some(Tag::DefineSceneAndFrameLabelData { scenes, labels })
            }
        },
        other => Some(other),
    }
}

/// Removes the elements that `r` names: placements of removed characters
/// and removed frame labels from the timeline and from every sprite's
/// timeline, the removed definitions, and the removed scenes (a scene table
/// left with neither scenes nor labels goes too).
pub fn remove_swf_elements(movie: &mut Movie, r: &RemoveElements)
    ensures
        final(movie).header == old(movie).header,
        views(final(movie).tags@) == removal(old(movie).tags@, *r),
{
    let ghost orig = movie.tags@;
    let ghost pred = keep(*r);
    let ghost tidy = clean(*r);
    let mut rest: Vec<Tag> = Vec::new();
    std::mem::swap(&mut rest, &mut movie.tags);
    let mut k: usize = 0;
    let total = rest.len();
    proof {
        assert(orig.subrange(0, 0) =~= Seq::<Tag>::empty());
        reveal(Seq::filter);
        assert(views(movie.tags@) =~= orig.subrange(0, 0).filter(pred).map_values(tidy));
    }
    while rest.len() > 0
        invariant
            k + rest@.len() == orig.len(),
            orig.len() == total,
            rest@ == orig.subrange(k as int, orig.len() as int),
            pred == keep(*r),
            tidy == clean(*r),
            views(movie.tags@) == orig.subrange(0, k as int).filter(pred).map_values(tidy),
            movie.header == old(movie).header,
        decreases rest@.len(),
    {
        let t = rest.remove(0);
        let ghost before = movie.tags@;
        proof {
            assert(orig.subrange(0, k + 1) =~= orig.subrange(0, k as int).push(t));
            orig.subrange(0, k as int).lemma_filter_push(t, pred);
        }
        assert(pred(t) == kept(t, *r));
        assert(tidy(t) == cleaned(t, *r));
        match remove_and_clean(t, r) {
            Some(n) => {
                movie.tags.push(n);
                proof {
                    assert(views(movie.tags@) =~= views(before).push(tag_view(n)));
                    assert(orig.subrange(0, k as int).filter(pred).push(t).map_values(tidy)
                        =~= orig.subrange(0, k as int).filter(pred).map_values(tidy).push(tidy(t)));
                }
            },
            None => {},
        }
        k += 1;
        proof {
            assert(rest@ =~= orig.subrange(k as int, orig.len() as int));
        }
    }
    proof {
        assert(orig.subrange(0, k as int) =~= orig);
    }
}

proof fn lemma_filter_all<A>(s: Seq<A>, p: spec_fn(A) -> bool)
    requires
        forall|i: int| 0 <= i < s.len() ==> p(#[trigger] s[i]),
    ensures
        s.filter(p) == s,
    decreases s.len(),
{
    reveal(Seq::filter);
    if s.len() > 0 {
        let init = s.drop_last();
        assert forall|i: int| 0 <= i < init.len() implies p(#[trigger] init[i]) by {
            assert(init[i] == s[i]);
        }
        lemma_filter_all(init, p);
        assert(p(s[s.len() - 1]));
        assert(init.push(s.last()) =~= s);
    }
}

proof fn lemma_filter_twice<A>(s: Seq<A>, p: spec_fn(A) -> bool)
    ensures
        s.filter(p).filter(p) == s.filter(p),
{
    s.filter_lemma(p);
    lemma_filter_all(s.filter(p), p);
}

/// A tag that survived removal survives a second one unchanged, and
/// refers to nothing removed.
proof fn lemma_survivor(k: Tag, t: Tag, r: RemoveElements)
    requires
        kept(k, r),
        tag_view(t) == cleaned(k, r),
    ensures
        kept(t, r),
        cleaned(t, r) == tag_view(t),
        !is_stale(t, r),
        t matches Tag::DefineSprite(s) ==> forall|j: int| 0 <= j < s.tags@.len() ==> !is_stale(#[trigger] s.tags@[j], r),
{
    match k {
        Tag::DefineSprite(ks) => {
            lemma_filter_twice(ks.tags@, fresh(r));
            if let Tag::DefineSprite(s) = t {
                s.tags@.filter_lemma(fresh(r));
                ks.tags@.filter_lemma(fresh(r));
                assert forall|j: int| 0 <= j < s.tags@.len() implies !is_stale(#[trigger] s.tags@[j], r) by {
                    assert(fresh(r)(ks.tags@.filter(fresh(r))[j]));
                }
            }
        },
        Tag::DefineSceneAndFrameLabelData { scenes, labels } => {
            lemma_filter_twice(scenes@, scene_filter(r));
        },
        _ => {},
    }
}

/// Removing the same elements twice leaves what removing them once left.
pub proof fn lemma_removal_idempotent(tags: Seq<Tag>, after: Seq<Tag>, r: RemoveElements)
    requires
        views(after) == removal(tags, r),
    ensures
        removal(after, r) == views(after),
{
    let ks = tags.filter(keep(r));
    tags.filter_lemma(keep(r));
    assert(views(after).len() == after.len());
    assert forall|i: int| 0 <= i < after.len() implies keep(r)(#[trigger] after[i])
        && clean(r)(after[i]) == tag_view(after[i]) by {
        assert(views(after)[i] == tag_view(after[i]));
        assert(removal(tags, r)[i] == cleaned(ks[i], r));
        assert(keep(r)(ks[i]));
        lemma_survivor(ks[i], after[i], r);
    }
    lemma_filter_all(after, keep(r));
    assert(removal(after, r) =~= views(after));
}

/// Two successive calls of `remove_swf_elements` with the same request
/// leave the movie as the first call left it: same header, same tags as
/// the removal sees them.
pub proof fn lemma_remove_swf_elements_twice(m0: Movie, m1: Movie, m2: Movie, r: RemoveElements)
    requires
        m1.header == m0.header,
        views(m1.tags@) == removal(m0.tags@, r),
        m2.header == m1.header,
        views(m2.tags@) == removal(m1.tags@, r),
    ensures
        m2.header == m1.header,
        views(m2.tags@) == views(m1.tags@),
{
    lemma_removal_idempotent(m0.tags@, m1.tags@, r);
}

/// After removal no placement or frame label, on the timeline or inside a
/// sprite's timeline, refers to a removed character or label.
pub proof fn lemma_removal_leaves_no_reference(tags: Seq<Tag>, after: Seq<Tag>, r: RemoveElements)
    requires
        views(after) == removal(tags, r),
    ensures
        forall|i: int| 0 <= i < after.len() ==> !is_stale(#[trigger] after[i], r),
        forall|i: int, j: int| 0 <= i < after.len() && after[i] is DefineSprite
            && 0 <= j < after[i]->DefineSprite_0.tags@.len()
            ==> !is_stale(#[trigger] after[i]->DefineSprite_0.tags@[j], r),
{
    let ks = tags.filter(keep(r));
    tags.filter_lemma(keep(r));
    assert(views(after).len() == after.len());
    assert forall|i: int| 0 <= i < after.len() implies !is_stale(#[trigger] after[i], r) && (after[i] matches Tag::DefineSprite(s) ==> forall|j: int| 0 <= j < s.tags@.len() ==> !is_stale(#[trigger] s.tags@[j], r)) by {
        assert(views(after)[i] == tag_view(after[i]));
        assert(removal(tags, r)[i] == cleaned(ks[i], r));
        assert(keep(r)(ks[i]));
        lemma_survivor(ks[i], after[i], r);
    }
    assert forall|i: int, j: int| 0 <= i < after.len() && after[i] is DefineSprite
        && 0 <= j < after[i]->DefineSprite_0.tags@.len()
        implies !is_stale(#[trigger] after[i]->DefineSprite_0.tags@[j], r) by {
        assert(!is_stale(after[i], r));
    }
}

/// Why an element could not be added.
#[derive(Clone, Copy, Debug, PartialEq, Eq, Structural)]
pub enum AddError {
    /// The shape source compiled to no shape.
    EmptySource,
    /// Every character id is in use.
    IdsExhausted,
    /// The shape reaches too far for its padded bounds to be represented.
    BoundsOverflow,
}

/// The largest character id that a top-level definition uses, 0 if none.
pub open spec fn max_defined_id(tags: Seq<Tag>) -> int
    decreases tags.len(),
{
    if tags.len() == 0 {
        0
    } else {
        let m = max_defined_id(tags.drop_last());
        match defined_id(tags.last()) {
            Some(id) => if id > m { id as int } else { m },
            None => m,
        }
    }
}

/// The next free character id: one past the largest in use, if that fits.
pub open spec fn next_id(tags: Seq<Tag>) -> Option<u16> {
    if max_defined_id(tags) < 0xffff {
        Some((max_defined_id(tags) + 1) as u16)
    } else {
        None
    }
}

proof fn lemma_max_bounded(tags: Seq<Tag>)
    ensures
        0 <= max_defined_id(tags) <= 0xffff,
    decreases tags.len(),
{
    if tags.len() > 0 {
        lemma_max_bounded(tags.drop_last());
    }
}

/// Scans the top-level definitions for the largest character id in use and
/// returns the one after it; `None` when 65535 is in use.
pub fn find_next_available_id(movie: &Movie) -> (r: Option<u16>)
    ensures
        r == next_id(movie.tags@),
{
    let mut max_id: u16 = 0;
    let mut i: usize = 0;
    while i < movie.tags.len()
        invariant
            0 <= i <= movie.tags.len(),
            max_id as int == max_defined_id(movie.tags@.subrange(0, i as int)),
        decreases movie.tags.len() - i,
    {
        proof {
            assert(movie.tags@.subrange(0, i + 1).drop_last() =~= movie.tags@.subrange(0, i as int));
        }
        if let Some(id) = tag_defined_id(&movie.tags[i]) {
            if id > max_id {
                max_id = id;
            }
        }
        i += 1;
    }
    proof {
        assert(movie.tags@.subrange(0, movie.tags@.len() as int) =~= movie.tags@);
    }
    if max_id < 0xffff {
        Some(max_id + 1)
    } else {
        None
    }
}

proof fn lemma_max_grows(tags: Seq<Tag>, extra: Seq<Tag>)
    ensures
        max_defined_id(tags + extra) >= max_defined_id(tags),
        forall|j: int| 0 <= j < extra.len() && defined_id(#[trigger] extra[j]) is Some
            ==> max_defined_id(tags + extra) >= defined_id(extra[j])->Some_0,
    decreases extra.len(),
{
    if extra.len() == 0 {
        assert(tags + extra =~= tags);
    } else {
        let init = extra.drop_last();
        lemma_max_grows(tags, init);
        assert((tags + extra).drop_last() =~= tags + init);
        assert((tags + extra).last() == extra.last());
        assert forall|j: int| 0 <= j < extra.len() && defined_id(#[trigger] extra[j]) is Some
            implies max_defined_id(tags + extra) >= defined_id(extra[j])->Some_0 by {
            if j < init.len() {
                assert(init[j] == extra[j]);
            }
        }
    }
}

/// Once an allocated id is in use, through any number of appended tags
/// (nothing removed), the allocator never hands it out again: it moves to
/// a larger id or reports exhaustion.
pub proof fn lemma_allocation_never_repeats(tags: Seq<Tag>, extra: Seq<Tag>, j: int)
    requires
        next_id(tags) is Some,
        0 <= j < extra.len(),
        defined_id(extra[j]) == next_id(tags),
    ensures
        next_id(tags + extra) != next_id(tags),
        next_id(tags + extra) matches Some(b) ==> b > next_id(tags)->Some_0,
{
    lemma_max_grows(tags, extra);
    lemma_max_bounded(tags);
}

proof fn lemma_max_is_max(tags: Seq<Tag>)
    ensures
        forall|j: int| 0 <= j < tags.len() && defined_id(#[trigger] tags[j]) is Some
            ==> defined_id(tags[j])->Some_0 <= max_defined_id(tags),
    decreases tags.len(),
{
    if tags.len() > 0 {
        let init = tags.drop_last();
        lemma_max_is_max(init);
        assert forall|j: int| 0 <= j < tags.len() && defined_id(#[trigger] tags[j]) is Some
            implies defined_id(tags[j])->Some_0 <= max_defined_id(tags) by {
            if j < init.len() {
                assert(init[j] == tags[j]);
            }
        }
    }
}

/// The allocator hands out an id that no top-level definition uses, so
/// allocated additions keep character ids unique.
pub proof fn lemma_allocated_id_is_unused(tags: Seq<Tag>)
    requires
        next_id(tags) is Some,
    ensures
        forall|j: int| 0 <= j < tags.len() ==> defined_id(#[trigger] tags[j]) != next_id(tags),
{
    lemma_max_is_max(tags);
    lemma_max_bounded(tags);
}

/// The id a new element gets: the one given, or the next free one.
pub open spec fn chosen_id(given: Option<u16>, tags: Seq<Tag>) -> Option<u16> {
    match given {
        Some(id) => Some(id),
        None => next_id(tags),
    }
}

fn choose_id(given: Option<u16>, movie: &Movie) -> (r: Option<u16>)
    ensures
        r == chosen_id(given, movie.tags@),
{
    match given {
        Some(id) => Some(id),
        None => find_next_available_id(movie),
    }
}

/// The definition a new shape becomes.
pub open spec fn shape_tag(id: u16, bounds: Rect, shape: Shape) -> Tag {
    Tag::DefineShape(DefineShape {
        id: id,
        bounds: bounds,
        edge_bounds: None,
        has_fill_winding: false,
        has_non_scaling_strokes: false,
        has_scaling_strokes: false,
        shape: shape,
    })
}

/// Adds a compiled shape as a new definition. Only the first compiled shape
/// is used; its bounds are the explicit ones, or else computed.
pub fn add_new_shape(movie: &mut Movie, s: CompiledShape) -> (r: Result<u16, AddError>)
    ensures
        final(movie).header == old(movie).header,
        s.shapes@.len() == 0 ==> r == Err::<u16, AddError>(AddError::EmptySource) && *final(movie) == *old(movie),
        s.shapes@.len() > 0 && chosen_id(s.id, old(movie).tags@) is None
            ==> r == Err::<u16, AddError>(AddError::IdsExhausted) && *final(movie) == *old(movie),
        s.shapes@.len() > 0 && chosen_id(s.id, old(movie).tags@) is Some && s.bounds is None
            && !walk_fits(s.shapes@[0].records@)
            ==> r == Err::<u16, AddError>(AddError::BoundsOverflow) && *final(movie) == *old(movie),
        s.shapes@.len() > 0 && chosen_id(s.id, old(movie).tags@) is Some
            && (s.bounds is Some || walk_fits(s.shapes@[0].records@)) ==> {
            let id = chosen_id(s.id, old(movie).tags@)->Some_0;
            &&& r == Ok::<u16, AddError>(id)
            &&& final(movie).tags@ == old(movie).tags@.push(shape_tag(
                id,
                match s.bounds {
                    Some(b) => rect_of(b),
                    None => spec_bounds(s.shapes@[0].records@),
                },
                s.shapes@[0],
            ))
        },
{
    let CompiledShape { id, bounds, mut shapes } = s;
    if shapes.len() == 0 {
        return Err(AddError::EmptySource);
    }
    let shape_id = match choose_id(id, movie) {
        Some(v) => v,
        None => return Err(AddError::IdsExhausted),
    };
    let first = shapes.remove(0);
    let rect = match bounds {
        Some(b) => bounds_to_rect(&b),
        None => match calculate_shape_bounds(&first) {
            Some(rc) => rc,
            None => return Err(AddError::BoundsOverflow),
        },
    };
    movie.tags.push(Tag::DefineShape(DefineShape {
        id: shape_id,
        bounds: rect,
        edge_bounds: None,
        has_fill_winding: false,
        has_non_scaling_strokes: false,
        has_scaling_strokes: false,
        shape: first,
    }));
    Ok(shape_id)
}

/// Adds a sprite definition with the given timeline.
pub fn add_new_sprite(movie: &mut Movie, s: NewSprite) -> (r: Result<u16, AddError>)
    ensures
        final(movie).header == old(movie).header,
        chosen_id(s.id, old(movie).tags@) is None
            ==> r == Err::<u16, AddError>(AddError::IdsExhausted) && *final(movie) == *old(movie),
        chosen_id(s.id, old(movie).tags@) matches Some(id) ==> {
            &&& r == Ok::<u16, AddError>(id)
            &&& final(movie).tags@ == old(movie).tags@.push(
                Tag::DefineSprite(DefineSprite { id: id, frame_count: s.frame_count as usize, tags: s.tags }),
            )
        },
{
    let NewSprite { id, frame_count, tags } = s;
    let sprite_id = match choose_id(id, movie) {
        Some(v) => v,
        None => return Err(AddError::IdsExhausted),
    };
    movie.tags.push(Tag::DefineSprite(DefineSprite { id: sprite_id, frame_count: frame_count as usize, tags }));
    Ok(sprite_id)
}

/// The dynamic-text definition a new text becomes.
pub open spec fn text_tag(id: u16, t: NewText) -> Tag {
    Tag::DefineDynamicText(DefineDynamicText {
        id: id,
        bounds: rect_of(t.bounds),
        word_wrap: t.word_wrap,
        multiline: t.multiline,
        password: false,
        readonly: t.readonly,
        auto_size: false,
        no_select: t.no_select,
        border: false,
        was_static: false,
        html: t.html,
        use_glyph_font: t.use_outlines,
        font_id: None,
        font_class: Some(t.font_class),
        font_size: Some(t.font_size),
        color: t.color,
        max_length: None,
        align: t.align,
        margin_left: t.margin_left,
        margin_right: t.margin_right,
        indent: t.indent,
        leading: t.leading,
        variable_name: None,
        text: Some(t.text),
    })
}

/// Adds a dynamic-text definition.
pub fn add_new_text(movie: &mut Movie, t: NewText) -> (r: Result<u16, AddError>)
    ensures
        final(movie).header == old(movie).header,
        chosen_id(t.id, old(movie).tags@) is None
            ==> r == Err::<u16, AddError>(AddError::IdsExhausted) && *final(movie) == *old(movie),
        chosen_id(t.id, old(movie).tags@) matches Some(id) ==> {
            &&& r == Ok::<u16, AddError>(id)
            &&& final(movie).tags@ == old(movie).tags@.push(text_tag(id, t))
        },
{
    let text_id = match choose_id(t.id, movie) {
        Some(v) => v,
        None => return Err(AddError::IdsExhausted),
    };
    let bounds = bounds_to_rect(&t.bounds);
    let NewText {
        id: _,
        text,
        bounds: _,
        font_class,
        font_size,
        color,
        word_wrap,
        multiline,
        readonly,
        no_select,
        html,
        use_outlines,
        align,
        margin_left,
        margin_right,
        indent,
        leading,
    } = t;
    movie.tags.push(Tag::DefineDynamicText(DefineDynamicText {
        id: text_id,
        bounds,
        word_wrap,
        multiline,
        password: false,
        readonly,
        auto_size: false,
        no_select,
        border: false,
        was_static: false,
        html,
        use_glyph_font: use_outlines,
        font_id: None,
        font_class: Some(font_class),
        font_size: Some(font_size),
        color,
        max_length: None,
        align,
        margin_left,
        margin_right,
        indent,
        leading,
        variable_name: None,
        text: Some(text),
    }));
    Ok(text_id)
}

/// Adds a PNG bitmap definition.
pub fn add_new_bitmap(movie: &mut Movie, b: NewBitmap) -> (r: Result<u16, AddError>)
    ensures
        final(movie).header == old(movie).header,
        chosen_id(b.id, old(movie).tags@) is None
            ==> r == Err::<u16, AddError>(AddError::IdsExhausted) && *final(movie) == *old(movie),
        chosen_id(b.id, old(movie).tags@) matches Some(id) ==> {
            &&& r == Ok::<u16, AddError>(id)
            &&& final(movie).tags@ == old(movie).tags@.push(Tag::DefineBitmap(DefineBitmap {
                id: id,
                width: b.width,
                height: b.height,
                media_type: ImageType::Png,
                data: b.data,
            }))
        },
{
    let NewBitmap { id, width, height, data } = b;
    let bitmap_id = match choose_id(id, movie) {
        Some(v) => v,
        None => return Err(AddError::IdsExhausted),
    };
    movie.tags.push(Tag::DefineBitmap(DefineBitmap { id: bitmap_id, width, height, media_type: ImageType::Png, data }));
    Ok(bitmap_id)
}

pub open spec fn button_tags(states: Seq<DefineButton>) -> Seq<Tag> {
    states.map_values(|d: DefineButton| Tag::DefineButton(d))
}

/// Appends each state of a button as a button definition, ids as given.
pub fn add_new_button(movie: &mut Movie, b: NewButton)
    ensures
        final(movie).header == old(movie).header,
        final(movie).tags@ == old(movie).tags@ + button_tags(b.states@),
{
    let ghost orig = b.states@;
    let mut rest = b.states;
    let mut k: usize = 0;
    let total = rest.len();
    proof {
        assert(old(movie).tags@ + button_tags(orig.subrange(0, 0)) =~= old(movie).tags@);
    }
    while rest.len() > 0
        invariant
            k + rest@.len() == orig.len(),
            orig.len() == total,
            rest@ == orig.subrange(k as int, orig.len() as int),
            movie.header == old(movie).header,
            movie.tags@ == old(movie).tags@ + button_tags(orig.subrange(0, k as int)),
        decreases rest@.len(),
    {
        let d = rest.remove(0);
        movie.tags.push(Tag::DefineButton(d));
        proof {
            assert(button_tags(orig.subrange(0, k + 1)) =~= button_tags(orig.subrange(0, k as int)).push(Tag::DefineButton(d)));
        }
        k += 1;
        proof {
            assert(rest@ =~= orig.subrange(k as int, orig.len() as int));
        }
    }
    proof {
        assert(orig.subrange(0, k as int) =~= orig);
    }
}

pub open spec fn scene_of(n: NewScene) -> Scene {
    Scene { offset: n.offset, name: n.name }
}

pub open spec fn scene_seq(ns: Seq<NewScene>) -> Seq<Scene> {
    ns.map_values(|n: NewScene| scene_of(n))
}

/// The index of the first scene table among `tags`.
pub open spec fn first_scene_table(tags: Seq<Tag>) -> Option<int>
    decreases tags.len(),
{
    if tags.len() == 0 {
        None
    } else {
        match first_scene_table(tags.drop_last()) {
            Some(i) => Some(i),
            None => if tags.last() is DefineSceneAndFrameLabelData { Some(tags.len() - 1) } else { None },
        }
    }
}

fn collect_scenes(scenes: Vec<NewScene>, into: &mut Vec<Scene>)
    ensures
        final(into)@ == old(into)@ + scene_seq(scenes@),
{
    let ghost orig = scenes@;
    let mut rest = scenes;
    let mut k: usize = 0;
    let total = rest.len();
    proof {
        assert(old(into)@ + scene_seq(orig.subrange(0, 0)) =~= old(into)@);
    }
    while rest.len() > 0
        invariant
            k + rest@.len() == orig.len(),
            orig.len() == total,
            rest@ == orig.subrange(k as int, orig.len() as int),
            into@ == old(into)@ + scene_seq(orig.subrange(0, k as int)),
        decreases rest@.len(),
    {
        let n = rest.remove(0);
        let NewScene { name, offset } = n;
        into.push(Scene { offset, name });
        proof {
            assert(scene_seq(orig.subrange(0, k + 1)) =~= scene_seq(orig.subrange(0, k as int)).push(scene_of(n)));
        }
        k += 1;
        proof {
            assert(rest@ =~= orig.subrange(k as int, orig.len() as int));
        }
    }
    proof {
        assert(orig.subrange(0, k as int) =~= orig);
    }
}

/// Adds scenes to the first scene table, or to a new one appended when
/// the movie has none.
pub fn add_new_scenes(movie: &mut Movie, scenes: Vec<NewScene>)
    ensures
        final(movie).header == old(movie).header,
        scenes_added(old(movie).tags@, final(movie).tags@, scenes@),
{
    let mut i: usize = 0;
    while i < movie.tags.len()
        invariant
            0 <= i <= movie.tags.len(),
            *movie == *old(movie),
            first_scene_table(movie.tags@.subrange(0, i as int)) is None,
        decreases movie.tags.len() - i,
    {
        proof {
            assert(movie.tags@.subrange(0, i + 1).drop_last() =~= movie.tags@.subrange(0, i as int));
        }
        if matches!(movie.tags[i], Tag::DefineSceneAndFrameLabelData { .. }) {
            proof {
                lemma_first_scene_table(movie.tags@, i as int);
            }
            let t = movie.tags.remove(i);
            match t {
                Tag::DefineSceneAndFrameLabelData { scenes: mut table, labels } => {
                    collect_scenes(scenes, &mut table);
                    movie.tags.insert(i, Tag::DefineSceneAndFrameLabelData { scenes: table, labels });
                },
                other => {
                    movie.tags.insert(i, other);
                },
            }
            proof {
                assert(views(movie.tags@) =~= views(old(movie).tags@).update(i as int, tag_view(movie.tags@[i as int])));
            }
            return;
        }
        i += 1;
    }
    proof {
        assert(movie.tags@.subrange(0, movie.tags@.len() as int) =~= movie.tags@);
    }
    let mut table: Vec<Scene> = Vec::new();
    collect_scenes(scenes, &mut table);
    movie.tags.push(Tag::DefineSceneAndFrameLabelData { scenes: table, labels: Vec::new() });
    proof {
        assert(views(movie.tags@) =~= views(old(movie).tags@).push(tag_view(movie.tags@.last())));
        assert(table@ =~= scene_seq(scenes@));
    }
}

proof fn lemma_first_scene_table(tags: Seq<Tag>, i: int)
    requires
        0 <= i < tags.len(),
        first_scene_table(tags.subrange(0, i)) is None,
        tags[i] is DefineSceneAndFrameLabelData,
    ensures
        first_scene_table(tags) == Some(i),
    decreases tags.len() - i,
{
    assert(tags.subrange(0, i + 1).drop_last() =~= tags.subrange(0, i));
    lemma_first_scene_table_extends(tags, i + 1, i);
}

proof fn lemma_first_scene_table_extends(tags: Seq<Tag>, n: int, i: int)
    requires
        0 <= i < n <= tags.len(),
        first_scene_table(tags.subrange(0, n)) == Some(i),
    ensures
        first_scene_table(tags) == Some(i),
    decreases tags.len() - n,
{
    if n == tags.len() {
        assert(tags.subrange(0, n) =~= tags);
    } else {
        assert(tags.subrange(0, n + 1).drop_last() =~= tags.subrange(0, n));
        lemma_first_scene_table_extends(tags, n + 1, i);
    }
}

/// The tags after adding one compiled shape, or why it could not be added.
pub open spec fn shape_added(tags: Seq<Tag>, s: CompiledShape) -> Result<Seq<Tag>, AddError> {
    if s.shapes@.len() == 0 {
        Err(AddError::EmptySource)
    } else {
        match chosen_id(s.id, tags) {
            None => Err(AddError::IdsExhausted),
            Some(id) => match s.bounds {
                Some(b) => Ok(tags.push(shape_tag(id, rect_of(b), s.shapes@[0]))),
                None => if walk_fits(s.shapes@[0].records@) {
                    Ok(tags.push(shape_tag(id, spec_bounds(s.shapes@[0].records@), s.shapes@[0])))
                } else {
                    Err(AddError::BoundsOverflow)
                },
            },
        }
    }
}

pub open spec fn sprite_added(tags: Seq<Tag>, s: NewSprite) -> Result<Seq<Tag>, AddError> {
    match chosen_id(s.id, tags) {
        None => Err(AddError::IdsExhausted),
        Some(id) => Ok(tags.push(Tag::DefineSprite(DefineSprite { id: id, frame_count: s.frame_count as usize, tags: s.tags }))),
    }
}

pub open spec fn text_added(tags: Seq<Tag>, t: NewText) -> Result<Seq<Tag>, AddError> {
    match chosen_id(t.id, tags) {
        None => Err(AddError::IdsExhausted),
        Some(id) => Ok(tags.push(text_tag(id, t))),
    }
}

pub open spec fn bitmap_added(tags: Seq<Tag>, b: NewBitmap) -> Result<Seq<Tag>, AddError> {
    match chosen_id(b.id, tags) {
        None => Err(AddError::IdsExhausted),
        Some(id) => Ok(tags.push(Tag::DefineBitmap(DefineBitmap {
            id: id,
            width: b.width,
            height: b.height,
            media_type: ImageType::Png,
            data: b.data,
        }))),
    }
}

/// Adding compiled shapes one after another, each id allocated against the
/// tags added before it; the first failure stops the additions.
pub open spec fn shapes_added(tags: Seq<Tag>, items: Seq<CompiledShape>) -> Result<Seq<Tag>, AddError>
    decreases items.len(),
{
    if items.len() == 0 {
        Ok(tags)
    } else {
        match shapes_added(tags, items.drop_last()) {
            Ok(t) => shape_added(t, items.last()),
            Err(e) => Err(e),
        }
    }
}

pub open spec fn sprites_added(tags: Seq<Tag>, items: Seq<NewSprite>) -> Result<Seq<Tag>, AddError>
    decreases items.len(),
{
    if items.len() == 0 {
        Ok(tags)
    } else {
        match sprites_added(tags, items.drop_last()) {
            Ok(t) => sprite_added(t, items.last()),
            Err(e) => Err(e),
        }
    }
}

pub open spec fn texts_added(tags: Seq<Tag>, items: Seq<NewText>) -> Result<Seq<Tag>, AddError>
    decreases items.len(),
{
    if items.len() == 0 {
        Ok(tags)
    } else {
        match texts_added(tags, items.drop_last()) {
            Ok(t) => text_added(t, items.last()),
            Err(e) => Err(e),
        }
    }
}

pub open spec fn bitmaps_added(tags: Seq<Tag>, items: Seq<NewBitmap>) -> Result<Seq<Tag>, AddError>
    decreases items.len(),
{
    if items.len() == 0 {
        Ok(tags)
    } else {
        match bitmaps_added(tags, items.drop_last()) {
            Ok(t) => bitmap_added(t, items.last()),
            Err(e) => Err(e),
        }
    }
}

pub open spec fn buttons_added(tags: Seq<Tag>, items: Seq<NewButton>) -> Seq<Tag>
    decreases items.len(),
{
    if items.len() == 0 {
        tags
    } else {
        buttons_added(tags, items.drop_last()) + button_tags(items.last().states@)
    }
}

/// `after` is `before` with `scenes` added to its first scene table, or to a
/// new one appended when it has none.
pub open spec fn scenes_added(before: Seq<Tag>, after: Seq<Tag>, scenes: Seq<NewScene>) -> bool {
    match first_scene_table(before) {
        Some(i) => match before[i] {
            Tag::DefineSceneAndFrameLabelData { scenes: old_scenes, labels } =>
                views(after) == views(before).update(
                    i,
                    TagView::Scenes { scenes: old_scenes@ + scene_seq(scenes), labels: labels@ },
                ),
            _ => false,
        },
        None => views(after) == views(before).push(TagView::Scenes { scenes: scene_seq(scenes), labels: Seq::empty() }),
    }
}

} // verus!
