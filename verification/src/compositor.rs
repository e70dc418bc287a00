//! The compositor: from glyphs and a style to draw commands.
//!
//! A frame starts with [`Compositor::begin`] and ends with
//! [`Compositor::finish`]. In between, rectangles, images and text runs are
//! drawn into the batch. Drawing a run also returns what was drawn, as a list
//! that [`Compositor::draw_glyphs_from_cache`] draws again without looking a
//! glyph up.

use vstd::prelude::*;
use crate::batch::{depth_ordered, BatchManager, Command, DisplayList, Rect, TexCoords};
use crate::color::Color;
use crate::fixed::Fixed;
use crate::glyph_cache::{glyph_key, GlyphCache, GlyphCacheEntry, GlyphKey};
use crate::image_cache::{
    whole_texture,
    AddImage,
    ImageCache,
    ImageId,
    ImageLocation,
    TextureEvent,
    TextureId,
};
use crate::text::{Glyph, SugarCursor, TextRunStyle, UnderlineStyle};
use crate::underline::{all_widened, expand_intercepts, sweep, underline_segments};

verus! {

/// How far a pen position is pushed to the right before it is snapped to a
/// whole unit: an eighth of a unit, in raw steps.
pub const SUBPIXEL_BIAS: i64 = 8;

/// The width of a caret cursor: three units, in raw steps.
pub const CARET_WIDTH: i64 = 192;

/// A textured rectangle that is ready to be drawn.
#[derive(Clone, Copy, Debug, PartialEq, Eq, Structural)]
pub struct ComposedRect {
    pub rect: Rect,
    pub coords: TexCoords,
    pub color: Color,
    pub has_alpha: bool,
    pub image: TextureId,
}

/// One thing that a run has drawn.
#[derive(Clone, Copy, Debug, PartialEq, Eq)]
pub enum CachedRect {
    /// A glyph whose image carries its own colors.
    Image(ComposedRect),
    /// A glyph whose image holds coverage only.
    Mask(ComposedRect),
    /// A rectangle of one color: a background, a cursor or a stretch of
    /// underline.
    Standard((Rect, Color)),
}

impl CachedRect {
    /// The command that draws `self` at `depth`.
    pub open spec fn command(self, depth: Fixed) -> Command {
        match self {
            CachedRect::Image(data) => Command::Image {
                rect: data.rect,
                depth,
                color: data.color,
                coords: data.coords,
                image: data.image,
                has_alpha: data.has_alpha,
            },
            CachedRect::Mask(data) => Command::Mask {
                rect: data.rect,
                depth,
                color: data.color,
                coords: data.coords,
                image: data.image,
                has_alpha: data.has_alpha,
            },
            CachedRect::Standard(pair) => Command::Rect { rect: pair.0, depth, color: pair.1 },
        }
    }
}

/// The commands that draw `cache` at `depth`, one for one.
pub open spec fn replayed(cache: Seq<CachedRect>, depth: Fixed) -> Seq<Command> {
    Seq::new(cache.len(), |i: int| cache[i].command(depth))
}

/// The corners of a location.
pub open spec fn corners(location: ImageLocation) -> TexCoords {
    TexCoords {
        min_u: location.min.0,
        min_v: location.min.1,
        max_u: location.max.0,
        max_v: location.max.1,
    }
}

/// What the caches hold for a glyph of a run: its entry and the location of
/// its image. Nothing, where either is missing.
pub open spec fn found(
    glyphs: Map<GlyphKey, GlyphCacheEntry>,
    images: Map<ImageId, ImageLocation>,
    style: TextRunStyle,
    glyph: Glyph,
) -> Option<(GlyphCacheEntry, ImageLocation)> {
    let key = glyph_key(
        style.font,
        style.font_coords@,
        style.font_size,
        glyph.id,
        glyph.x,
        glyph.y,
    );
    if glyphs.contains_key(key) && images.contains_key(glyphs[key].image) {
        Some((glyphs[key], images[glyphs[key].image]))
    } else {
        None
    }
}

/// The left edge of a glyph's image: the pen position, pushed right by the
/// bias and snapped down to a whole unit, plus the left bearing.
pub open spec fn glyph_left(glyph: Glyph, entry: GlyphCacheEntry) -> Fixed {
    glyph.x.plus(Fixed { raw: SUBPIXEL_BIAS }).floored().plus(Fixed::of_int(entry.left as int))
}

/// The top edge of a glyph's image: the pen position, snapped down to a
/// whole unit, less the top bearing.
pub open spec fn glyph_top(glyph: Glyph, entry: GlyphCacheEntry) -> Fixed {
    glyph.y.floored().minus(Fixed::of_int(entry.top as int))
}

/// The glyph itself, as it is drawn: an image in opaque white where the entry
/// is a bitmap, else a mask in the color of the text.
pub open spec fn glyph_quad(
    color: Color,
    glyph: Glyph,
    entry: GlyphCacheEntry,
    location: ImageLocation,
) -> CachedRect {
    let rect = Rect {
        x: glyph_left(glyph, entry),
        y: glyph_top(glyph, entry),
        width: Fixed::of_int(entry.width as int),
        height: Fixed::of_int(entry.height as int),
    };
    if entry.is_bitmap {
        CachedRect::Image(
            ComposedRect {
                rect,
                coords: corners(location),
                color: Color::white(),
                has_alpha: entry.image.alpha,
                image: location.texture_id,
            },
        )
    } else {
        CachedRect::Mask(
            ComposedRect {
                rect,
                coords: corners(location),
                color,
                has_alpha: true,
                image: location.texture_id,
            },
        )
    }
}

/// The cell of a run on its line: as wide as the run's rectangle, from the
/// top of the line down by the height of the line.
pub open spec fn cell(rect: Rect, style: TextRunStyle) -> Rect {
    Rect { x: rect.x, y: style.topline, width: rect.width, height: style.line_height }
}

/// The background behind a glyph: the cell in the background color, if the
/// style has one.
pub open spec fn background_rects(rect: Rect, style: TextRunStyle) -> Seq<CachedRect> {
    match style.background_color {
        Some(color) => seq![CachedRect::Standard((cell(rect, style), color))],
        None => Seq::empty(),
    }
}

/// The cursor over a glyph: the cell for a block, the left three units of the
/// cell for a caret.
pub open spec fn cursor_rects(rect: Rect, style: TextRunStyle) -> Seq<CachedRect> {
    match style.cursor {
        SugarCursor::Block(color) => seq![CachedRect::Standard((cell(rect, style), color))],
        SugarCursor::Caret(color) => seq![
            CachedRect::Standard(
                (
                    Rect {
                        x: rect.x,
                        y: style.topline,
                        width: Fixed { raw: CARET_WIDTH },
                        height: style.line_height,
                    },
                    color,
                ),
            ),
        ],
        SugarCursor::Disabled => Seq::empty(),
    }
}

/// What is drawn for a glyph that was found: the glyph, the background and
/// the cursor, in this order.
pub open spec fn glyph_rects(
    rect: Rect,
    style: TextRunStyle,
    glyph: Glyph,
    entry: GlyphCacheEntry,
    location: ImageLocation,
) -> Seq<CachedRect> {
    seq![glyph_quad(style.color, glyph, entry, location)] + background_rects(rect, style)
        + cursor_rects(rect, style)
}

/// What is drawn for one glyph of a run: nothing, where it was not found.
pub open spec fn glyph_output(
    glyphs: Map<GlyphKey, GlyphCacheEntry>,
    images: Map<ImageId, ImageLocation>,
    rect: Rect,
    style: TextRunStyle,
    glyph: Glyph,
) -> Seq<CachedRect> {
    match found(glyphs, images, style, glyph) {
        Some(hit) => glyph_rects(rect, style, glyph, hit.0, hit.1),
        None => Seq::empty(),
    }
}

/// What is drawn for the glyphs of a run, glyph after glyph.
pub open spec fn glyphs_output(
    glyphs: Map<GlyphKey, GlyphCacheEntry>,
    images: Map<ImageId, ImageLocation>,
    rect: Rect,
    style: TextRunStyle,
    run: Seq<Glyph>,
) -> Seq<CachedRect>
    decreases run.len(),
{
    if run.len() == 0 {
        Seq::empty()
    } else {
        glyphs_output(glyphs, images, rect, style, run.drop_last()) + glyph_output(
            glyphs,
            images,
            rect,
            style,
            run.last(),
        )
    }
}

/// How far above the baseline the underline is drawn: the offset of the
/// style, rounded.
pub open spec fn underline_offset(underline: UnderlineStyle) -> Fixed {
    underline.offset.rounded()
}

/// How thick the underline is drawn: the size of the style, rounded, and one
/// unit at least.
pub open spec fn underline_size(underline: UnderlineStyle) -> Fixed {
    underline.size.rounded().at_least(Fixed::of_int(1))
}

/// Whether a glyph reaches down to the underline: its top bearing less the
/// offset of the underline is below its height.
pub open spec fn reaches_underline(entry: GlyphCacheEntry, underline: UnderlineStyle) -> bool {
    Fixed::of_int(entry.top as int).minus(underline_offset(underline)).raw < Fixed::of_int(
        entry.height as int,
    ).raw
}

/// The interval that a glyph keeps free of underline: its descender ink,
/// moved to where the glyph is drawn, if the glyph reaches the underline and
/// has such ink.
pub open spec fn glyph_intercept(glyph: Glyph, entry: GlyphCacheEntry, underline: UnderlineStyle)
    -> Option<(Fixed, Fixed)> {
    if reaches_underline(entry, underline) {
        match entry.desc.interval() {
            Some(ink) => Some(
                (ink.0.plus(glyph_left(glyph, entry)), ink.1.plus(glyph_left(glyph, entry))),
            ),
            None => None,
        }
    } else {
        None
    }
}

/// The intervals that one glyph of a run keeps free of underline: none, where
/// it was not found.
pub open spec fn glyph_intercepts(
    glyphs: Map<GlyphKey, GlyphCacheEntry>,
    images: Map<ImageId, ImageLocation>,
    style: TextRunStyle,
    underline: UnderlineStyle,
    glyph: Glyph,
) -> Seq<(Fixed, Fixed)> {
    match found(glyphs, images, style, glyph) {
        Some(hit) => match glyph_intercept(glyph, hit.0, underline) {
            Some(range) => seq![range],
            None => Seq::empty(),
        },
        None => Seq::empty(),
    }
}

/// The intervals that the glyphs of a run keep free of underline, in the
/// order of the glyphs.
pub open spec fn run_intercepts(
    glyphs: Map<GlyphKey, GlyphCacheEntry>,
    images: Map<ImageId, ImageLocation>,
    style: TextRunStyle,
    underline: UnderlineStyle,
    run: Seq<Glyph>,
) -> Seq<(Fixed, Fixed)>
    decreases run.len(),
{
    if run.len() == 0 {
        Seq::empty()
    } else {
        run_intercepts(glyphs, images, style, underline, run.drop_last()) + glyph_intercepts(
            glyphs,
            images,
            style,
            underline,
            run.last(),
        )
    }
}

/// The rectangle of a stretch of underline.
pub open spec fn segment_rect(segment: (Fixed, Fixed), y: Fixed, size: Fixed) -> Rect {
    Rect { x: segment.0, y, width: segment.1.minus(segment.0), height: size }
}

/// The stretches of underline as they are drawn.
pub open spec fn underline_rects(
    segments: Seq<(Fixed, Fixed)>,
    y: Fixed,
    size: Fixed,
    color: Color,
) -> Seq<CachedRect> {
    Seq::new(
        segments.len(),
        |i: int| CachedRect::Standard((segment_rect(segments[i], y, size), color)),
    )
}

/// The underline of a run: the stretches that the widened intervals of its
/// glyphs leave free between the left and the right edge of the run's
/// rectangle, at the offset above the baseline.
pub open spec fn underline_output(
    glyphs: Map<GlyphKey, GlyphCacheEntry>,
    images: Map<ImageId, ImageLocation>,
    rect: Rect,
    style: TextRunStyle,
    underline: UnderlineStyle,
    run: Seq<Glyph>,
) -> Seq<CachedRect> {
    underline_rects(
        underline_segments(
            all_widened(run_intercepts(glyphs, images, style, underline, run)),
            rect.x,
            rect.x.plus(rect.width),
        ),
        style.baseline.minus(underline_offset(underline)),
        underline_size(underline),
        underline.color,
    )
}

/// Everything that a run draws: its glyphs with their backgrounds and
/// cursors, then its underline if the style has one.
pub open spec fn run_output(
    glyphs: Map<GlyphKey, GlyphCacheEntry>,
    images: Map<ImageId, ImageLocation>,
    rect: Rect,
    style: TextRunStyle,
    run: Seq<Glyph>,
) -> Seq<CachedRect> {
    glyphs_output(glyphs, images, rect, style, run) + match style.underline {
        Some(underline) => underline_output(glyphs, images, rect, style, underline, run),
        None => Seq::empty(),
    }
}

/// The batch after a run was drawn into `batch`: what the run draws, at
/// `depth`, behind what was there.
pub open spec fn batch_after_run(
    batch: Seq<Command>,
    glyphs: Map<GlyphKey, GlyphCacheEntry>,
    images: Map<ImageId, ImageLocation>,
    rect: Rect,
    depth: Fixed,
    style: TextRunStyle,
    run: Seq<Glyph>,
) -> Seq<Command> {
    batch + replayed(run_output(glyphs, images, rect, style, run), depth)
}

/// The batch after `cache` was drawn again into `batch`.
pub open spec fn batch_after_replay(batch: Seq<Command>, cache: Seq<CachedRect>, depth: Fixed)
    -> Seq<Command> {
    batch + replayed(cache, depth)
}

/// Drawing again what a run returned, into an empty batch, leaves the batch
/// that drawing the run into an empty batch leaves, as long as the caches
/// hold what they held.
pub proof fn lemma_replay_reproduces_run(
    glyphs: Map<GlyphKey, GlyphCacheEntry>,
    images: Map<ImageId, ImageLocation>,
    rect: Rect,
    depth: Fixed,
    style: TextRunStyle,
    run: Seq<Glyph>,
)
    ensures
        batch_after_replay(
            Seq::empty(),
            run_output(glyphs, images, rect, style, run),
            depth,
        ) == batch_after_run(Seq::empty(), glyphs, images, rect, depth, style, run),
        batch_after_replay(
            Seq::empty(),
            run_output(glyphs, images, rect, style, run),
            depth,
        ).len() == run_output(glyphs, images, rect, style, run).len(),
{
}

/// Drawing a list again draws its parts again, one after the other.
pub proof fn lemma_replayed_concat(a: Seq<CachedRect>, b: Seq<CachedRect>, depth: Fixed)
    ensures
        replayed(a + b, depth) == replayed(a, depth) + replayed(b, depth),
{
    assert(replayed(a + b, depth) =~= replayed(a, depth) + replayed(b, depth));
}

/// What is drawn for two runs of glyphs in a row is what is drawn for the
/// first and then for the second.
pub proof fn lemma_glyphs_output_concat(
    glyphs: Map<GlyphKey, GlyphCacheEntry>,
    images: Map<ImageId, ImageLocation>,
    rect: Rect,
    style: TextRunStyle,
    a: Seq<Glyph>,
    b: Seq<Glyph>,
)
    ensures
        glyphs_output(glyphs, images, rect, style, a + b) == glyphs_output(
            glyphs,
            images,
            rect,
            style,
            a,
        ) + glyphs_output(glyphs, images, rect, style, b),
    decreases b.len(),
{
    if b.len() == 0 {
        assert(a + b =~= a);
        assert(glyphs_output(glyphs, images, rect, style, a) + Seq::<CachedRect>::empty()
            =~= glyphs_output(glyphs, images, rect, style, a));
    } else {
        lemma_glyphs_output_concat(glyphs, images, rect, style, a, b.drop_last());
        assert((a + b).drop_last() =~= a + b.drop_last());
        assert((a + b).last() == b.last());
        let front = glyphs_output(glyphs, images, rect, style, a);
        let mid = glyphs_output(glyphs, images, rect, style, b.drop_last());
        let tail = glyph_output(glyphs, images, rect, style, b.last());
        assert((front + mid) + tail =~= front + (mid + tail));
    }
}

/// The intervals that two runs of glyphs in a row keep free are those of the
/// first and then those of the second.
pub proof fn lemma_run_intercepts_concat(
    glyphs: Map<GlyphKey, GlyphCacheEntry>,
    images: Map<ImageId, ImageLocation>,
    style: TextRunStyle,
    underline: UnderlineStyle,
    a: Seq<Glyph>,
    b: Seq<Glyph>,
)
    ensures
        run_intercepts(glyphs, images, style, underline, a + b) == run_intercepts(
            glyphs,
            images,
            style,
            underline,
            a,
        ) + run_intercepts(glyphs, images, style, underline, b),
    decreases b.len(),
{
    if b.len() == 0 {
        assert(a + b =~= a);
        assert(run_intercepts(glyphs, images, style, underline, a) + Seq::<
            (Fixed, Fixed),
        >::empty() =~= run_intercepts(glyphs, images, style, underline, a));
    } else {
        lemma_run_intercepts_concat(glyphs, images, style, underline, a, b.drop_last());
        assert((a + b).drop_last() =~= a + b.drop_last());
        assert((a + b).last() == b.last());
        let front = run_intercepts(glyphs, images, style, underline, a);
        let mid = run_intercepts(glyphs, images, style, underline, b.drop_last());
        let tail = glyph_intercepts(glyphs, images, style, underline, b.last());
        assert((front + mid) + tail =~= front + (mid + tail));
    }
}

/// A glyph that is not found adds nothing to its run: the run draws what it
/// would draw without the glyph.
pub proof fn lemma_missed_glyph_draws_nothing(
    glyphs: Map<GlyphKey, GlyphCacheEntry>,
    images: Map<ImageId, ImageLocation>,
    rect: Rect,
    style: TextRunStyle,
    run: Seq<Glyph>,
    i: int,
)
    requires
        0 <= i < run.len(),
        found(glyphs, images, style, run[i]) is None,
    ensures
        glyph_output(glyphs, images, rect, style, run[i]) == Seq::<CachedRect>::empty(),
        run_output(glyphs, images, rect, style, run) == run_output(
            glyphs,
            images,
            rect,
            style,
            run.remove(i),
        ),
{
    let head = run.take(i);
    let one = seq![run[i]];
    let tail = run.skip(i + 1);
    assert(run =~= (head + one) + tail);
    assert(run.remove(i) =~= head + tail);
    assert(one.drop_last() =~= Seq::<Glyph>::empty());
    assert(one.last() == run[i]);

    lemma_glyphs_output_concat(glyphs, images, rect, style, head + one, tail);
    lemma_glyphs_output_concat(glyphs, images, rect, style, head, one);
    lemma_glyphs_output_concat(glyphs, images, rect, style, head, tail);
    assert(glyphs_output(glyphs, images, rect, style, one.drop_last()) =~= Seq::<
        CachedRect,
    >::empty());
    assert(glyphs_output(glyphs, images, rect, style, one) =~= Seq::<CachedRect>::empty());
    assert(glyphs_output(glyphs, images, rect, style, head) + Seq::<CachedRect>::empty()
        =~= glyphs_output(glyphs, images, rect, style, head));
    assert(glyphs_output(glyphs, images, rect, style, run) == glyphs_output(
        glyphs,
        images,
        rect,
        style,
        run.remove(i),
    ));

    if let Some(underline) = style.underline {
        lemma_run_intercepts_concat(glyphs, images, style, underline, head + one, tail);
        lemma_run_intercepts_concat(glyphs, images, style, underline, head, one);
        lemma_run_intercepts_concat(glyphs, images, style, underline, head, tail);
        assert(run_intercepts(glyphs, images, style, underline, one.drop_last()) =~= Seq::<
            (Fixed, Fixed),
        >::empty());
        assert(run_intercepts(glyphs, images, style, underline, one) =~= Seq::<
            (Fixed, Fixed),
        >::empty());
        assert(run_intercepts(glyphs, images, style, underline, head) + Seq::<
            (Fixed, Fixed),
        >::empty() =~= run_intercepts(glyphs, images, style, underline, head));
        assert(run_intercepts(glyphs, images, style, underline, run) == run_intercepts(
            glyphs,
            images,
            style,
            underline,
            run.remove(i),
        ));
    }
}

/// A run without an underline draws its glyphs, their backgrounds and their
/// cursors, and no stretch of underline.
pub proof fn lemma_run_without_underline(
    glyphs: Map<GlyphKey, GlyphCacheEntry>,
    images: Map<ImageId, ImageLocation>,
    rect: Rect,
    style: TextRunStyle,
    run: Seq<Glyph>,
)
    requires
        style.underline is None,
    ensures
        run_output(glyphs, images, rect, style, run) == glyphs_output(
            glyphs,
            images,
            rect,
            style,
            run,
        ),
{
    assert(glyphs_output(glyphs, images, rect, style, run) + Seq::<CachedRect>::empty()
        =~= glyphs_output(glyphs, images, rect, style, run));
}

/// A block cursor is one rectangle over the cell, a caret one rectangle of
/// three units at the left edge of the cell, each in the cursor's color.
pub proof fn lemma_cursor_rects(rect: Rect, style: TextRunStyle)
    ensures
        style.cursor matches SugarCursor::Block(color) ==> cursor_rects(rect, style) == seq![
            CachedRect::Standard(
                (
                    Rect {
                        x: rect.x,
                        y: style.topline,
                        width: rect.width,
                        height: style.line_height,
                    },
                    color,
                ),
            ),
        ],
        style.cursor matches SugarCursor::Caret(color) ==> cursor_rects(rect, style) == seq![
            CachedRect::Standard(
                (
                    Rect {
                        x: rect.x,
                        y: style.topline,
                        width: Fixed::of_int(3),
                        height: style.line_height,
                    },
                    color,
                ),
            ),
        ],
        style.cursor is Disabled ==> cursor_rects(rect, style).len() == 0,
{
}

/// Draws `item` into the batch and records it.
fn emit(batches: &mut BatchManager, result: &mut Vec<CachedRect>, item: CachedRect, depth: Fixed)
    ensures
        final(batches)@ == old(batches)@.push(item.command(depth)),
        final(result)@ == old(result)@.push(item),
{
    match item {
        CachedRect::Image(data) => {
            batches.add_image_rect(
                &data.rect,
                depth,
                &data.color,
                &data.coords,
                data.image,
                data.has_alpha,
            );
        },
        CachedRect::Mask(data) => {
            batches.add_mask_rect(
                &data.rect,
                depth,
                &data.color,
                &data.coords,
                data.image,
                data.has_alpha,
            );
        },
        CachedRect::Standard(pair) => {
            batches.add_rect(&pair.0, depth, &pair.1);
        },
    }
    result.push(item);
}

/// Draws a glyph that was found, with its background and its cursor.
fn draw_found(
    batches: &mut BatchManager,
    result: &mut Vec<CachedRect>,
    rect: &Rect,
    depth: Fixed,
    style: &TextRunStyle,
    glyph: &Glyph,
    entry: &GlyphCacheEntry,
    location: &ImageLocation,
) -> (gx: Fixed)
    ensures
        gx == glyph_left(*glyph, *entry),
        final(result)@ == old(result)@ + glyph_rects(*rect, *style, *glyph, *entry, *location),
        final(batches)@ == old(batches)@ + replayed(
            glyph_rects(*rect, *style, *glyph, *entry, *location),
            depth,
        ),
{
    let gx = glyph.x.saturating_add(Fixed::from_raw(SUBPIXEL_BIAS)).floor().saturating_add(
        Fixed::from_int(entry.left),
    );
    let gy = glyph.y.floor().saturating_sub(Fixed::from_int(entry.top));
    let quad = Rect::new(
        gx,
        gy,
        Fixed::from_int(entry.width as i32),
        Fixed::from_int(entry.height as i32),
    );
    let coords = TexCoords {
        min_u: location.min.0,
        min_v: location.min.1,
        max_u: location.max.0,
        max_v: location.max.1,
    };
    if entry.is_bitmap {
        emit(
            batches,
            result,
            CachedRect::Image(
                ComposedRect {
                    rect: quad,
                    coords,
                    color: Color::opaque_white(),
                    has_alpha: entry.image.has_alpha(),
                    image: location.texture_id,
                },
            ),
            depth,
        );
    } else {
        emit(
            batches,
            result,
            CachedRect::Mask(
                ComposedRect {
                    rect: quad,
                    coords,
                    color: style.color,
                    has_alpha: true,
                    image: location.texture_id,
                },
            ),
            depth,
        );
    }
    if let Some(color) = style.background_color {
        let fill = Rect::new(rect.x, style.topline, rect.width, style.line_height);
        emit(batches, result, CachedRect::Standard((fill, color)), depth);
    }
    match style.cursor {
        SugarCursor::Block(color) => {
            let block = Rect::new(rect.x, style.topline, rect.width, style.line_height);
            emit(batches, result, CachedRect::Standard((block, color)), depth);
        },
        SugarCursor::Caret(color) => {
            let caret = Rect::new(
                rect.x,
                style.topline,
                Fixed::from_raw(CARET_WIDTH),
                style.line_height,
            );
            emit(batches, result, CachedRect::Standard((caret, color)), depth);
        },
        SugarCursor::Disabled => {},
    }
    proof {
        let drawn = glyph_rects(*rect, *style, *glyph, *entry, *location);
        assert(result@ =~= old(result)@ + drawn);
        assert(batches@ =~= old(batches)@ + replayed(drawn, depth));
    }
    gx
}

/// Draws the stretches of an underline.
fn draw_segments(
    batches: &mut BatchManager,
    result: &mut Vec<CachedRect>,
    segments: &Vec<(Fixed, Fixed)>,
    depth: Fixed,
    y: Fixed,
    size: Fixed,
    color: Color,
)
    ensures
        final(result)@ == old(result)@ + underline_rects(segments@, y, size, color),
        final(batches)@ == old(batches)@ + replayed(
            underline_rects(segments@, y, size, color),
            depth,
        ),
{
    let ghost all = underline_rects(segments@, y, size, color);
    let mut i: usize = 0;
    while i < segments.len()
        invariant
            i <= segments.len(),
            all == underline_rects(segments@, y, size, color),
            result@ == old(result)@ + all.take(i as int),
            batches@ == old(batches)@ + replayed(all.take(i as int), depth),
        decreases segments.len() - i,
    {
        let segment: (Fixed, Fixed) = segments[i];
        let stretch = Rect::new(segment.0, y, segment.1.saturating_sub(segment.0), size);
        emit(batches, result, CachedRect::Standard((stretch, color)), depth);
        proof {
            assert(all.take(i + 1) =~= all.take(i as int).push(all[i as int]));
            assert(result@ =~= old(result)@ + all.take(i + 1));
            assert(batches@ =~= old(batches)@ + replayed(all.take(i + 1), depth));
        }
        i += 1;
    }
    assert(all.take(segments.len() as int) =~= all);
}

/// The state of a frame: the caches, the batch, and the intervals that the
/// run at hand keeps free of underline.
pub struct Compositor {
    images: ImageCache,
    glyphs: GlyphCache,
    batches: BatchManager,
    intercepts: Vec<(Fixed, Fixed)>,
    epoch: u64,
    open: bool,
}

impl Compositor {
    /// The invariant of the compositor: its caches are in order, between two
    /// runs no interval is kept, and outside a frame the batch is empty.
    pub closed spec fn wf(&self) -> bool {
        &&& self.images.wf()
        &&& self.glyphs.wf()
        &&& self.intercepts@.len() == 0
        &&& !self.open ==> self.batches@.len() == 0
    }

    /// Whether a frame was begun and not yet finished. Only then can
    /// anything be drawn.
    pub closed spec fn is_open(&self) -> bool {
        self.open
    }

    /// The registered images, each with its location.
    pub closed spec fn images(&self) -> Map<ImageId, ImageLocation> {
        self.images.images()
    }

    /// The rasterized glyphs that are at hand.
    pub closed spec fn glyphs(&self) -> Map<GlyphKey, GlyphCacheEntry> {
        self.glyphs.glyphs()
    }

    /// The commands drawn since the frame began, in the order of drawing.
    pub closed spec fn batch(&self) -> Seq<Command> {
        self.batches@
    }

    /// The texture events that wait for the end of the frame.
    pub closed spec fn pending_events(&self) -> Seq<TextureEvent> {
        self.images.pending()
    }

    /// The largest width and height that an image may have.
    pub closed spec fn max_texture_size(&self) -> u16 {
        self.images.limit()
    }

    /// How many image handles were issued so far.
    pub closed spec fn issued(&self) -> nat {
        self.images.issued()
    }

    /// The intervals kept free of underline.
    pub closed spec fn intercepts(&self) -> Seq<(Fixed, Fixed)> {
        self.intercepts@
    }

    /// The number of the frame.
    pub closed spec fn frame(&self) -> u64 {
        self.epoch
    }

    /// Both hold the same images, glyphs and waiting events, and are in the
    /// same frame.
    pub open spec fn same_caches(&self, other: &Compositor) -> bool {
        &&& self.is_open() == other.is_open()
        &&& self.images() == other.images()
        &&& self.glyphs() == other.glyphs()
        &&& self.pending_events() == other.pending_events()
        &&& self.max_texture_size() == other.max_texture_size()
        &&& self.issued() == other.issued()
        &&& self.frame() == other.frame()
    }

    /// Between two runs no interval is kept.
    pub proof fn lemma_no_intercepts_between_runs(&self)
        requires
            self.wf(),
        ensures
            self.intercepts() == Seq::<(Fixed, Fixed)>::empty(),
    {
        assert(self.intercepts@ =~= Seq::<(Fixed, Fixed)>::empty());
    }

    /// Outside a frame the batch is empty.
    pub proof fn lemma_no_batch_outside_a_frame(&self)
        requires
            self.wf(),
            !self.is_open(),
        ensures
            self.batch() == Seq::<Command>::empty(),
    {
        assert(self.batches@ =~= Seq::<Command>::empty());
    }

    /// A compositor with empty caches, whose images may be at most
    /// `max_texture_size` wide and high.
    pub fn new(max_texture_size: u16) -> (compositor: Compositor)
        ensures
            compositor.wf(),
            compositor.images() == Map::<ImageId, ImageLocation>::empty(),
            compositor.glyphs() == Map::<GlyphKey, GlyphCacheEntry>::empty(),
            compositor.batch() == Seq::<Command>::empty(),
            compositor.pending_events() == Seq::<TextureEvent>::empty(),
            compositor.max_texture_size() == max_texture_size,
            compositor.issued() == 0,
            compositor.frame() == 0,
            !compositor.is_open(),
    {
        Compositor {
            images: ImageCache::new(max_texture_size),
            glyphs: GlyphCache::new(),
            batches: BatchManager::new(),
            intercepts: Vec::new(),
            epoch: 0,
            open: false,
        }
    }

    /// Whether a frame was begun and not yet finished.
    pub fn in_frame(&self) -> (open: bool)
        ensures
            open == self.is_open(),
    {
        self.open
    }

    /// The number of the frame.
    pub fn epoch(&self) -> (epoch: u64)
        ensures
            epoch == self.frame(),
    {
        self.epoch
    }

    /// Starts a frame: goes on to the next frame number, which after the last
    /// one is zero again, and empties the batch.
    pub fn begin(&mut self)
        requires
            old(self).wf(),
        ensures
            final(self).wf(),
            final(self).is_open(),
            final(self).batch() == Seq::<Command>::empty(),
            final(self).frame() == if old(self).frame() == u64::MAX {
                0
            } else {
                old(self).frame() + 1
            },
            final(self).images() == old(self).images(),
            final(self).glyphs() == old(self).glyphs(),
            final(self).pending_events() == old(self).pending_events(),
            final(self).max_texture_size() == old(self).max_texture_size(),
            final(self).issued() == old(self).issued(),
    {
        self.epoch = if self.epoch == u64::MAX {
            0
        } else {
            self.epoch + 1
        };
        self.batches.reset();
        self.open = true;
    }

    /// Ends a frame: moves the waiting texture events to the end of `events`,
    /// writes the batch into `list` in display order, and empties the batch.
    pub fn finish(&mut self, list: &mut DisplayList, events: &mut Vec<TextureEvent>)
        requires
            old(self).wf(),
        ensures
            final(self).wf(),
            !final(self).is_open(),
            final(events)@ == old(events)@ + old(self).pending_events(),
            final(list)@ == depth_ordered(old(self).batch()),
            final(self).pending_events() == Seq::<TextureEvent>::empty(),
            final(self).batch() == Seq::<Command>::empty(),
            final(self).images() == old(self).images(),
            final(self).glyphs() == old(self).glyphs(),
            final(self).max_texture_size() == old(self).max_texture_size(),
            final(self).issued() == old(self).issued(),
            final(self).frame() == old(self).frame(),
    {
        self.images.drain_events(events);
        self.batches.build_display_list(list);
        self.open = false;
    }

    /// Registers an image. Fails, and changes nothing, where the image is
    /// wider or higher than an image may be or no handle is left.
    pub fn add_image(&mut self, request: AddImage) -> (id: Option<ImageId>)
        requires
            old(self).wf(),
        ensures
            final(self).wf(),
            id is Some <==> request.width <= old(self).max_texture_size() && request.height
                <= old(self).max_texture_size() && old(self).issued() < u64::MAX,
            id matches Some(id) ==> {
                &&& id == (ImageId { serial: old(self).issued() as u64, alpha: request.has_alpha })
                &&& !old(self).images().contains_key(id)
                &&& final(self).images() == old(self).images().insert(
                    id,
                    whole_texture(TextureId(id.serial)),
                )
                &&& final(self).pending_events() == old(self).pending_events().push(
                    TextureEvent::CreateTexture {
                        id: TextureId(id.serial),
                        width: request.width,
                        height: request.height,
                        has_alpha: request.has_alpha,
                        data: request.data,
                    },
                )
                &&& final(self).issued() == old(self).issued() + 1
            },
            id is None ==> {
                &&& final(self).images() == old(self).images()
                &&& final(self).pending_events() == old(self).pending_events()
                &&& final(self).issued() == old(self).issued()
            },
            final(self).glyphs() == old(self).glyphs(),
            final(self).batch() == old(self).batch(),
            final(self).max_texture_size() == old(self).max_texture_size(),
            final(self).frame() == old(self).frame(),
            final(self).is_open() == old(self).is_open(),
    {
        self.images.allocate(request)
    }

    /// The location of a registered image; nothing for a handle whose image
    /// is gone or never was.
    pub fn get_image(&mut self, image: ImageId) -> (location: Option<ImageLocation>)
        requires
            old(self).wf(),
        ensures
            *final(self) == *old(self),
            location == if old(self).images().contains_key(image) {
                Some(old(self).images()[image])
            } else {
                None
            },
    {
        self.images.get(image)
    }

    /// Takes an image out, and says whether it was registered.
    pub fn remove_image(&mut self, image: ImageId) -> (removed: bool)
        requires
            old(self).wf(),
        ensures
            final(self).wf(),
            removed == old(self).images().contains_key(image),
            final(self).images() == old(self).images().remove(image),
            final(self).pending_events() == if removed {
                old(self).pending_events().push(
                    TextureEvent::DestroyTexture(old(self).images()[image].texture_id),
                )
            } else {
                old(self).pending_events()
            },
            final(self).glyphs() == old(self).glyphs(),
            final(self).batch() == old(self).batch(),
            final(self).max_texture_size() == old(self).max_texture_size(),
            final(self).issued() == old(self).issued(),
            final(self).frame() == old(self).frame(),
            final(self).is_open() == old(self).is_open(),
    {
        self.images.deallocate(image).is_some()
    }

    /// Puts the entry of a rasterized glyph in, under the font, the
    /// coordinates and the size of `style` and the number and pen position of
    /// `glyph`, in place of an earlier one under the same key.
    pub fn insert_glyph(&mut self, style: &TextRunStyle, glyph: &Glyph, entry: GlyphCacheEntry)
        requires
            old(self).wf(),
        ensures
            final(self).wf(),
            final(self).glyphs() == old(self).glyphs().insert(
                glyph_key(
                    style.font,
                    style.font_coords@,
                    style.font_size,
                    glyph.id,
                    glyph.x,
                    glyph.y,
                ),
                entry,
            ),
            final(self).images() == old(self).images(),
            final(self).pending_events() == old(self).pending_events(),
            final(self).batch() == old(self).batch(),
            final(self).max_texture_size() == old(self).max_texture_size(),
            final(self).issued() == old(self).issued(),
            final(self).frame() == old(self).frame(),
            final(self).is_open() == old(self).is_open(),
    {
        self.glyphs.insert(
            style.font,
            &style.font_coords,
            style.font_size,
            glyph.id,
            glyph.x,
            glyph.y,
            entry,
        );
    }

    /// Draws a rectangle filled with `color`.
    pub fn draw_rect(&mut self, rect: Rect, depth: Fixed, color: &Color)
        requires
            old(self).wf(),
            old(self).is_open(),
        ensures
            final(self).wf(),
            final(self).same_caches(old(self)),
            final(self).batch() == old(self).batch().push(
                Command::Rect { rect, depth, color: *color },
            ),
    {
        self.batches.add_rect(&rect, depth, color);
    }

    /// Draws a registered image into `rect`. Draws nothing for a handle whose
    /// image is gone or never was.
    pub fn draw_image(&mut self, rect: Rect, depth: Fixed, color: &Color, image: ImageId)
        requires
            old(self).wf(),
            old(self).is_open(),
        ensures
            final(self).wf(),
            final(self).same_caches(old(self)),
            final(self).batch() == if old(self).images().contains_key(image) {
                old(self).batch().push(
                    Command::Image {
                        rect,
                        depth,
                        color: *color,
                        coords: corners(old(self).images()[image]),
                        image: old(self).images()[image].texture_id,
                        has_alpha: image.alpha,
                    },
                )
            } else {
                old(self).batch()
            },
    {
        if let Some(location) = self.images.get(image) {
            let coords = TexCoords {
                min_u: location.min.0,
                min_v: location.min.1,
                max_u: location.max.0,
                max_v: location.max.1,
            };
            self.batches.add_image_rect(
                &rect,
                depth,
                color,
                &coords,
                location.texture_id,
                image.has_alpha(),
            );
        }
    }

    /// Draws again what a run has drawn, at `depth`, without looking anything
    /// up.
    pub fn draw_glyphs_from_cache(&mut self, cache: &Vec<CachedRect>, depth: Fixed)
        requires
            old(self).wf(),
            old(self).is_open(),
        ensures
            final(self).wf(),
            final(self).same_caches(old(self)),
            final(self).batch() == batch_after_replay(old(self).batch(), cache@, depth),
    {
        let mut i: usize = 0;
        assert(self.batches@ =~= old(self).batches@ + replayed(cache@.take(0), depth));
        while i < cache.len()
            invariant
                i <= cache.len(),
                self.images == old(self).images,
                self.glyphs == old(self).glyphs,
                self.intercepts == old(self).intercepts,
                self.epoch == old(self).epoch,
                self.open == old(self).open,
                self.batches@ == old(self).batches@ + replayed(cache@.take(i as int), depth),
            decreases cache.len() - i,
        {
            match cache[i] {
                CachedRect::Image(data) => {
                    self.batches.add_image_rect(
                        &data.rect,
                        depth,
                        &data.color,
                        &data.coords,
                        data.image,
                        data.has_alpha,
                    );
                },
                CachedRect::Mask(data) => {
                    self.batches.add_mask_rect(
                        &data.rect,
                        depth,
                        &data.color,
                        &data.coords,
                        data.image,
                        data.has_alpha,
                    );
                },
                CachedRect::Standard(pair) => {
                    self.batches.add_rect(&pair.0, depth, &pair.1);
                },
            }
            proof {
                assert(replayed(cache@.take(i + 1), depth) =~= replayed(
                    cache@.take(i as int),
                    depth,
                ).push(cache@[i as int].command(depth)));
            }
            i += 1;
        }
        assert(cache@.take(cache.len() as int) =~= cache@);
    }

    /// Draws a text run, and returns what was drawn.
    pub fn draw_glyphs(
        &mut self,
        rect: Rect,
        depth: Fixed,
        style: &TextRunStyle,
        glyphs: &Vec<Glyph>,
    ) -> (result: Vec<CachedRect>)
        requires
            old(self).wf(),
            old(self).is_open(),
        ensures
            final(self).wf(),
            final(self).same_caches(old(self)),
            final(self).intercepts() == old(self).intercepts(),
            result@ == run_output(old(self).glyphs(), old(self).images(), rect, *style, glyphs@),
            final(self).batch() == batch_after_replay(old(self).batch(), result@, depth),
            final(self).batch() == batch_after_run(
                old(self).batch(),
                old(self).glyphs(),
                old(self).images(),
                rect,
                depth,
                *style,
                glyphs@,
            ),
    {
        let underline: Option<UnderlineStyle> = style.underline;
        if underline.is_some() {
            self.intercepts.clear();
        }
        let mut result: Vec<CachedRect> = Vec::new();
        let ghost known = self.glyphs.glyphs();
        let ghost placed = self.images.images();
        let session = self.glyphs.session(
            &self.images,
            style.font,
            &style.font_coords,
            style.font_size,
        );
        let mut i: usize = 0;
        assert(glyphs@.take(0) =~= Seq::<Glyph>::empty());
        assert(self.batches@ =~= old(self).batches@ + replayed(result@, depth));
        while i < glyphs.len()
            invariant
                i <= glyphs.len(),
                self.images == old(self).images,
                self.glyphs == old(self).glyphs,
                self.epoch == old(self).epoch,
                self.open == old(self).open,
                session.wf(),
                session.glyphs() == known,
                session.images() == placed,
                session.font() == style.font,
                session.coords() == style.font_coords@,
                session.size() == style.font_size,
                underline == style.underline,
                result@ == glyphs_output(known, placed, rect, *style, glyphs@.take(i as int)),
                self.batches@ == old(self).batches@ + replayed(result@, depth),
                match underline {
                    Some(u) => self.intercepts@ == run_intercepts(
                        known,
                        placed,
                        *style,
                        u,
                        glyphs@.take(i as int),
                    ),
                    None => self.intercepts@.len() == 0,
                },
            decreases glyphs.len() - i,
        {
            let glyph: Glyph = glyphs[i];
            let ghost drawn = result@;
            let ghost kept = self.intercepts@;
            proof {
                let next = glyphs@.take(i + 1);
                assert(next.drop_last() =~= glyphs@.take(i as int));
                assert(next.last() == glyph);
            }
            let ghost mut missed = true;
            if let Some(entry) = session.get(glyph.id, glyph.x, glyph.y) {
                if let Some(location) = session.get_image(entry.image) {
                    proof {
                        missed = false;
                    }
                    let gx = draw_found(
                        &mut self.batches,
                        &mut result,
                        &rect,
                        depth,
                        style,
                        &glyph,
                        &entry,
                        &location,
                    );
                    if let Some(u) = underline {
                        let reach = Fixed::from_int(entry.top).saturating_sub(u.offset.round());
                        if reach.lt(Fixed::from_int(entry.height as i32)) {
                            if let Some(ink) = entry.desc.range() {
                                self.intercepts.push(
                                    (ink.0.saturating_add(gx), ink.1.saturating_add(gx)),
                                );
                            }
                        }
                        assert(self.intercepts@ =~= kept + glyph_intercepts(
                            known,
                            placed,
                            *style,
                            u,
                            glyph,
                        ));
                    }
                    proof {
                        let more = glyph_rects(rect, *style, glyph, entry, location);
                        lemma_replayed_concat(drawn, more, depth);
                        assert(self.batches@ =~= old(self).batches@ + replayed(result@, depth));
                    }
                }
            }
            proof {
                if missed {
                    assert(found(known, placed, *style, glyph) is None);
                    assert(result@ =~= drawn + glyph_output(known, placed, rect, *style, glyph));
                    if let Some(u) = underline {
                        assert(self.intercepts@ =~= kept + glyph_intercepts(
                            known,
                            placed,
                            *style,
                            u,
                            glyph,
                        ));
                    }
                }
            }
            i += 1;
        }
        assert(glyphs@.take(glyphs.len() as int) =~= glyphs@);
        if let Some(u) = underline {
            let ghost drawn = result@;
            expand_intercepts(&mut self.intercepts);
            let end = rect.x.saturating_add(rect.width);
            let segments = sweep(&self.intercepts, rect.x, end);
            let y = style.baseline.saturating_sub(u.offset.round());
            let size = u.size.round().max(Fixed::one());
            draw_segments(&mut self.batches, &mut result, &segments, depth, y, size, u.color);
            self.intercepts.clear();
            proof {
                lemma_replayed_concat(drawn, underline_rects(segments@, y, size, u.color), depth);
                assert(self.batches@ =~= old(self).batches@ + replayed(result@, depth));
            }
        } else {
            assert(result@ =~= result@ + Seq::<CachedRect>::empty());
        }
        result
    }
}

} // verus!
