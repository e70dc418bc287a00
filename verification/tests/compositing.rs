use sugarloaf::batch::{Command, DisplayList, Rect, TexCoords};
use sugarloaf::color::Color;
use sugarloaf::compositor::{CachedRect, ComposedRect, Compositor};
use sugarloaf::fixed::Fixed;
use sugarloaf::glyph_cache::{DescenderRegion, GlyphCacheEntry};
use sugarloaf::image_cache::{AddImage, ImageId, ImageLocation, TextureEvent, TextureId};
use sugarloaf::text::{Glyph, SugarCursor, TextRunStyle, UnderlineStyle};

fn px(units: i32) -> Fixed {
    Fixed::from_int(units)
}

const TEXT: Color = Color { r: 10, g: 20, b: 30, a: 40 };
const PAPER: Color = Color { r: 1, g: 2, b: 3, a: 4 };
const INK: Color = Color { r: 5, g: 6, b: 7, a: 8 };
const LINE: Color = Color { r: 9, g: 9, b: 9, a: 9 };

fn plain_style() -> TextRunStyle {
    TextRunStyle {
        font: 1,
        font_coords: vec![],
        font_size: px(12),
        color: TEXT,
        background_color: None,
        underline: None,
        cursor: SugarCursor::Disabled,
        baseline: px(30),
        topline: px(20),
        line_height: px(14),
    }
}

fn request(width: u16, height: u16, has_alpha: bool) -> AddImage {
    AddImage { width, height, has_alpha, data: vec![0xab; 4] }
}

/// Registers an image and a glyph entry over it, and returns the entry.
fn cache_glyph(
    compositor: &mut Compositor,
    style: &TextRunStyle,
    glyph: &Glyph,
    bearings: (i32, i32),
    size: (u16, u16),
    is_bitmap: bool,
    desc: DescenderRegion,
) -> GlyphCacheEntry {
    let image = compositor.add_image(request(size.0, size.1, is_bitmap)).unwrap();
    let entry = GlyphCacheEntry {
        left: bearings.0,
        top: bearings.1,
        width: size.0,
        height: size.1,
        image,
        is_bitmap,
        desc,
    };
    compositor.insert_glyph(style, glyph, entry);
    entry
}

/// A compositor in its first frame.
fn started(max_texture_size: u16) -> Compositor {
    let mut compositor = Compositor::new(max_texture_size);
    compositor.begin();
    compositor
}

fn finish(compositor: &mut Compositor) -> (Vec<Command>, Vec<TextureEvent>) {
    let mut list = DisplayList::new();
    let mut events = Vec::new();
    compositor.finish(&mut list, &mut events);
    ((0..list.len()).map(|i| list.get(i).unwrap()).collect(), events)
}

fn whole() -> TexCoords {
    TexCoords { min_u: px(0), min_v: px(0), max_u: px(1), max_v: px(1) }
}

#[test]
fn begin_then_finish_is_an_empty_frame() {
    let mut compositor = Compositor::new(1024);
    compositor.begin();
    let (commands, events) = finish(&mut compositor);
    assert!(commands.is_empty());
    assert!(events.is_empty());
}

#[test]
fn begin_forgets_what_was_drawn() {
    let mut compositor = Compositor::new(1024);
    compositor.begin();
    compositor.draw_rect(Rect::new(px(0), px(0), px(1), px(1)), px(0), &INK);
    compositor.begin();
    let (commands, _) = finish(&mut compositor);
    assert!(commands.is_empty());
}

#[test]
fn a_frame_is_open_from_begin_to_finish() {
    let mut compositor = Compositor::new(16);
    assert!(!compositor.in_frame());
    compositor.begin();
    assert!(compositor.in_frame());
    compositor.begin();
    assert!(compositor.in_frame());
    finish(&mut compositor);
    assert!(!compositor.in_frame());
    finish(&mut compositor);
    assert!(!compositor.in_frame());
}

#[test]
fn begin_counts_frames() {
    let mut compositor = Compositor::new(16);
    assert_eq!(compositor.epoch(), 0);
    compositor.begin();
    compositor.begin();
    assert_eq!(compositor.epoch(), 2);
}

#[test]
fn second_finish_is_empty() {
    let mut compositor = Compositor::new(1024);
    compositor.begin();
    compositor.add_image(request(4, 4, false)).unwrap();
    compositor.draw_rect(Rect::new(px(1), px(2), px(3), px(4)), px(5), &INK);
    let (commands, events) = finish(&mut compositor);
    assert_eq!(
        commands,
        vec![Command::Rect { rect: Rect::new(px(1), px(2), px(3), px(4)), depth: px(5), color: INK }]
    );
    assert_eq!(events.len(), 1);
    let (commands, events) = finish(&mut compositor);
    assert!(commands.is_empty());
    assert!(events.is_empty());
}

#[test]
fn finish_appends_events_to_the_sink() {
    let mut compositor = Compositor::new(1024);
    let first = compositor.add_image(request(4, 2, true)).unwrap();
    let second = compositor.add_image(request(8, 8, false)).unwrap();
    assert!(compositor.remove_image(first));
    let mut list = DisplayList::new();
    let mut events = vec![TextureEvent::DestroyTexture(TextureId(99))];
    compositor.finish(&mut list, &mut events);
    assert_eq!(
        events,
        vec![
            TextureEvent::DestroyTexture(TextureId(99)),
            TextureEvent::CreateTexture {
                id: TextureId(first.serial),
                width: 4,
                height: 2,
                has_alpha: true,
                data: vec![0xab; 4],
            },
            TextureEvent::CreateTexture {
                id: TextureId(second.serial),
                width: 8,
                height: 8,
                has_alpha: false,
                data: vec![0xab; 4],
            },
            TextureEvent::DestroyTexture(TextureId(first.serial)),
        ]
    );
}

#[test]
fn images_are_registered_found_and_removed() {
    let mut compositor = started(64);
    let id = compositor.add_image(request(64, 64, true)).unwrap();
    assert!(id.has_alpha());
    assert_eq!(id, ImageId::new(0, true));
    let location = compositor.get_image(id).unwrap();
    assert_eq!(
        location,
        ImageLocation { texture_id: TextureId(0), min: (px(0), px(0)), max: (px(1), px(1)) }
    );
    let other = compositor.add_image(request(1, 1, false)).unwrap();
    assert!(!other.has_alpha());
    assert_ne!(other, id);
    assert!(compositor.remove_image(id));
    assert_eq!(compositor.get_image(id), None);
    assert!(!compositor.remove_image(id));
    assert!(compositor.get_image(other).is_some());
}

#[test]
fn a_handle_is_not_issued_twice() {
    let mut compositor = started(64);
    let first = compositor.add_image(request(2, 2, false)).unwrap();
    assert!(compositor.remove_image(first));
    let second = compositor.add_image(request(2, 2, false)).unwrap();
    assert_ne!(first, second);
    assert_eq!(compositor.get_image(first), None);
}

#[test]
fn a_handle_with_the_wrong_alpha_flag_finds_nothing() {
    let mut compositor = started(64);
    let id = compositor.add_image(request(2, 2, false)).unwrap();
    assert_eq!(compositor.get_image(ImageId::new(id.serial, true)), None);
}

#[test]
fn too_large_an_image_is_refused_and_nothing_changes() {
    let mut compositor = started(64);
    let kept = compositor.add_image(request(64, 1, false)).unwrap();
    assert_eq!(compositor.add_image(request(65, 1, false)), None);
    assert_eq!(compositor.add_image(request(1, 65, false)), None);
    assert!(compositor.get_image(kept).is_some());
    let (_, events) = finish(&mut compositor);
    assert_eq!(events.len(), 1);
    // the refusals took no handle
    assert_eq!(compositor.add_image(request(1, 1, false)), Some(ImageId::new(1, false)));
}

#[test]
fn draw_image_of_an_unregistered_handle_draws_nothing() {
    let mut compositor = started(64);
    compositor.begin();
    compositor.draw_image(Rect::new(px(0), px(0), px(4), px(4)), px(1), &INK, ImageId::new(7, false));
    let gone = compositor.add_image(request(2, 2, false)).unwrap();
    compositor.remove_image(gone);
    compositor.draw_image(Rect::new(px(0), px(0), px(4), px(4)), px(1), &INK, gone);
    let (commands, _) = finish(&mut compositor);
    assert!(commands.is_empty());
}

#[test]
fn draw_image_draws_the_whole_texture() {
    let mut compositor = started(64);
    compositor.begin();
    let id = compositor.add_image(request(2, 2, true)).unwrap();
    let rect = Rect::new(px(3), px(4), px(5), px(6));
    compositor.draw_image(rect, px(2), &INK, id);
    let (commands, _) = finish(&mut compositor);
    assert_eq!(
        commands,
        vec![Command::Image {
            rect,
            depth: px(2),
            color: INK,
            coords: whole(),
            image: TextureId(id.serial),
            has_alpha: true,
        }]
    );
}

#[test]
fn a_missed_glyph_draws_nothing() {
    let mut compositor = started(64);
    compositor.begin();
    let mut style = plain_style();
    style.background_color = Some(PAPER);
    style.cursor = SugarCursor::Block(INK);
    let glyphs = vec![Glyph { id: 3, x: px(0), y: px(0) }, Glyph { id: 4, x: px(8), y: px(0) }];
    let result = compositor.draw_glyphs(Rect::new(px(0), px(0), px(16), px(14)), px(0), &style, &glyphs);
    assert!(result.is_empty());
    let (commands, _) = finish(&mut compositor);
    assert!(commands.is_empty());
}

#[test]
fn a_glyph_whose_image_is_gone_draws_nothing() {
    let mut compositor = started(64);
    compositor.begin();
    let style = plain_style();
    let glyph = Glyph { id: 3, x: px(0), y: px(0) };
    let entry = cache_glyph(&mut compositor, &style, &glyph, (0, 0), (4, 4), false, DescenderRegion::none());
    assert!(compositor.remove_image(entry.image));
    let result = compositor.draw_glyphs(Rect::new(px(0), px(0), px(8), px(14)), px(0), &style, &vec![glyph]);
    assert!(result.is_empty());
    let (commands, _) = finish(&mut compositor);
    assert!(commands.is_empty());
}

#[test]
fn a_missed_glyph_between_found_ones_leaves_no_trace() {
    let mut compositor = started(64);
    let style = plain_style();
    let a = Glyph { id: 1, x: px(0), y: px(0) };
    let missing = Glyph { id: 2, x: px(8), y: px(0) };
    let b = Glyph { id: 3, x: px(16), y: px(0) };
    cache_glyph(&mut compositor, &style, &a, (0, 0), (4, 4), false, DescenderRegion::none());
    cache_glyph(&mut compositor, &style, &b, (0, 0), (4, 4), false, DescenderRegion::none());
    let rect = Rect::new(px(0), px(0), px(24), px(14));
    let with = compositor.draw_glyphs(rect, px(0), &style, &vec![a, missing, b]);
    let without = compositor.draw_glyphs(rect, px(0), &style, &vec![a, b]);
    assert_eq!(with.len(), 2);
    assert_eq!(with, without);
}

#[test]
fn a_mask_glyph_is_placed_by_pen_and_bearings() {
    let mut compositor = started(64);
    compositor.begin();
    let style = plain_style();
    // pen at 10 + 58/64: the bias of 8/64 carries it over to 11
    let glyph = Glyph { id: 3, x: Fixed::from_raw(10 * 64 + 58), y: Fixed::from_raw(20 * 64 + 63) };
    let entry = cache_glyph(&mut compositor, &style, &glyph, (2, 9), (7, 11), false, DescenderRegion::none());
    let result = compositor.draw_glyphs(Rect::new(px(100), px(0), px(8), px(14)), px(3), &style, &vec![glyph]);
    let expected = ComposedRect {
        rect: Rect::new(px(13), px(11), px(7), px(11)),
        coords: whole(),
        color: TEXT,
        has_alpha: true,
        image: TextureId(entry.image.serial),
    };
    assert_eq!(result, vec![CachedRect::Mask(expected)]);
    let (commands, _) = finish(&mut compositor);
    assert_eq!(
        commands,
        vec![Command::Mask {
            rect: expected.rect,
            depth: px(3),
            color: TEXT,
            coords: whole(),
            image: expected.image,
            has_alpha: true,
        }]
    );
}

#[test]
fn the_bias_does_not_carry_a_pen_below_seven_eighths() {
    let mut compositor = started(64);
    let style = plain_style();
    let below = Glyph { id: 3, x: Fixed::from_raw(10 * 64 + 55), y: px(0) };
    let at = Glyph { id: 3, x: Fixed::from_raw(10 * 64 + 56), y: px(0) };
    let negative = Glyph { id: 3, x: Fixed::from_raw(-9), y: Fixed::from_raw(-1) };
    for glyph in [below, at, negative] {
        cache_glyph(&mut compositor, &style, &glyph, (0, 0), (1, 1), false, DescenderRegion::none());
    }
    let rect = Rect::new(px(0), px(0), px(8), px(14));
    let result = compositor.draw_glyphs(rect, px(0), &style, &vec![below, at, negative]);
    let origins: Vec<(Fixed, Fixed)> = result
        .iter()
        .map(|item| match item {
            CachedRect::Mask(data) => (data.rect.x, data.rect.y),
            _ => unreachable!(),
        })
        .collect();
    assert_eq!(origins, vec![(px(10), px(0)), (px(11), px(0)), (px(-1), px(-1))]);
}

#[test]
fn a_glyph_is_found_by_the_fraction_of_its_pen() {
    let mut compositor = started(64);
    let style = plain_style();
    let cached = Glyph { id: 3, x: Fixed::from_raw(16), y: px(0) };
    cache_glyph(&mut compositor, &style, &cached, (0, 0), (1, 1), false, DescenderRegion::none());
    let rect = Rect::new(px(0), px(0), px(8), px(14));
    let same_fraction = Glyph { id: 3, x: Fixed::from_raw(5 * 64 + 16), y: px(-2) };
    let other_fraction = Glyph { id: 3, x: Fixed::from_raw(17), y: px(0) };
    let other_id = Glyph { id: 4, x: Fixed::from_raw(16), y: px(0) };
    assert_eq!(compositor.draw_glyphs(rect, px(0), &style, &vec![same_fraction]).len(), 1);
    assert!(compositor.draw_glyphs(rect, px(0), &style, &vec![other_fraction]).is_empty());
    assert!(compositor.draw_glyphs(rect, px(0), &style, &vec![other_id]).is_empty());
    let mut other_font = plain_style();
    other_font.font = 2;
    assert!(compositor.draw_glyphs(rect, px(0), &other_font, &vec![cached]).is_empty());
    let mut other_size = plain_style();
    other_size.font_size = px(13);
    assert!(compositor.draw_glyphs(rect, px(0), &other_size, &vec![cached]).is_empty());
    let mut other_coords = plain_style();
    other_coords.font_coords = vec![100];
    assert!(compositor.draw_glyphs(rect, px(0), &other_coords, &vec![cached]).is_empty());
}

#[test]
fn a_later_entry_replaces_an_earlier_one() {
    let mut compositor = started(64);
    let style = plain_style();
    let glyph = Glyph { id: 3, x: px(0), y: px(0) };
    cache_glyph(&mut compositor, &style, &glyph, (0, 0), (1, 1), false, DescenderRegion::none());
    cache_glyph(&mut compositor, &style, &glyph, (5, 0), (2, 2), false, DescenderRegion::none());
    let rect = Rect::new(px(0), px(0), px(8), px(14));
    let result = compositor.draw_glyphs(rect, px(0), &style, &vec![glyph]);
    match result[..] {
        [CachedRect::Mask(data)] => assert_eq!(data.rect, Rect::new(px(5), px(0), px(2), px(2))),
        _ => panic!("one mask expected"),
    }
}

#[test]
fn a_bitmap_glyph_is_an_image_in_opaque_white() {
    let mut compositor = started(64);
    compositor.begin();
    let style = plain_style();
    let glyph = Glyph { id: 9, x: px(1), y: px(2) };
    let entry = cache_glyph(&mut compositor, &style, &glyph, (0, 0), (16, 16), true, DescenderRegion::none());
    assert!(entry.image.has_alpha());
    let result = compositor.draw_glyphs(Rect::new(px(0), px(0), px(16), px(14)), px(0), &style, &vec![glyph]);
    let white = Color::new(0x3f80_0000, 0x3f80_0000, 0x3f80_0000, 0x3f80_0000);
    assert_eq!(Color::opaque_white(), white);
    assert_eq!(f32::from_bits(white.a), 1.0);
    assert_eq!(
        result,
        vec![CachedRect::Image(ComposedRect {
            rect: Rect::new(px(1), px(2), px(16), px(16)),
            coords: whole(),
            color: white,
            has_alpha: true,
            image: TextureId(entry.image.serial),
        })]
    );
}

#[test]
fn a_bitmap_glyph_takes_its_alpha_flag_from_its_image() {
    let mut compositor = started(64);
    let style = plain_style();
    let glyph = Glyph { id: 9, x: px(0), y: px(0) };
    let image = compositor.add_image(request(2, 2, false)).unwrap();
    let entry = GlyphCacheEntry {
        left: 0,
        top: 0,
        width: 2,
        height: 2,
        image,
        is_bitmap: true,
        desc: DescenderRegion::none(),
    };
    compositor.insert_glyph(&style, &glyph, entry);
    let result = compositor.draw_glyphs(Rect::new(px(0), px(0), px(8), px(14)), px(0), &style, &vec![glyph]);
    match result[..] {
        [CachedRect::Image(data)] => assert!(!data.has_alpha),
        _ => panic!("one image expected"),
    }
}

#[test]
fn background_follows_the_glyph() {
    let mut compositor = started(64);
    let mut style = plain_style();
    style.background_color = Some(PAPER);
    let glyph = Glyph { id: 3, x: px(50), y: px(60) };
    cache_glyph(&mut compositor, &style, &glyph, (0, 0), (4, 4), false, DescenderRegion::none());
    let rect = Rect::new(px(7), px(99), px(9), px(77));
    let result = compositor.draw_glyphs(rect, px(0), &style, &vec![glyph]);
    assert_eq!(result.len(), 2);
    assert!(matches!(result[0], CachedRect::Mask(_)));
    assert_eq!(result[1], CachedRect::Standard((Rect::new(px(7), px(20), px(9), px(14)), PAPER)));
}

#[test]
fn block_cursor_covers_the_cell() {
    let mut compositor = started(64);
    let mut style = plain_style();
    style.cursor = SugarCursor::Block(INK);
    let glyph = Glyph { id: 3, x: px(50), y: px(60) };
    cache_glyph(&mut compositor, &style, &glyph, (0, 0), (4, 4), false, DescenderRegion::none());
    let rect = Rect::new(px(7), px(99), px(9), px(77));
    let result = compositor.draw_glyphs(rect, px(0), &style, &vec![glyph]);
    assert_eq!(result.len(), 2);
    assert_eq!(result[1], CachedRect::Standard((Rect::new(px(7), px(20), px(9), px(14)), INK)));
}

#[test]
fn caret_cursor_is_three_units_wide() {
    let mut compositor = started(64);
    let mut style = plain_style();
    style.cursor = SugarCursor::Caret(INK);
    let glyph = Glyph { id: 3, x: px(50), y: px(60) };
    cache_glyph(&mut compositor, &style, &glyph, (0, 0), (4, 4), false, DescenderRegion::none());
    let rect = Rect::new(px(7), px(99), px(9), px(77));
    let result = compositor.draw_glyphs(rect, px(0), &style, &vec![glyph]);
    assert_eq!(result.len(), 2);
    assert_eq!(result[1], CachedRect::Standard((Rect::new(px(7), px(20), px(3), px(14)), INK)));
}

#[test]
fn glyph_then_background_then_cursor_for_each_glyph() {
    let mut compositor = started(64);
    let mut style = plain_style();
    style.background_color = Some(PAPER);
    style.cursor = SugarCursor::Block(INK);
    let a = Glyph { id: 1, x: px(0), y: px(0) };
    let b = Glyph { id: 2, x: px(8), y: px(0) };
    cache_glyph(&mut compositor, &style, &a, (0, 0), (4, 4), false, DescenderRegion::none());
    cache_glyph(&mut compositor, &style, &b, (0, 0), (4, 4), true, DescenderRegion::none());
    let rect = Rect::new(px(0), px(0), px(16), px(14));
    let result = compositor.draw_glyphs(rect, px(0), &style, &vec![a, b]);
    let cell = Rect::new(px(0), px(20), px(16), px(14));
    assert_eq!(result.len(), 6);
    assert!(matches!(result[0], CachedRect::Mask(_)));
    assert_eq!(result[1], CachedRect::Standard((cell, PAPER)));
    assert_eq!(result[2], CachedRect::Standard((cell, INK)));
    assert!(matches!(result[3], CachedRect::Image(_)));
    assert_eq!(result[4], CachedRect::Standard((cell, PAPER)));
    assert_eq!(result[5], CachedRect::Standard((cell, INK)));
}

fn underlined(offset: Fixed, size: Fixed) -> TextRunStyle {
    let mut style = plain_style();
    style.underline = Some(UnderlineStyle { offset, size, color: LINE });
    style
}

fn standard_rects(result: &[CachedRect]) -> Vec<(Rect, Color)> {
    result
        .iter()
        .filter_map(|item| match item {
            CachedRect::Standard(pair) => Some(*pair),
            _ => None,
        })
        .collect()
}

#[test]
fn underline_is_gapped_around_descenders() {
    let mut compositor = started(64);
    compositor.begin();
    let style = underlined(px(1), px(1));
    let a = Glyph { id: 1, x: px(0), y: px(0) };
    let b = Glyph { id: 2, x: px(0), y: px(0) };
    cache_glyph(&mut compositor, &style, &a, (0, 5), (6, 10), false, DescenderRegion::new(2, 4));
    cache_glyph(&mut compositor, &style, &b, (0, 5), (6, 10), false, DescenderRegion::new(10, 12));
    let rect = Rect::new(px(0), px(0), px(20), px(14));
    let result = compositor.draw_glyphs(rect, px(0), &style, &vec![a, b]);
    assert_eq!(result.len(), 5);
    assert_eq!(
        standard_rects(&result),
        vec![
            (Rect::new(px(0), px(29), px(1), px(1)), LINE),
            (Rect::new(px(5), px(29), px(4), px(1)), LINE),
            (Rect::new(px(13), px(29), px(7), px(1)), LINE),
        ]
    );
    for (rect, _) in standard_rects(&result) {
        assert!(rect.width.raw > 0);
    }
    let (commands, _) = finish(&mut compositor);
    assert_eq!(commands.len(), 5);
}

#[test]
fn descender_ink_moves_with_the_glyph() {
    let mut compositor = started(64);
    let style = underlined(px(0), px(2));
    // pen at 3.5, left bearing 2: drawn at 5; ink in columns 1..=2 lies at 6..7
    let glyph = Glyph { id: 1, x: Fixed::from_raw(3 * 64 + 32), y: px(0) };
    cache_glyph(&mut compositor, &style, &glyph, (2, 0), (6, 1), false, DescenderRegion::new(1, 2));
    let rect = Rect::new(px(1), px(0), px(10), px(14));
    let result = compositor.draw_glyphs(rect, px(0), &style, &vec![glyph]);
    assert_eq!(
        standard_rects(&result),
        vec![
            (Rect::new(px(1), px(30), px(4), px(2)), LINE),
            (Rect::new(px(8), px(30), px(3), px(2)), LINE),
        ]
    );
}

#[test]
fn a_glyph_above_the_underline_leaves_no_gap() {
    let mut compositor = started(64);
    let style = underlined(px(-2), px(1));
    // top bearing 8 less offset -2 is 10: not below the height of 10
    let high = Glyph { id: 1, x: px(0), y: px(0) };
    cache_glyph(&mut compositor, &style, &high, (0, 8), (6, 10), false, DescenderRegion::new(2, 4));
    let rect = Rect::new(px(0), px(0), px(20), px(14));
    let result = compositor.draw_glyphs(rect, px(0), &style, &vec![high]);
    assert_eq!(standard_rects(&result), vec![(Rect::new(px(0), px(32), px(20), px(1)), LINE)]);
    // one unit less of top bearing, and it reaches the underline
    let low = Glyph { id: 2, x: px(0), y: px(0) };
    cache_glyph(&mut compositor, &style, &low, (0, 7), (6, 10), false, DescenderRegion::new(2, 4));
    let result = compositor.draw_glyphs(rect, px(0), &style, &vec![low]);
    assert_eq!(
        standard_rects(&result),
        vec![
            (Rect::new(px(0), px(32), px(1), px(1)), LINE),
            (Rect::new(px(5), px(32), px(15), px(1)), LINE),
        ]
    );
}

#[test]
fn a_glyph_without_descender_ink_leaves_no_gap() {
    let mut compositor = started(64);
    let style = underlined(px(0), px(1));
    let glyph = Glyph { id: 1, x: px(0), y: px(0) };
    cache_glyph(&mut compositor, &style, &glyph, (0, 0), (6, 10), false, DescenderRegion::new(5, 4));
    let rect = Rect::new(px(0), px(0), px(20), px(14));
    let result = compositor.draw_glyphs(rect, px(0), &style, &vec![glyph]);
    assert_eq!(standard_rects(&result), vec![(Rect::new(px(0), px(30), px(20), px(1)), LINE)]);
    assert_eq!(DescenderRegion::new(5, 4).range(), None);
    assert_eq!(DescenderRegion::none().range(), None);
    assert_eq!(DescenderRegion::new(4, 4).range(), Some((px(4), px(4))));
}

#[test]
fn underline_offset_and_size_are_rounded() {
    let mut compositor = started(64);
    let rect = Rect::new(px(0), px(0), px(20), px(14));
    // offset 1.5 rounds to 2, size 0.25 rounds to 0 and is raised to 1
    let style = underlined(Fixed::from_raw(96), Fixed::from_raw(16));
    let result = compositor.draw_glyphs(rect, px(0), &style, &vec![]);
    assert_eq!(result, vec![CachedRect::Standard((Rect::new(px(0), px(28), px(20), px(1)), LINE))]);
    // offset -1.5 rounds to -2, size 2.5 rounds to 3
    let style = underlined(Fixed::from_raw(-96), Fixed::from_raw(160));
    let result = compositor.draw_glyphs(rect, px(0), &style, &vec![]);
    assert_eq!(result, vec![CachedRect::Standard((Rect::new(px(0), px(32), px(20), px(3)), LINE))]);
}

#[test]
fn an_underlined_run_without_width_has_no_underline() {
    let mut compositor = started(64);
    let style = underlined(px(0), px(1));
    let rect = Rect::new(px(4), px(0), px(0), px(14));
    assert!(compositor.draw_glyphs(rect, px(0), &style, &vec![]).is_empty());
    let rect = Rect::new(px(4), px(0), px(-1), px(14));
    assert!(compositor.draw_glyphs(rect, px(0), &style, &vec![]).is_empty());
}

#[test]
fn intercepts_do_not_leak_into_the_next_run() {
    let mut compositor = started(64);
    let style = underlined(px(1), px(1));
    let glyph = Glyph { id: 1, x: px(0), y: px(0) };
    cache_glyph(&mut compositor, &style, &glyph, (0, 5), (6, 10), false, DescenderRegion::new(2, 4));
    let rect = Rect::new(px(0), px(0), px(20), px(14));
    let first = compositor.draw_glyphs(rect, px(0), &style, &vec![glyph]);
    assert_eq!(standard_rects(&first).len(), 2);
    let second = compositor.draw_glyphs(rect, px(0), &style, &vec![]);
    assert_eq!(standard_rects(&second), vec![(Rect::new(px(0), px(29), px(20), px(1)), LINE)]);
}

#[test]
fn a_run_without_underline_draws_no_underline() {
    let mut compositor = started(64);
    let with = underlined(px(1), px(1));
    let without = plain_style();
    let glyph = Glyph { id: 1, x: px(0), y: px(0) };
    cache_glyph(&mut compositor, &with, &glyph, (0, 5), (6, 10), false, DescenderRegion::new(2, 4));
    let rect = Rect::new(px(0), px(0), px(20), px(14));
    let underlined_run = compositor.draw_glyphs(rect, px(0), &with, &vec![glyph]);
    assert_eq!(underlined_run.len(), 3);
    let plain_run = compositor.draw_glyphs(rect, px(0), &without, &vec![glyph]);
    assert_eq!(plain_run.len(), 1);
    assert!(standard_rects(&plain_run).is_empty());
    assert_eq!(plain_run[0], underlined_run[0]);
}

#[test]
fn replay_fills_the_batch_as_the_run_did() {
    let mut compositor = started(64);
    let mut style = underlined(px(1), px(1));
    style.background_color = Some(PAPER);
    style.cursor = SugarCursor::Caret(INK);
    let a = Glyph { id: 1, x: px(0), y: px(0) };
    let b = Glyph { id: 2, x: px(8), y: px(0) };
    let missing = Glyph { id: 3, x: px(16), y: px(0) };
    cache_glyph(&mut compositor, &style, &a, (0, 5), (6, 10), false, DescenderRegion::new(2, 4));
    cache_glyph(&mut compositor, &style, &b, (1, 5), (6, 10), true, DescenderRegion::none());
    let rect = Rect::new(px(0), px(0), px(24), px(14));

    compositor.begin();
    let result = compositor.draw_glyphs(rect, px(4), &style, &vec![a, missing, b]);
    let (drawn, _) = finish(&mut compositor);
    assert_eq!(drawn.len(), result.len());
    assert_eq!(drawn.len(), 8);

    compositor.begin();
    compositor.draw_glyphs_from_cache(&result, px(4));
    let (replayed, _) = finish(&mut compositor);
    assert_eq!(replayed, drawn);
}

#[test]
fn replay_draws_each_kind_at_the_given_depth() {
    let mut compositor = started(64);
    compositor.begin();
    let data = ComposedRect {
        rect: Rect::new(px(1), px(2), px(3), px(4)),
        coords: TexCoords { min_u: px(5), min_v: px(6), max_u: px(7), max_v: px(8) },
        color: TEXT,
        has_alpha: false,
        image: TextureId(11),
    };
    let flat = Rect::new(px(9), px(9), px(9), px(9));
    let cache = vec![CachedRect::Image(data), CachedRect::Mask(data), CachedRect::Standard((flat, PAPER))];
    compositor.draw_glyphs_from_cache(&cache, px(6));
    compositor.draw_glyphs_from_cache(&Vec::new(), px(6));
    let (commands, _) = finish(&mut compositor);
    assert_eq!(
        commands,
        vec![
            Command::Image {
                rect: data.rect,
                depth: px(6),
                color: TEXT,
                coords: data.coords,
                image: TextureId(11),
                has_alpha: false,
            },
            Command::Mask {
                rect: data.rect,
                depth: px(6),
                color: TEXT,
                coords: data.coords,
                image: TextureId(11),
                has_alpha: false,
            },
            Command::Rect { rect: flat, depth: px(6), color: PAPER },
        ]
    );
}

#[test]
fn runs_at_lower_depth_come_first_in_the_display_list() {
    let mut compositor = started(64);
    compositor.begin();
    let over = Rect::new(px(1), px(0), px(1), px(1));
    let under = Rect::new(px(2), px(0), px(1), px(1));
    compositor.draw_rect(over, px(2), &INK);
    compositor.draw_rect(under, px(1), &PAPER);
    let (commands, _) = finish(&mut compositor);
    assert_eq!(
        commands,
        vec![
            Command::Rect { rect: under, depth: px(1), color: PAPER },
            Command::Rect { rect: over, depth: px(2), color: INK },
        ]
    );
}
