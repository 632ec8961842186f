//! Composing frames, resizing, and the cache of encoded frames.

use std::sync::Arc;

use svreader::buffer::BufferId;
use svreader::cache::{CacheKey, CachedPage, RenderCache};
use svreader::document::{Document, MatchRect, PageError, PageInfo, PageMetrics, PageSize, PdfRect};
use svreader::ecache_fill::{fill_source, plan, walk, RefillRequest};
use svreader::encoded_cache::{ComposedEncodedCache, EncodeFlight, EncodedFrame, EncodedKey};
use svreader::number::Real32;
use svreader::picture::Image;
use svreader::renderer::{
    bring, Highlights, Renderer, Sampling, Scales, Spot, Tint, NEW_SIDE, OLD_SIDE,
};
use svreader::sixel_write::ColorMode;
use svreader::viewport::{Look, Rotation, Viewport};

fn single(x: f32) -> Real32 {
    Real32 { bits: x.to_bits() }
}

fn key(page: usize) -> EncodedKey {
    let v = Viewport { page_idx: page, ..Viewport::default() };
    EncodedKey::from_viewport(BufferId(1), &v, single(1.0), single(1.0), ColorMode::XTerm256)
}

fn frame(name: &str) -> Arc<EncodedFrame> {
    Arc::new(EncodedFrame { dcs: name.to_string(), pixel_height: 10 })
}

/// A picture whose pixels are all different.
fn picture(width: u32, height: u32) -> Image {
    let mut p = Image::new(width, height);
    for i in 0..p.data.len() {
        p.data[i] = if i % 4 == 3 { 255 } else { (i * 7 % 251) as u8 };
    }
    p
}

fn page_of(image: Image) -> CachedPage {
    CachedPage { page_idx: 0, rotation: Rotation::R0, display_scale: single(1.0), image }
}

fn pixel(p: &Image, x: u32, y: u32) -> [u8; 4] {
    let i = 4 * (y * p.width + x) as usize;
    [p.data[i], p.data[i + 1], p.data[i + 2], p.data[i + 3]]
}

#[test]
fn the_least_recently_used_frame_goes() {
    let mut c = ComposedEncodedCache::new(2);
    c.insert(key(1), frame("one"));
    c.insert(key(2), frame("two"));
    assert_eq!(c.get(&key(1)).unwrap().dcs, "one");
    c.insert(key(3), frame("three"));
    assert!(c.get(&key(2)).is_none());
    assert_eq!(c.get(&key(1)).unwrap().dcs, "one");
    assert_eq!(c.get(&key(3)).unwrap().dcs, "three");
    assert_eq!(c.stats(), (2, 2));
}

#[test]
fn a_frame_replaces_one_of_the_same_key() {
    let mut c = ComposedEncodedCache::new(2);
    c.insert(key(1), frame("old"));
    c.insert(key(1), frame("new"));
    assert_eq!(c.stats(), (1, 2));
    assert_eq!(c.get(&key(1)).unwrap().dcs, "new");
}

#[test]
fn shrinking_keeps_the_most_recent_frames() {
    let mut c = ComposedEncodedCache::new(4);
    for i in 0..4 {
        c.insert(key(i), frame("f"));
    }
    c.resize(2);
    assert_eq!(c.stats(), (2, 2));
    assert!(c.get(&key(0)).is_none());
    assert!(c.get(&key(3)).is_some());
    c.resize(0);
    assert_eq!(c.stats(), (1, 1));
    c.clear();
    assert_eq!(c.stats(), (0, 1));
}

#[test]
fn a_disabled_frame_cache_is_empty() {
    let mut c = ComposedEncodedCache::new(4);
    c.insert(key(1), frame("f"));
    c.set_enabled(false);
    assert!(!c.enabled());
    assert_eq!(c.stats(), (0, 4));
    c.insert(key(2), frame("g"));
    assert!(c.get(&key(2)).is_none());
    c.set_enabled(true);
    c.insert(key(2), frame("g"));
    assert!(c.get(&key(2)).is_some());
}

#[test]
fn one_frame_is_encoded_once() {
    let mut c = ComposedEncodedCache::new(4);
    assert!(matches!(c.begin(key(1)), EncodeFlight::Lead));
    assert!(matches!(c.begin(key(1)), EncodeFlight::Follow));
    assert!(matches!(c.begin(key(2)), EncodeFlight::Lead));
    let made = EncodedFrame { dcs: "x".to_string(), pixel_height: 3 };
    assert_eq!(c.finish::<()>(key(1), Ok(made)).unwrap().pixel_height, 3);
    assert!(matches!(c.begin(key(1)), EncodeFlight::Hit(_)));
    assert!(c.finish(key(2), Err("broken")).is_err());
    let (_, compose, encode) = c
        .get_or_encode::<(), _>(key(2), || {
            Ok((EncodedFrame { dcs: String::new(), pixel_height: 1 }, 5, 7))
        })
        .unwrap();
    assert_eq!((compose, encode), (5, 7));
    let (_, compose, encode) =
        c.get_or_encode::<(), _>(key(2), || panic!("the frame is cached")).unwrap();
    assert_eq!((compose, encode), (0, 0));
}

#[test]
fn keys_tell_frames_apart() {
    let v = Viewport::default();
    let w = Viewport { y_off: 1, ..Viewport::default() };
    let n = Viewport { night_mode: true, ..Viewport::default() };
    let make = |v: &Viewport, mode: ColorMode| {
        EncodedKey::from_viewport(BufferId(1), v, single(1.0), single(1.0), mode)
    };
    assert_eq!(make(&v, ColorMode::XTerm256), make(&v, ColorMode::XTerm256));
    assert_ne!(make(&v, ColorMode::XTerm256), make(&w, ColorMode::XTerm256));
    assert_ne!(make(&v, ColorMode::XTerm256), make(&n, ColorMode::XTerm256));
    assert_ne!(make(&v, ColorMode::XTerm256), make(&v, ColorMode::Grayscale));
}

#[test]
fn a_frame_shows_the_page_and_pads_the_rest() {
    let page = page_of(picture(2, 2));
    let v = Viewport { screen_w: 4, screen_h: 3, x_off: -1, y_off: 1, ..Viewport::default() };
    let out = Renderer::compose(&page, &v);
    assert_eq!((out.width, out.height), (4, 3));
    assert_eq!(pixel(&out, 0, 0), [0, 0, 0, 255]);
    assert_eq!(pixel(&out, 1, 0), pixel(&page.image, 0, 1));
    assert_eq!(pixel(&out, 2, 0), pixel(&page.image, 1, 1));
    assert_eq!(pixel(&out, 1, 1), [0, 0, 0, 255]);
}

#[test]
fn night_inverts_the_page() {
    let page = page_of(picture(2, 2));
    let day = Viewport { screen_w: 3, screen_h: 2, ..Viewport::default() };
    let night = Viewport { night_mode: true, ..day };
    let a = Renderer::compose(&page, &day);
    let b = Renderer::compose(&page, &night);
    for y in 0..2 {
        for x in 0..2 {
            let (p, q) = (pixel(&a, x, y), pixel(&b, x, y));
            assert_eq!([255 - p[0], 255 - p[1], 255 - p[2], p[3]], q);
        }
    }
    assert_eq!(pixel(&b, 2, 0), [0x28, 0x28, 0x28, 255]);
}

#[test]
fn hits_are_tinted_where_they_lie() {
    let page = page_of(picture(3, 1));
    let v = Viewport { screen_w: 3, screen_h: 1, ..Viewport::default() };
    let plain = Tint { table: (0..768).map(|i| if i < 256 { 11 } else { (i % 256) as u8 }).collect() };
    let strong = Tint { table: (0..768).map(|_| 22).collect() };
    let spots = vec![Spot { x0: 0, y0: 0, x1: 1, y1: 1 }, Spot { x0: 2, y0: 0, x1: 3, y1: 1 }];
    let out = Renderer::compose_with_highlights(&page, &v, &spots, Some(1), &plain, &strong);
    let was = pixel(&page.image, 0, 0);
    assert_eq!(pixel(&out, 0, 0), [11, was[1], was[2], 255]);
    assert_eq!(pixel(&out, 1, 0), pixel(&page.image, 1, 0));
    assert_eq!(pixel(&out, 2, 0), [22, 22, 22, 255]);
}

#[test]
fn the_hits_of_a_page_are_picked_out() {
    let rect = |x: f32| PdfRect { x0: single(x), y0: single(0.0), x1: single(x + 1.0), y1: single(1.0) };
    let size = PageSize { width: single(10.0), height: single(10.0) };
    let hits = vec![
        MatchRect { page_idx: 0, rect: rect(1.0) },
        MatchRect { page_idx: 1, rect: rect(2.0) },
        MatchRect { page_idx: 1, rect: rect(3.0) },
    ];
    let h = Highlights::from_matches(&hits, 1, size, Some(2));
    assert_eq!(h.rects, vec![rect(2.0), rect(3.0)]);
    assert_eq!(h.current, Some(1));
    assert!(!h.is_empty());
    let h = Highlights::from_matches(&hits, 1, size, Some(0));
    assert_eq!(h.current, None);
    assert!(Highlights::from_matches(&hits, 7, size, None).is_empty());
    assert!(Highlights::none().is_empty());
}

#[test]
fn resizing_gives_the_extent_and_mixes_pixels() {
    let p = picture(4, 4);
    let data = p.data.clone();
    let q = bring(p, 2, 3, Sampling::Triangle).unwrap();
    assert_eq!((q.width, q.height), (2, 3));
    assert_eq!(q.data.len(), 24);
    assert_ne!(q.data[..], data[..24]);
    // A picture of one colour stays so.
    let mut grey = Image::new(5, 5);
    grey.data = vec![200; 100];
    let small = bring(grey, 2, 2, Sampling::Triangle).unwrap();
    assert!(small.data.iter().all(|b| *b == 200));
    // Nothing happens where the extent is right.
    let same = bring(picture(4, 4), 4, 4, Sampling::Triangle).unwrap();
    assert_eq!(same.data, data);
}

#[test]
fn a_picture_without_pixels_cannot_be_resized() {
    for sampling in [Sampling::Nearest, Sampling::Triangle] {
        assert!(matches!(bring(Image::new(0, 4), 2, 2, sampling), Err(PageError::TooLarge)));
        assert!(matches!(bring(picture(2, 2), 0, 2, sampling), Err(PageError::TooLarge)));
    }
}

#[test]
fn the_nearest_pixel_is_taken_as_it_is() {
    let p = picture(4, 1);
    let pixels: Vec<[u8; 4]> = (0..4).map(|x| pixel(&p, x, 0)).collect();
    let q = bring(p, 2, 1, Sampling::Nearest).unwrap();
    assert_eq!((pixel(&q, 0, 0), pixel(&q, 1, 0)), (pixels[1], pixels[3]));
    let wide = bring(q, 4, 1, Sampling::Nearest).unwrap();
    let taken: Vec<[u8; 4]> = (0..4).map(|x| pixel(&wide, x, 0)).collect();
    assert_eq!(taken, [pixels[1], pixels[1], pixels[3], pixels[3]]);
}

#[test]
fn long_sides_are_resized_where_every_pixel_is_weighed() {
    let line = |n: u32| Image { width: n, height: 1, data: vec![7; 4 * n as usize] };
    let grey = |p: &Image| p.data.iter().all(|b| *b == 7);
    // From a side of any length to one that is not too long.
    let far = bring(line(NEW_SIDE + 2), 3, 1, Sampling::Triangle).unwrap();
    assert_eq!((far.width, grey(&far)), (3, true));
    let near = bring(line(NEW_SIDE - 1), NEW_SIDE, 1, Sampling::Triangle).unwrap();
    assert_eq!((near.width, grey(&near)), (NEW_SIDE, true));
    // And from one that is not too long to any other.
    let wide = bring(line(OLD_SIDE), NEW_SIDE + 2, 1, Sampling::Triangle).unwrap();
    assert_eq!((wide.width, grey(&wide)), (NEW_SIDE + 2, true));
    // Beyond both, no pixel weighs on the last one of this line.
    let (old, new) = (4_198_329, 8_396_098);
    assert!(old > OLD_SIDE && new > NEW_SIDE);
    assert!(matches!(bring(line(old), new, 1, Sampling::Triangle), Err(PageError::TooLarge)));
    let nearest = bring(line(old), new, 1, Sampling::Nearest).unwrap();
    assert_eq!((nearest.width, grey(&nearest)), (new, true));
    assert_eq!(bring(line(new), new, 1, Sampling::Triangle).unwrap().width, new);
}

#[test]
fn samples_become_opaque_pixels() {
    let grey = Image::from_samples(&vec![1, 2, 0, 3, 4, 0], 2, 2, 1, 3).unwrap();
    assert_eq!(pixel(&grey, 0, 0), [1, 1, 1, 255]);
    assert_eq!(pixel(&grey, 1, 1), [4, 4, 4, 255]);
    let rgb = Image::from_samples(&vec![9, 8, 7], 1, 1, 3, 3).unwrap();
    assert_eq!(pixel(&rgb, 0, 0), [9, 8, 7, 255]);
    let rgba = Image::from_samples(&vec![9, 8, 7, 6], 1, 1, 4, 4).unwrap();
    assert_eq!(pixel(&rgba, 0, 0), [9, 8, 7, 6]);
    assert!(matches!(Image::from_samples(&vec![9, 8], 1, 1, 2, 2), Err(2)));
}

struct Paper {
    fails: bool,
    extent: (u32, u32),
}

impl PageMetrics for Paper {
    fn page_count(&self) -> usize {
        3
    }

    fn page_size(&self, i: usize) -> Result<PageSize, PageError> {
        if i < 3 {
            Ok(PageSize { width: single(4.0), height: single(8.0) })
        } else {
            Err(PageError::OutOfRange { page_idx: i, count: 3 })
        }
    }

    fn composed_page_size(&self, _: usize, _: Look) -> Result<(u32, u32), PageError> {
        Ok(self.extent)
    }
}

impl Document for Paper {
    fn render_page(&self, _: usize, _: Real32, _: Rotation) -> Result<Image, PageError> {
        if self.fails {
            Err(PageError::Unreadable("torn page".to_string()))
        } else {
            Ok(picture(4, 8))
        }
    }
}

#[test]
fn a_page_is_rendered_at_its_extent_on_screen() {
    let v = Viewport::default();
    let exact = |_: Viewport, _: PageSize| Scales { display: single(1.0), raster: single(1.0), close: true };
    let half = |_: Viewport, _: PageSize| Scales { display: single(0.5), raster: single(1.0), close: false };
    let scaled = |n: u32, k: Scales| {
        (n as f32 * f32::from_bits(k.display.bits) / f32::from_bits(k.raster.bits)).round().max(1.0) as u32
    };
    let paper = Paper { fails: false, extent: (4, 8) };
    let p = Renderer::render_page(&paper, &v, &exact, &scaled).unwrap();
    assert_eq!((p.image.width, p.image.height), (4, 8));
    assert_eq!(p.page_idx, 0);
    let paper = Paper { fails: false, extent: (2, 4) };
    let p = Renderer::render_page(&paper, &v, &half, &scaled).unwrap();
    assert_eq!((p.image.width, p.image.height), (2, 4));
    let far = Viewport { page_idx: 9, ..v };
    assert!(matches!(
        Renderer::render_page(&paper, &far, &exact, &scaled),
        Err(PageError::OutOfRange { page_idx: 9, count: 3 })
    ));
    let broken = Paper { fails: true, extent: (4, 8) };
    assert!(matches!(Renderer::render_page(&broken, &v, &exact, &scaled), Err(PageError::Unreadable(why)) if why == "torn page"));
}

#[test]
fn the_next_frames_are_those_that_keys_lead_to() {
    let paper = Paper { fails: false, extent: (4, 8) };
    let v = Viewport { screen_w: 4, screen_h: 8, page_idx: 1, ..Viewport::default() };
    let info = PageInfo::from_metrics(&paper, v.look()).unwrap();
    let req = RefillRequest::new(BufferId(1), v, ColorMode::XTerm256, info, 4);
    let pages: Vec<usize> = plan(&req).iter().map(|v| v.page_idx).collect();
    assert_eq!(pages, [2, 0]);
    assert_eq!(walk(&paper, v, true, 0).len(), 0);
    assert!(req.still_current(0));
    assert!(!req.still_current(1));
}

#[test]
fn frames_ahead_are_encoded_from_cached_pages_only() {
    let mut pages = RenderCache::new(2);
    let mut frames = ComposedEncodedCache::new(2);
    let rkey = CacheKey::new(BufferId(1), 1, single(1.0), single(1.0), Rotation::R0);
    assert!(fill_source(&pages, &mut frames, &rkey, &key(1)).is_none());
    pages.insert(rkey, Arc::new(page_of(picture(1, 1))));
    assert!(fill_source(&pages, &mut frames, &rkey, &key(1)).is_some());
    frames.insert(key(1), frame("there"));
    assert!(fill_source(&pages, &mut frames, &rkey, &key(1)).is_none());
    frames.set_enabled(false);
    assert!(fill_source(&pages, &mut frames, &rkey, &key(2)).is_none());
}
