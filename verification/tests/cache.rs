//! The cache of rasterised pages.

use std::cell::Cell;
use std::sync::Arc;

use svreader::buffer::BufferId;
use svreader::cache::{CacheKey, CachedPage, Flight, RenderCache};
use svreader::number::Real32;
use svreader::picture::Image;
use svreader::viewport::Rotation;

fn single(x: f32) -> Real32 {
    Real32 { bits: x.to_bits() }
}

fn key(i: usize) -> CacheKey {
    CacheKey::new(BufferId(1), i, single(1.0), single(1.0), Rotation::R0)
}

fn raster(i: usize) -> CachedPage {
    CachedPage {
        page_idx: i,
        rotation: Rotation::R0,
        display_scale: single(1.0),
        image: Image::new(2, 2),
    }
}

fn page(i: usize) -> Arc<CachedPage> {
    Arc::new(raster(i))
}

#[test]
fn insert_and_get() {
    let mut c = RenderCache::new(3);
    c.insert(key(1), page(1));
    assert!(c.contains(&key(1)));
    let got = c.get(&key(1)).unwrap();
    assert_eq!(got.page_idx, 1);
}

#[test]
fn distance_evicts_farthest_from_focus() {
    // With focus on page 10, a later insertion that pushes the cache
    // past capacity should evict whichever entry is furthest from
    // page 10 — not the oldest. This is the "farthest from current
    // page" policy tailored for sequential reading.
    let mut c = RenderCache::new(3);
    c.set_focus(BufferId(1), 10);
    c.insert(key(9), page(9));
    c.insert(key(11), page(11));
    c.insert(key(20), page(20)); // far from 10
    c.insert(key(12), page(12)); // over capacity — 20 should go
    assert!(c.contains(&key(9)));
    assert!(c.contains(&key(11)));
    assert!(c.contains(&key(12)));
    assert!(!c.contains(&key(20)));
}

#[test]
fn entries_for_other_buffers_evict_first() {
    let mut c = RenderCache::new(2);
    c.set_focus(BufferId(1), 5);
    // Seed with an entry from a different buffer.
    let other = CacheKey::new(BufferId(2), 100, single(1.0), single(1.0), Rotation::R0);
    c.insert(other, page(100));
    c.insert(key(5), page(5));
    c.insert(key(6), page(6)); // should evict the other-buffer entry first
    assert!(!c.contains(&other));
    assert!(c.contains(&key(5)));
    assert!(c.contains(&key(6)));
}

#[test]
fn resize_down_evicts_by_distance() {
    let mut c = RenderCache::new(5);
    c.set_focus(BufferId(1), 0);
    for i in 0..5 {
        c.insert(key(i), page(i));
    }
    c.resize(2);
    // Nearest two to page 0 survive: pages 0 and 1.
    let (used, cap) = c.stats();
    assert_eq!(cap, 2);
    assert_eq!(used, 2);
    assert!(c.contains(&key(0)));
    assert!(c.contains(&key(1)));
    assert!(!c.contains(&key(4)));
}

#[test]
fn find_matching_scans_ignoring_scale() {
    let mut c = RenderCache::new(4);
    let k_a = CacheKey::new(BufferId(1), 7, single(1.0), single(1.0), Rotation::R0);
    let k_b = CacheKey::new(BufferId(1), 7, single(2.0), single(2.0), Rotation::R0);
    c.insert(k_a, page(7));
    // Lookup by (buffer, page, rotation) should return whatever's
    // cached, regardless of the scales passed at insert time.
    let found = c.find_matching(BufferId(1), 7, Rotation::R0);
    assert!(found.is_some());
    let (k, _) = found.unwrap();
    assert_eq!(k, k_a);
    // Different page: no match.
    assert!(c.find_matching(BufferId(1), 8, Rotation::R0).is_none());
    let _ = k_b;
}

#[test]
fn disable_clears() {
    let mut c = RenderCache::new(4);
    c.insert(key(1), page(1));
    assert!(c.contains(&key(1)));
    c.set_enabled(false);
    assert!(!c.contains(&key(1)));
    assert_eq!(c.stats().0, 0);
    // New insertions while disabled are ignored.
    c.insert(key(2), page(2));
    assert!(!c.contains(&key(2)));
    c.set_enabled(true);
    c.insert(key(3), page(3));
    assert!(c.contains(&key(3)));
}

#[test]
fn single_flight_dedupes_concurrent_renders() {
    // Two callers race on one key: the second one comes while the first
    // renders.
    let mut cache = RenderCache::new(4);
    let mut calls = 0;
    let mut durations = Vec::new();
    let mut waiting = 0;
    for flight in [cache.begin(key(7)), cache.begin(key(7))] {
        match flight {
            Flight::Lead => {
                calls += 1;
                durations.push(50);
            }
            Flight::Follow => waiting += 1,
            Flight::Hit(_) => panic!("nothing is cached yet"),
        }
    }
    assert_eq!(waiting, 1);
    let got = cache.finish::<()>(key(7), Ok(raster(7))).unwrap();
    assert_eq!(got.page_idx, 7);
    // The follower finds the page.
    let (got, dur) = cache
        .get_or_render::<(), _>(key(7), || {
            calls += 1;
            Ok((raster(7), 50))
        })
        .unwrap();
    assert_eq!(got.page_idx, 7);
    durations.push(dur);
    let leader_durations = durations.iter().filter(|d| **d > 0).count();
    assert_eq!(calls, 1, "producer ran more than once");
    assert_eq!(leader_durations, 1, "exactly one call should report non-zero render duration");
    assert!(cache.contains(&key(7)));
}

#[test]
fn get_or_render_caches_result_for_later_callers() {
    let mut cache = RenderCache::new(4);
    let calls = Cell::new(0usize);
    for _ in 0..3 {
        let (p, _) = cache
            .get_or_render::<(), _>(key(3), || {
                calls.set(calls.get() + 1);
                Ok((raster(3), 0))
            })
            .unwrap();
        assert_eq!(p.page_idx, 3);
    }
    assert_eq!(calls.get(), 1);
}

#[test]
fn a_failed_render_leaves_the_cache_alone() {
    let mut cache = RenderCache::new(4);
    let r = cache.get_or_render(key(1), || Err("broken"));
    assert!(matches!(r, Err("broken")));
    assert!(!cache.contains(&key(1)));
    assert!(matches!(cache.begin(key(1)), Flight::Lead));
}

#[test]
fn the_time_of_a_render_is_reported_once() {
    let mut cache = RenderCache::new(4);
    let (_, t) = cache.get_or_render::<(), _>(key(2), || Ok((raster(2), 50))).unwrap();
    assert_eq!(t, 50);
    let (_, t) = cache.get_or_render::<(), _>(key(2), || Ok((raster(2), 50))).unwrap();
    assert_eq!(t, 0);
}

#[test]
fn keys_ignore_noise_in_scales() {
    let a = CacheKey::new(BufferId(1), 0, single(1.0), single(1.5), Rotation::R0);
    let b = CacheKey::new(BufferId(1), 0, single(1.0001), single(1.4999), Rotation::R0);
    let c = CacheKey::new(BufferId(1), 0, single(1.01), single(1.5), Rotation::R0);
    assert_eq!(a, b);
    assert_ne!(a, c);
    assert_eq!(a.display_scale_q, 256);
    assert_eq!(a.raster_scale_q, 384);
}

#[test]
fn a_page_is_wanted_until_it_is_there() {
    let mut c = RenderCache::new(2);
    assert!(c.wants(&key(1)));
    c.insert(key(1), page(1));
    assert!(!c.wants(&key(1)));
    c.set_enabled(false);
    assert!(!c.enabled());
    assert!(!c.wants(&key(1)));
}

#[test]
fn a_cache_holds_one_page_at_least() {
    let mut c = RenderCache::new(0);
    assert_eq!(c.stats(), (0, 1));
    c.insert(key(1), page(1));
    assert!(c.contains(&key(1)));
    c.clear();
    assert_eq!(c.stats(), (0, 1));
}

#[test]
fn what_is_cached_is_shared_and_not_copied() {
    let mut c = RenderCache::new(2);
    let p = page(4);
    c.insert(key(4), Arc::clone(&p));
    let q = c.get(&key(4)).unwrap();
    assert!(Arc::ptr_eq(&p, &q));
}
