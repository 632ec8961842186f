//! Cache of frames that are composed and encoded, least recently used out
//! first.
//!
//! It sits on top of the page cache. Encoding a large page takes far longer
//! than writing the result, so a frame that was seen before is written again
//! from here.
use std::num::NonZeroUsize;
use std::sync::Arc;

use lru::LruCache;
use vstd::prelude::*;

use crate::buffer::BufferId;
use crate::cache::share;
use crate::number::Real32;
use crate::sixel_write::ColorMode;
use crate::viewport::{Rotation, Viewport};

verus! {

/// Key for a composed and encoded frame: every input that decides its bytes.
#[derive(Debug, Clone, Copy, PartialEq, Eq, Structural, Hash)]
pub struct EncodedKey {
    pub buffer: BufferId,
    pub page_idx: usize,
    pub display_scale_q: u32,
    pub raster_scale_q: u32,
    pub rotation: Rotation,
    pub screen_w: u32,
    pub screen_h: u32,
    pub x_off: i32,
    pub y_off: i32,
    pub night_mode: bool,
    pub color_mode: u8,
}

/// A key as plain numbers.
pub type FrameKey = (u32, usize, u32, u32, u32, u32, u32, i32, i32, bool, u8);

impl EncodedKey {
    /// The key as plain numbers. Different keys have different ones.
    pub open spec fn numbers(self) -> FrameKey {
        (
            self.buffer.0,
            self.page_idx,
            self.display_scale_q,
            self.raster_scale_q,
            self.rotation.quarters() as u32,
            self.screen_w,
            self.screen_h,
            self.x_off,
            self.y_off,
            self.night_mode,
            self.color_mode,
        )
    }

    fn to_numbers(&self) -> (k: FrameKey)
        ensures
            k == self.numbers(),
    {
        let quarters: u32 = match self.rotation {
            Rotation::R0 => 0,
            Rotation::R90 => 1,
            Rotation::R180 => 2,
            Rotation::R270 => 3,
        };
        (
            self.buffer.0,
            self.page_idx,
            self.display_scale_q,
            self.raster_scale_q,
            quarters,
            self.screen_w,
            self.screen_h,
            self.x_off,
            self.y_off,
            self.night_mode,
            self.color_mode,
        )
    }

    pub fn from_viewport(
        buffer: BufferId,
        viewport: &Viewport,
        display_scale: Real32,
        raster_scale: Real32,
        color_mode: ColorMode,
    ) -> (k: EncodedKey)
        ensures
            k.buffer == buffer,
            k.page_idx == viewport.page_idx,
            k.display_scale_q == display_scale.in_256ths(),
            k.raster_scale_q == raster_scale.in_256ths(),
            k.rotation == viewport.rotation,
            k.screen_w == viewport.screen_w,
            k.screen_h == viewport.screen_h,
            k.x_off == viewport.x_off,
            k.y_off == viewport.y_off,
            k.night_mode == viewport.night_mode,
            k.color_mode == color_mode.spec_tag(),
    {
        EncodedKey {
            buffer,
            page_idx: viewport.page_idx,
            display_scale_q: display_scale.quantise(),
            raster_scale_q: raster_scale.quantise(),
            rotation: viewport.rotation,
            screen_w: viewport.screen_w,
            screen_h: viewport.screen_h,
            x_off: viewport.x_off,
            y_off: viewport.y_off,
            night_mode: viewport.night_mode,
            color_mode: color_mode.tag(),
        }
    }
}

/// Frames that are not the same never share a key.
pub proof fn lemma_keys_tell_apart(a: EncodedKey, b: EncodedKey)
    ensures
        a.numbers() == b.numbers() <==> a == b,
{
}

/// An encoded frame. Wrapping for tmux comes when it is written: that depends
/// on the terminal, not on the frame.
#[derive(Debug)]
pub struct EncodedFrame {
    pub dcs: String,
    /// Height of the composed picture in pixels.
    pub pixel_height: u32,
}

// ------------------------------ The LRU list ------------------------------

#[verifier::external_type_specification]
#[verifier::external_body]
#[verifier::reject_recursive_types(K)]
#[verifier::reject_recursive_types(V)]
#[verifier::reject_recursive_types(S)]
pub struct ExLruCache<K, V, S>(LruCache<K, V, S>);

#[verifier::external_type_specification]
#[verifier::external_body]
pub struct ExDefaultHasher(lru::DefaultHasher);

/// The list that holds the frames.
pub type Frames = LruCache<FrameKey, Arc<EncodedFrame>>;

/// What the list holds, the most recently used first.
pub uninterp spec fn recent(c: Frames) -> Seq<(FrameKey, Arc<EncodedFrame>)>;

/// How many entries the list was made for.
pub uninterp spec fn room(c: Frames) -> nat;

/// Place of the entry under a key.
pub open spec fn place(entries: Seq<(FrameKey, Arc<EncodedFrame>)>, key: FrameKey) -> Option<int>
    decreases entries.len(),
{
    if entries.len() == 0 {
        None
    } else if entries[0].0 == key {
        Some(0)
    } else {
        match place(entries.skip(1), key) {
            Some(i) => Some(i + 1),
            None => None,
        }
    }
}

/// The entries with the one at `i` moved to the front.
pub open spec fn to_front(entries: Seq<(FrameKey, Arc<EncodedFrame>)>, i: int) -> Seq<
    (FrameKey, Arc<EncodedFrame>),
> {
    seq![entries[i]] + entries.remove(i)
}

/// The entries after a frame was put in: it comes first, in place of the one
/// under its key where there is one, else in place of the last where the list
/// is full.
pub open spec fn put_in(
    entries: Seq<(FrameKey, Arc<EncodedFrame>)>,
    cap: int,
    key: FrameKey,
    frame: Arc<EncodedFrame>,
) -> Seq<(FrameKey, Arc<EncodedFrame>)> {
    match place(entries, key) {
        Some(i) => seq![(key, frame)] + entries.remove(i),
        None => if entries.len() >= cap {
            seq![(key, frame)] + entries.drop_last()
        } else {
            seq![(key, frame)] + entries
        },
    }
}

/// Calls `LruCache::new`: the list is empty and has room for `cap` entries.
/// Storage for all of them is set aside at once, and the call panics where its
/// size cannot be addressed, so `cap` is bounded. That there is enough memory
/// is not said.
#[verifier::external_body]
fn lru_new(cap: usize) -> (c: Frames)
    requires
        1 <= cap <= MOST_FRAMES,
    ensures
        recent(c) == Seq::<(FrameKey, Arc<EncodedFrame>)>::empty(),
        room(c) == cap,
{
    LruCache::new(NonZeroUsize::new(cap).unwrap())
}

/// Calls `LruCache::get`: the value under the key, which becomes the most
/// recently used.
#[verifier::external_body]
fn lru_get(c: &mut Frames, key: &FrameKey) -> (r: Option<Arc<EncodedFrame>>)
    ensures
        room(*final(c)) == room(*old(c)),
        match place(recent(*old(c)), *key) {
            Some(i) => r == Some(recent(*old(c))[i].1) && recent(*final(c)) == to_front(
                recent(*old(c)),
                i,
            ),
            None => r is None && recent(*final(c)) == recent(*old(c)),
        },
{
    c.get(key).cloned()
}

/// Calls `LruCache::put`: the value is stored under the key as the most
/// recently used, and the least recently used entry goes where the list is
/// full.
#[verifier::external_body]
fn lru_put(c: &mut Frames, key: FrameKey, frame: Arc<EncodedFrame>)
    requires
        recent(*old(c)).len() <= room(*old(c)),
    ensures
        room(*final(c)) == room(*old(c)),
        recent(*final(c)) == put_in(recent(*old(c)), room(*old(c)) as int, key, frame),
{
    c.put(key, frame);
}

/// Calls `LruCache::clear`: nothing is left.
#[verifier::external_body]
fn lru_clear(c: &mut Frames)
    ensures
        room(*final(c)) == room(*old(c)),
        recent(*final(c)) == Seq::<(FrameKey, Arc<EncodedFrame>)>::empty(),
{
    c.clear();
}

/// Calls `LruCache::resize`: there is room for `cap` entries, and the least
/// recently used ones go until no more are left.
#[verifier::external_body]
fn lru_resize(c: &mut Frames, cap: usize)
    requires
        1 <= cap,
        recent(*old(c)).len() <= room(*old(c)),
    ensures
        room(*final(c)) == cap,
        recent(*final(c)) == (if recent(*old(c)).len() > cap {
            recent(*old(c)).take(cap as int)
        } else {
            recent(*old(c))
        }),
{
    c.resize(NonZeroUsize::new(cap).unwrap());
}

/// Calls `LruCache::len`: the number of entries.
#[verifier::external_body]
fn lru_len(c: &Frames) -> (n: usize)
    ensures
        n == recent(*c).len(),
{
    c.len()
}

/// Most frames that a new cache can be made for: the table that is set aside
/// for them stays within what can be addressed.
pub const MOST_FRAMES: usize = usize::MAX / 128;

/// What a caller is to do for a frame.
#[derive(Debug)]
pub enum EncodeFlight {
    /// The frame is cached.
    Hit(Arc<EncodedFrame>),
    /// Nobody is encoding it: encode it, and then call `finish`.
    Lead,
    /// Somebody is encoding it: wait for them.
    Follow,
}

/// Cache of encoded frames. It also keeps two callers from encoding one frame
/// at the same time.
pub struct ComposedEncodedCache {
    cache: Frames,
    inflight: Vec<EncodedKey>,
    enabled: bool,
    capacity: usize,
}

/// As many of the entries as there is room for, the most recently used ones.
pub open spec fn shortened(entries: Seq<(FrameKey, Arc<EncodedFrame>)>, cap: nat) -> Seq<
    (FrameKey, Arc<EncodedFrame>),
> {
    if entries.len() > cap {
        entries.take(cap as int)
    } else {
        entries
    }
}

/// At least one.
pub open spec fn at_least_one(n: usize) -> nat {
    if n < 1 {
        1
    } else {
        n as nat
    }
}

impl ComposedEncodedCache {
    /// The cached frames, the most recently used first.
    pub closed spec fn frames(&self) -> Seq<(FrameKey, Arc<EncodedFrame>)> {
        recent(self.cache)
    }

    /// The frames that are being encoded.
    pub closed spec fn flying(&self) -> Seq<EncodedKey> {
        self.inflight@
    }

    pub closed spec fn on(&self) -> bool {
        self.enabled
    }

    /// Most frames that are kept.
    pub closed spec fn limit(&self) -> nat {
        self.capacity as nat
    }

    /// The list has the room that the limit says.
    pub closed spec fn fitted(&self) -> bool {
        room(self.cache) == self.capacity
    }

    /// The limit is kept, a cache that is off is empty, and no frame is
    /// encoded twice at a time.
    pub open spec fn inv(&self) -> bool {
        &&& self.fitted()
        &&& 1 <= self.limit() <= usize::MAX
        &&& self.frames().len() <= self.limit()
        &&& !self.on() ==> self.frames().len() == 0
        &&& self.flying().no_duplicates()
    }

    /// Nothing but the frames differs.
    pub open spec fn same_but_frames(&self, other: &ComposedEncodedCache) -> bool {
        &&& self.flying() == other.flying()
        &&& self.on() == other.on()
        &&& self.limit() == other.limit()
    }

    /// An empty cache for at least one frame.
    pub fn new(capacity: usize) -> (c: ComposedEncodedCache)
        requires
            capacity <= MOST_FRAMES,
        ensures
            c.inv(),
            c.frames().len() == 0,
            c.flying().len() == 0,
            c.on(),
            c.limit() == at_least_one(capacity),
    {
        let cap: usize = if capacity < 1 {
            1
        } else {
            capacity
        };
        ComposedEncodedCache {
            cache: lru_new(cap),
            inflight: Vec::new(),
            enabled: true,
            capacity: cap,
        }
    }

    /// The frame cached under a key, which becomes the most recently used.
    pub fn get(&mut self, key: &EncodedKey) -> (r: Option<Arc<EncodedFrame>>)
        requires
            old(self).inv(),
        ensures
            final(self).inv(),
            final(self).same_but_frames(old(self)),
            if !old(self).on() {
                r is None && final(self).frames() == old(self).frames()
            } else {
                match place(old(self).frames(), key.numbers()) {
                    Some(i) => r == Some(old(self).frames()[i].1) && final(self).frames()
                        == to_front(old(self).frames(), i),
                    None => r is None && final(self).frames() == old(self).frames(),
                }
            },
    {
        if !self.enabled {
            return None;
        }
        proof {
            lemma_place(recent(self.cache), key.numbers());
        }
        lru_get(&mut self.cache, &key.to_numbers())
    }

    /// Cache a frame as the most recently used.
    pub fn insert(&mut self, key: EncodedKey, value: Arc<EncodedFrame>)
        requires
            old(self).inv(),
        ensures
            final(self).inv(),
            final(self).same_but_frames(old(self)),
            final(self).frames() == (if old(self).on() {
                put_in(old(self).frames(), old(self).limit() as int, key.numbers(), value)
            } else {
                old(self).frames()
            }),
    {
        if !self.enabled {
            return ;
        }
        proof {
            lemma_place(recent(self.cache), key.numbers());
        }
        lru_put(&mut self.cache, key.to_numbers(), value);
    }

    /// Switch the cache on or off. Switching it off empties it.
    pub fn set_enabled(&mut self, enabled: bool)
        requires
            old(self).inv(),
        ensures
            final(self).inv(),
            final(self).on() == enabled,
            final(self).frames() == (if enabled {
                old(self).frames()
            } else {
                Seq::empty()
            }),
            final(self).flying() == old(self).flying(),
            final(self).limit() == old(self).limit(),
    {
        self.enabled = enabled;
        if !enabled {
            lru_clear(&mut self.cache);
        }
    }

    pub fn enabled(&self) -> (b: bool)
        ensures
            b == self.on(),
    {
        self.enabled
    }

    /// Keep at most `capacity` frames, and at least one.
    pub fn resize(&mut self, capacity: usize)
        requires
            old(self).inv(),
        ensures
            final(self).inv(),
            final(self).limit() == at_least_one(capacity),
            final(self).frames() == shortened(old(self).frames(), at_least_one(capacity)),
            final(self).flying() == old(self).flying(),
            final(self).on() == old(self).on(),
    {
        let cap: usize = if capacity < 1 {
            1
        } else {
            capacity
        };
        lru_resize(&mut self.cache, cap);
        self.capacity = cap;
    }

    /// Forget all frames.
    pub fn clear(&mut self)
        requires
            old(self).inv(),
        ensures
            final(self).inv(),
            final(self).same_but_frames(old(self)),
            final(self).frames() == Seq::<(FrameKey, Arc<EncodedFrame>)>::empty(),
    {
        lru_clear(&mut self.cache);
    }

    /// How many frames are cached, and how many can be.
    pub fn stats(&self) -> (r: (usize, usize))
        ensures
            r.0 == self.frames().len(),
            r.1 == self.limit(),
    {
        (lru_len(&self.cache), self.capacity)
    }

    /// Ask for a frame. Where it is not cached, the first to ask is to encode
    /// it, and all others are to wait until that is done.
    pub fn begin(&mut self, key: EncodedKey) -> (r: EncodeFlight)
        requires
            old(self).inv(),
        ensures
            final(self).inv(),
            final(self).on() == old(self).on(),
            final(self).limit() == old(self).limit(),
            final(self).frames() == asked(old(self), key),
            match hit(old(self), key) {
                Some(f) => r == EncodeFlight::Hit(f) && final(self).flying()
                    == old(self).flying(),
                None => if old(self).flying().contains(key) {
                    r is Follow && final(self).flying() == old(self).flying()
                } else {
                    r is Lead && final(self).flying() == old(self).flying().push(key)
                },
            },
    {
        if let Some(f) = self.get(&key) {
            return EncodeFlight::Hit(f);
        }
        if self.position(&key).is_some() {
            return EncodeFlight::Follow;
        }
        self.inflight.push(key);
        EncodeFlight::Lead
    }

    fn position(&self, key: &EncodedKey) -> (r: Option<usize>)
        ensures
            match r {
                Some(i) => i < self.inflight@.len() && self.inflight@[i as int] == *key,
                None => !self.flying().contains(*key),
            },
    {
        let n: usize = self.inflight.len();
        let mut i: usize = 0;
        while i < n
            invariant
                i <= n == self.inflight@.len(),
                forall|j: int| 0 <= j < i ==> #[trigger] self.inflight@[j] != *key,
            decreases n - i,
        {
            if self.inflight[i] == *key {
                return Some(i);
            }
            i += 1;
        }
        None
    }

    /// Hand in the frame that was encoded, or why it could not be.
    pub fn finish<E>(&mut self, key: EncodedKey, produced: Result<EncodedFrame, E>) -> (r: Result<
        Arc<EncodedFrame>,
        E,
    >)
        requires
            old(self).inv(),
        ensures
            final(self).inv(),
            final(self).flying() == without(old(self).flying(), key),
            final(self).on() == old(self).on(),
            final(self).limit() == old(self).limit(),
            match produced {
                Ok(frame) => {
                    &&& r matches Ok(f) && *f == frame
                    &&& final(self).frames() == (if old(self).on() {
                        put_in(
                            old(self).frames(),
                            old(self).limit() as int,
                            key.numbers(),
                            r->Ok_0,
                        )
                    } else {
                        old(self).frames()
                    })
                },
                Err(e) => r == Err::<Arc<EncodedFrame>, E>(e) && final(self).frames()
                    == old(self).frames(),
            },
    {
        let ghost before = self.inflight@;
        if let Some(i) = self.position(&key) {
            self.inflight.remove(i);
            proof {
                lemma_without(before, i as int);
            }
        } else {
            proof {
                lemma_without_none(before, key);
            }
        }
        match produced {
            Ok(frame) => {
                let f: Arc<EncodedFrame> = Arc::new(frame);
                self.insert(key, share(&f));
                Ok(f)
            },
            Err(e) => Err(e),
        }
    }

    /// The cached frame, else the one that `producer` encodes, which is
    /// cached then. The times, for composing and encoding, are what
    /// `producer` reports, and 0 for a cached frame.
    pub fn get_or_encode<E, F: FnOnce() -> Result<(EncodedFrame, u64, u64), E>>(
        &mut self,
        key: EncodedKey,
        producer: F,
    ) -> (r: Result<(Arc<EncodedFrame>, u64, u64), E>)
        requires
            old(self).inv(),
            !old(self).flying().contains(key),
            call_requires(producer, ()),
        ensures
            final(self).inv(),
            final(self).flying() == old(self).flying(),
            final(self).on() == old(self).on(),
            final(self).limit() == old(self).limit(),
            match hit(old(self), key) {
                Some(f) => r == Ok::<_, E>((f, 0u64, 0u64)) && final(self).frames() == asked(
                    old(self),
                    key,
                ),
                None => exists|made: Result<(EncodedFrame, u64, u64), E>|
                    {
                        &&& #[trigger] call_ensures(producer, (), made)
                        &&& match made {
                            Err(e) => r == Err::<(Arc<EncodedFrame>, u64, u64), E>(e)
                                && final(self).frames() == old(self).frames(),
                            Ok((frame, compose, encode)) => {
                                &&& r matches Ok((f, c, e)) && *f == frame && c == compose && e
                                    == encode
                                &&& final(self).frames() == (if old(self).on() {
                                    put_in(
                                        old(self).frames(),
                                        old(self).limit() as int,
                                        key.numbers(),
                                        (r->Ok_0).0,
                                    )
                                } else {
                                    old(self).frames()
                                })
                            },
                        }
                    },
            },
    {
        let ghost before = self.inflight@;
        match self.begin(key) {
            EncodeFlight::Hit(f) => Ok((f, 0, 0)),
            _ => {
                let made = producer();
                proof {
                    lemma_without_last(before, key);
                }
                match made {
                    Err(e) => match self.finish(key, Err(e)) {
                        Err(e) => Err(e),
                        Ok(f) => Ok((f, 0, 0)),
                    },
                    Ok((frame, compose, encode)) => match self.finish(key, Ok(frame)) {
                        Err(e) => Err(e),
                        Ok(f) => Ok((f, compose, encode)),
                    },
                }
            },
        }
    }
}

/// What a caller gets for a key.
pub open spec fn hit(c: &ComposedEncodedCache, key: EncodedKey) -> Option<Arc<EncodedFrame>> {
    if !c.on() {
        None
    } else {
        match place(c.frames(), key.numbers()) {
            Some(i) => Some(c.frames()[i].1),
            None => None,
        }
    }
}

/// The frames after a key was asked for.
pub open spec fn asked(c: &ComposedEncodedCache, key: EncodedKey) -> Seq<
    (FrameKey, Arc<EncodedFrame>),
> {
    match place(c.frames(), key.numbers()) {
        Some(i) => if c.on() {
            to_front(c.frames(), i)
        } else {
            c.frames()
        },
        None => c.frames(),
    }
}

/// The keys but one.
pub open spec fn without(keys: Seq<EncodedKey>, key: EncodedKey) -> Seq<EncodedKey>
    decreases keys.len(),
{
    if keys.len() == 0 {
        Seq::empty()
    } else if keys.last() == key {
        without(keys.drop_last(), key)
    } else {
        without(keys.drop_last(), key).push(keys.last())
    }
}

proof fn lemma_without_none(keys: Seq<EncodedKey>, key: EncodedKey)
    requires
        !keys.contains(key),
    ensures
        without(keys, key) == keys,
    decreases keys.len(),
{
    if keys.len() > 0 {
        let rest = keys.drop_last();
        assert forall|i: int| 0 <= i < rest.len() implies rest[i] != key by {
            assert(keys[i] != key);
        }
        lemma_without_none(rest, key);
        assert(keys[keys.len() - 1] != key);
        assert(rest.push(keys.last()) =~= keys);
    } else {
        assert(keys =~= Seq::empty());
    }
}

proof fn lemma_without(keys: Seq<EncodedKey>, i: int)
    requires
        keys.no_duplicates(),
        0 <= i < keys.len(),
    ensures
        without(keys, keys[i]) == keys.remove(i),
        keys.remove(i).no_duplicates(),
    decreases keys.len(),
{
    let key = keys[i];
    let rest = keys.drop_last();
    let n = keys.len() - 1;
    let left = keys.remove(i);
    assert forall|x: int, y: int|
        0 <= x < left.len() && 0 <= y < left.len() && x != y implies left[x] != left[y] by {
        let u = if x < i {
            x
        } else {
            x + 1
        };
        let v = if y < i {
            y
        } else {
            y + 1
        };
        assert(keys[u] != keys[v]);
    }
    assert forall|x: int, y: int|
        0 <= x < rest.len() && 0 <= y < rest.len() && x != y implies rest[x] != rest[y] by {
        assert(keys[x] != keys[y]);
    }
    if i == n {
        assert forall|j: int| 0 <= j < rest.len() implies rest[j] != key by {
            assert(keys[j] != keys[i]);
        }
        lemma_without_none(rest, key);
        assert(left =~= rest);
    } else {
        lemma_without(rest, i);
        assert(keys[n] != keys[i]);
        assert(rest.remove(i).push(keys.last()) =~= left);
    }
}

proof fn lemma_without_last(keys: Seq<EncodedKey>, key: EncodedKey)
    requires
        !keys.contains(key),
    ensures
        without(keys.push(key), key) == keys,
{
    assert(keys.push(key).drop_last() =~= keys);
    lemma_without_none(keys, key);
}

/// A frame that was put in is the first to be found, and no more frames are
/// kept than there is room for.
pub proof fn lemma_put_is_found(
    entries: Seq<(FrameKey, Arc<EncodedFrame>)>,
    cap: int,
    key: FrameKey,
    frame: Arc<EncodedFrame>,
)
    requires
        1 <= cap,
        entries.len() <= cap,
    ensures
        place(put_in(entries, cap, key, frame), key) == Some(0int),
        put_in(entries, cap, key, frame)[0].1 == frame,
        put_in(entries, cap, key, frame).len() <= cap,
{
    lemma_place(entries, key);
}

/// Only the least recently used frame can make room for another: every other
/// one is still found.
pub proof fn lemma_put_keeps_recent(
    entries: Seq<(FrameKey, Arc<EncodedFrame>)>,
    cap: int,
    key: FrameKey,
    frame: Arc<EncodedFrame>,
    i: int,
)
    requires
        1 <= cap,
        entries.len() <= cap,
        0 <= i < entries.len() - 1,
        entries[i].0 != key,
    ensures
        put_in(entries, cap, key, frame).contains(entries[i]),
{
    lemma_place(entries, key);
    let now = put_in(entries, cap, key, frame);
    match place(entries, key) {
        Some(k) => {
            let x = if i < k {
                i + 1
            } else {
                i
            };
            assert(now[x] == entries[i]);
        },
        None => {
            assert(now[i + 1] == entries[i]);
        },
    }
}

/// `place` finds exactly what is there.
pub proof fn lemma_place(entries: Seq<(FrameKey, Arc<EncodedFrame>)>, key: FrameKey)
    ensures
        place(entries, key) matches Some(i) ==> {
            &&& 0 <= i < entries.len()
            &&& entries[i].0 == key
            &&& forall|j: int| 0 <= j < i ==> (#[trigger] entries[j]).0 != key
        },
        place(entries, key) is None ==> forall|j: int|
            0 <= j < entries.len() ==> (#[trigger] entries[j]).0 != key,
    decreases entries.len(),
{
    if entries.len() > 0 && entries[0].0 != key {
        let rest = entries.skip(1);
        lemma_place(rest, key);
        assert forall|j: int| 1 <= j < entries.len() implies entries[j] == rest[j - 1] by {}
    }
}

} // verus!
