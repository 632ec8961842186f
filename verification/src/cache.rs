//! Cache of rasterised pages.
use std::sync::Arc;

use vstd::prelude::*;

use crate::buffer::BufferId;
use crate::picture::Image;
use crate::number::Real32;
use crate::viewport::Rotation;

verus! {

/// Stable key for a rasterised page. Night mode, quality and scroll offsets
/// are not in it: they are applied when the frame is composed.
#[derive(Debug, Clone, Copy, PartialEq, Eq, Structural, Hash)]
pub struct CacheKey {
    pub buffer: BufferId,
    pub page_idx: usize,
    /// Display scale in 256ths. Catches changes of resolution but not the
    /// noise of floating point.
    pub display_scale_q: u32,
    pub raster_scale_q: u32,
    pub rotation: Rotation,
}

impl CacheKey {
    pub fn new(
        buffer: BufferId,
        page_idx: usize,
        display_scale: Real32,
        raster_scale: Real32,
        rotation: Rotation,
    ) -> (k: CacheKey)
        ensures
            k.buffer == buffer,
            k.page_idx == page_idx,
            k.display_scale_q == display_scale.in_256ths(),
            k.raster_scale_q == raster_scale.in_256ths(),
            k.rotation == rotation,
    {
        CacheKey {
            buffer,
            page_idx,
            display_scale_q: display_scale.quantise(),
            raster_scale_q: raster_scale.quantise(),
            rotation,
        }
    }
}

/// A rasterised page.
#[derive(Debug)]
pub struct CachedPage {
    pub page_idx: usize,
    pub rotation: Rotation,
    pub display_scale: Real32,
    pub image: Image,
}

/// Calls `Arc::clone`, which gives another pointer to the same value.
#[verifier::external_body]
pub(crate) fn share<T>(a: &Arc<T>) -> (r: Arc<T>)
    ensures
        r == *a,
{
    Arc::clone(a)
}

/// The page cached under a key.
pub open spec fn lookup(
    entries: Seq<(CacheKey, Arc<CachedPage>)>,
    key: CacheKey,
) -> Option<Arc<CachedPage>>
    decreases entries.len(),
{
    if entries.len() == 0 {
        None
    } else if entries.last().0 == key {
        Some(entries.last().1)
    } else {
        lookup(entries.drop_last(), key)
    }
}

/// No key is there twice.
pub open spec fn keys_differ(entries: Seq<(CacheKey, Arc<CachedPage>)>) -> bool {
    forall|i: int, j: int|
        0 <= i < entries.len() && 0 <= j < entries.len() && i != j ==> #[trigger] entries[i].0
            != #[trigger] entries[j].0
}

/// `lookup` finds exactly what is there.
pub proof fn lemma_lookup(entries: Seq<(CacheKey, Arc<CachedPage>)>, key: CacheKey)
    requires
        keys_differ(entries),
    ensures
        lookup(entries, key) is None ==> forall|i: int|
            0 <= i < entries.len() ==> (#[trigger] entries[i]).0 != key,
        forall|i: int|
            0 <= i < entries.len() && (#[trigger] entries[i]).0 == key ==> lookup(entries, key)
                == Some(entries[i].1),
        lookup(entries, key) is Some ==> exists|i: int|
            0 <= i < entries.len() && (#[trigger] entries[i]).0 == key,
    decreases entries.len(),
{
    if entries.len() > 0 {
        let rest = entries.drop_last();
        assert(keys_differ(rest)) by {
            assert forall|i: int, j: int|
                0 <= i < rest.len() && 0 <= j < rest.len() && i != j implies #[trigger] rest[i].0
                != #[trigger] rest[j].0 by {
                assert(entries[i].0 != entries[j].0);
            }
        }
        lemma_lookup(rest, key);
        let n = entries.len() - 1;
        assert forall|i: int| 0 <= i < n implies #[trigger] entries[i] == rest[i] by {}
        if entries.last().0 == key {
            assert(entries[n].0 == key);
        } else if lookup(entries, key) is Some {
            let i = choose|i: int| 0 <= i < rest.len() && (#[trigger] rest[i]).0 == key;
            assert(entries[i].0 == key);
        }
    }
}

/// How far a page is from the one that is being read. Pages of other buffers
/// are further than any page of the same one.
pub open spec fn distance(key: CacheKey, focus: Option<(BufferId, usize)>) -> int {
    match focus {
        None => 0,
        Some((buffer, page)) => if buffer != key.buffer {
            (u64::MAX / 2) as int
        } else if key.page_idx >= page {
            key.page_idx - page
        } else {
            page - key.page_idx
        },
    }
}

fn distance_to_focus(key: &CacheKey, focus: Option<(BufferId, usize)>) -> (d: u64)
    ensures
        d == distance(*key, focus),
{
    match focus {
        None => 0,
        Some((buffer, page)) => if buffer != key.buffer {
            u64::MAX / 2
        } else if key.page_idx >= page {
            (key.page_idx - page) as u64
        } else {
            (page - key.page_idx) as u64
        },
    }
}

/// `b` is what is left of `a` when no more than `cap` pages are to stay: the
/// ones that went are at least as far from the focus as the ones that stayed.
pub open spec fn trimmed(
    a: Seq<(CacheKey, Arc<CachedPage>)>,
    b: Seq<(CacheKey, Arc<CachedPage>)>,
    focus: Option<(BufferId, usize)>,
    cap: int,
) -> bool {
    &&& b.len() == (if a.len() <= cap {
        a.len() as int
    } else {
        cap
    })
    &&& forall|k: CacheKey|
        (#[trigger] lookup(b, k)) is Some ==> lookup(b, k) == lookup(a, k)
    &&& forall|k: CacheKey, m: CacheKey|
        lookup(a, k) is Some && (#[trigger] lookup(b, k)) is None && (#[trigger] lookup(
            b,
            m,
        )) is Some ==> distance(k, focus) >= distance(m, focus)
}

/// The entries with a page stored under a key.
pub open spec fn stored(
    entries: Seq<(CacheKey, Arc<CachedPage>)>,
    key: CacheKey,
    page: Arc<CachedPage>,
) -> Seq<(CacheKey, Arc<CachedPage>)> {
    dropped(entries, key).push((key, page))
}

/// The entries but those under a key.
pub open spec fn dropped(entries: Seq<(CacheKey, Arc<CachedPage>)>, key: CacheKey) -> Seq<
    (CacheKey, Arc<CachedPage>),
>
    decreases entries.len(),
{
    if entries.len() == 0 {
        Seq::empty()
    } else if entries.last().0 == key {
        dropped(entries.drop_last(), key)
    } else {
        dropped(entries.drop_last(), key).push(entries.last())
    }
}

/// What a caller is to do for a page.
#[derive(Debug)]
pub enum Flight {
    /// The page is cached.
    Hit(Arc<CachedPage>),
    /// Nobody is rendering it: render it, and then call `finish`.
    Lead,
    /// Somebody is rendering it: wait for them.
    Follow,
}

/// Page cache with eviction by distance: when it is full, the page furthest
/// from the one being read goes first. Reading is mostly sequential, so that
/// is a better guess at the least useful page than the one touched least
/// recently.
///
/// It also keeps two callers from rendering one page at the same time.
#[derive(Debug)]
pub struct RenderCache {
    entries: Vec<(CacheKey, Arc<CachedPage>)>,
    inflight: Vec<CacheKey>,
    focus: Option<(BufferId, usize)>,
    enabled: bool,
    capacity: usize,
}

impl RenderCache {
    /// The cached pages.
    pub closed spec fn pages(&self) -> Seq<(CacheKey, Arc<CachedPage>)> {
        self.entries@
    }

    /// The pages that are being rendered.
    pub closed spec fn flying(&self) -> Seq<CacheKey> {
        self.inflight@
    }

    /// The page that is being read.
    pub closed spec fn focused(&self) -> Option<(BufferId, usize)> {
        self.focus
    }

    pub closed spec fn on(&self) -> bool {
        self.enabled
    }

    /// Most pages that are kept.
    pub closed spec fn limit(&self) -> nat {
        self.capacity as nat
    }

    /// No key is cached or rendered twice, the limit is kept, and a cache
    /// that is off is empty.
    pub open spec fn inv(&self) -> bool {
        &&& keys_differ(self.pages())
        &&& 1 <= self.limit() <= usize::MAX
        &&& self.pages().len() <= self.limit()
        &&& !self.on() ==> self.pages().len() == 0
        &&& self.flying().no_duplicates()
    }

    /// What a caller gets for a key.
    pub open spec fn hit(&self, key: CacheKey) -> Option<Arc<CachedPage>> {
        if self.on() {
            lookup(self.pages(), key)
        } else {
            None
        }
    }

    /// Nothing but the pages differs.
    pub open spec fn same_but_pages(&self, other: &RenderCache) -> bool {
        &&& self.flying() == other.flying()
        &&& self.focused() == other.focused()
        &&& self.on() == other.on()
        &&& self.limit() == other.limit()
    }

    /// An empty cache for at least one page.
    pub fn new(capacity: usize) -> (c: RenderCache)
        ensures
            c.inv(),
            c.pages().len() == 0,
            c.flying().len() == 0,
            c.focused() is None,
            c.on(),
            c.limit() == (if capacity < 1 {
                1
            } else {
                capacity as nat
            }),
    {
        RenderCache {
            entries: Vec::new(),
            inflight: Vec::new(),
            focus: None,
            enabled: true,
            capacity: if capacity < 1 {
                1
            } else {
                capacity
            },
        }
    }

    fn find(&self, key: &CacheKey) -> (r: Option<usize>)
        requires
            keys_differ(self.pages()),
        ensures
            match r {
                Some(i) => i < self.entries@.len() && self.entries@[i as int].0 == *key && lookup(
                    self.pages(),
                    *key,
                ) == Some(self.entries@[i as int].1),
                None => lookup(self.pages(), *key) is None,
            },
    {
        proof {
            lemma_lookup(self.entries@, *key);
        }
        let n: usize = self.entries.len();
        let mut i: usize = 0;
        while i < n
            invariant
                i <= n == self.entries@.len(),
                forall|j: int| 0 <= j < i ==> (#[trigger] self.entries@[j]).0 != *key,
                forall|j: int|
                    0 <= j < self.entries@.len() && (#[trigger] self.entries@[j]).0 == *key
                        ==> lookup(self.entries@, *key) == Some(self.entries@[j].1),
            decreases n - i,
        {
            if self.entries[i].0 == *key {
                return Some(i);
            }
            i += 1;
        }
        None
    }

    /// The page cached under a key.
    pub fn get(&self, key: &CacheKey) -> (r: Option<Arc<CachedPage>>)
        requires
            self.inv(),
        ensures
            r == self.hit(*key),
    {
        if !self.enabled {
            return None;
        }
        match self.find(key) {
            Some(i) => Some(share(&self.entries[i].1)),
            None => None,
        }
    }

    pub fn contains(&self, key: &CacheKey) -> (b: bool)
        requires
            self.inv(),
        ensures
            b == (self.hit(*key) is Some),
    {
        self.enabled && self.find(key).is_some()
    }

    /// Cache a page; where there are too many then, the furthest one goes.
    pub fn insert(&mut self, key: CacheKey, value: Arc<CachedPage>)
        requires
            old(self).inv(),
        ensures
            final(self).inv(),
            final(self).same_but_pages(old(self)),
            old(self).on() ==> trimmed(
                stored(old(self).pages(), key, value),
                final(self).pages(),
                old(self).focused(),
                old(self).limit() as int,
            ),
            !old(self).on() ==> *final(self) == *old(self),
    {
        if !self.enabled {
            return ;
        }
        let ghost before = self.entries@;
        proof {
            lemma_stored_apart(before, key);
        }
        if let Some(i) = self.find(&key) {
            self.entries.remove(i);
            proof {
                lemma_dropped_one(before, i as int);
            }
        } else {
            proof {
                lemma_lookup(before, key);
                lemma_dropped_none(before, key);
            }
        }
        self.entries.push((key, value));
        assert(self.entries@ == stored(before, key, value));
        self.evict_to_capacity();
    }

    /// Let pages go until no more than the limit are left.
    fn evict_to_capacity(&mut self)
        requires
            keys_differ(old(self).entries@),
            1 <= old(self).capacity,
        ensures
            final(self).inflight == old(self).inflight,
            final(self).focus == old(self).focus,
            final(self).enabled == old(self).enabled,
            final(self).capacity == old(self).capacity,
            keys_differ(final(self).entries@),
            trimmed(
                old(self).entries@,
                final(self).entries@,
                old(self).focus,
                old(self).capacity as int,
            ),
    {
        let ghost before = self.entries@;
        let ghost focus = self.focus;
        let cap: usize = self.capacity;
        while self.entries.len() > cap
            invariant
                self.inflight == old(self).inflight,
                self.focus == old(self).focus,
                self.enabled == old(self).enabled,
                self.capacity == old(self).capacity == cap,
                focus == old(self).focus,
                before == old(self).entries@,
                1 <= cap,
                keys_differ(before),
                keys_differ(self.entries@),
                before.len() > cap ==> self.entries@.len() >= cap,
                before.len() <= cap ==> self.entries@ == before,
                forall|k: CacheKey|
                    (#[trigger] lookup(self.entries@, k)) is Some ==> lookup(self.entries@, k)
                        == lookup(before, k),
                forall|k: CacheKey, m: CacheKey|
                    lookup(before, k) is Some && (#[trigger] lookup(self.entries@, k)) is None && (
                    #[trigger] lookup(self.entries@, m)) is Some ==> distance(k, focus) >= distance(
                        m,
                        focus,
                    ),
            decreases self.entries@.len(),
        {
            let ghost now = self.entries@;
            let i: usize = self.furthest();
            self.entries.remove(i);
            proof {
                lemma_one_less(before, now, i as int, focus);
                assert(self.entries@ == now.remove(i as int));
            }
        }
    }

    /// The place of a page that no other is further than.
    fn furthest(&self) -> (i: usize)
        requires
            self.entries@.len() > 0,
        ensures
            i < self.entries@.len(),
            forall|j: int|
                0 <= j < self.entries@.len() ==> distance(
                    (#[trigger] self.entries@[j]).0,
                    self.focus,
                ) <= distance(self.entries@[i as int].0, self.focus),
    {
        let n: usize = self.entries.len();
        let mut best: usize = 0;
        let mut most: u64 = distance_to_focus(&self.entries[0].0, self.focus);
        let mut i: usize = 1;
        while i < n
            invariant
                1 <= i <= n == self.entries@.len(),
                best < i,
                most == distance(self.entries@[best as int].0, self.focus),
                forall|j: int|
                    0 <= j < i ==> distance((#[trigger] self.entries@[j]).0, self.focus) <= most,
            decreases n - i,
        {
            let d: u64 = distance_to_focus(&self.entries[i].0, self.focus);
            if d > most {
                best = i;
                most = d;
            }
            i += 1;
        }
        best
    }

    /// Switch the cache on or off. Switching it off empties it.
    pub fn set_enabled(&mut self, enabled: bool)
        requires
            old(self).inv(),
        ensures
            final(self).inv(),
            final(self).on() == enabled,
            final(self).pages() == (if enabled {
                old(self).pages()
            } else {
                Seq::empty()
            }),
            final(self).flying() == old(self).flying(),
            final(self).focused() == old(self).focused(),
            final(self).limit() == old(self).limit(),
    {
        self.enabled = enabled;
        if !enabled {
            self.entries = Vec::new();
            assert(self.entries@ =~= Seq::empty());
        }
    }

    pub fn enabled(&self) -> (b: bool)
        ensures
            b == self.on(),
    {
        self.enabled
    }

    /// Keep at most `capacity` pages, and at least one.
    pub fn resize(&mut self, capacity: usize)
        requires
            old(self).inv(),
        ensures
            final(self).inv(),
            final(self).limit() == (if capacity < 1 {
                1
            } else {
                capacity as nat
            }),
            trimmed(
                old(self).pages(),
                final(self).pages(),
                old(self).focused(),
                final(self).limit() as int,
            ),
            final(self).flying() == old(self).flying(),
            final(self).focused() == old(self).focused(),
            final(self).on() == old(self).on(),
    {
        self.capacity = if capacity < 1 {
            1
        } else {
            capacity
        };
        self.evict_to_capacity();
    }

    /// Forget all pages.
    pub fn clear(&mut self)
        requires
            old(self).inv(),
        ensures
            final(self).inv(),
            final(self).same_but_pages(old(self)),
            final(self).pages() == Seq::<(CacheKey, Arc<CachedPage>)>::empty(),
    {
        self.entries = Vec::new();
        assert(self.entries@ =~= Seq::empty());
    }

    /// How many pages are cached, and how many can be.
    pub fn stats(&self) -> (r: (usize, usize))
        ensures
            r.0 == self.pages().len(),
            r.1 == self.limit(),
    {
        (self.entries.len(), self.capacity)
    }

    /// Declare the page that is being read. Pages near it stay longest.
    pub fn set_focus(&mut self, buffer: BufferId, page_idx: usize)
        requires
            old(self).inv(),
        ensures
            final(self).inv(),
            final(self).focused() == Some((buffer, page_idx)),
            final(self).pages() == old(self).pages(),
            final(self).flying() == old(self).flying(),
            final(self).on() == old(self).on(),
            final(self).limit() == old(self).limit(),
    {
        self.focus = Some((buffer, page_idx));
    }

    /// Any cached page with that buffer, index and rotation, at whatever
    /// scale.
    pub fn find_matching(&self, buffer: BufferId, page_idx: usize, rotation: Rotation) -> (r: Option<
        (CacheKey, Arc<CachedPage>),
    >)
        requires
            self.inv(),
        ensures
            match r {
                Some((k, p)) => {
                    &&& self.hit(k) == Some(p)
                    &&& k.buffer == buffer
                    &&& k.page_idx == page_idx
                    &&& k.rotation == rotation
                },
                None => forall|k: CacheKey|
                    k.buffer == buffer && k.page_idx == page_idx && k.rotation == rotation ==> (
                    #[trigger] self.hit(k)) is None,
            },
    {
        if !self.enabled {
            return None;
        }
        let n: usize = self.entries.len();
        let mut i: usize = 0;
        while i < n
            invariant
                i <= n == self.entries@.len(),
                self.inv(),
                self.enabled,
                forall|j: int|
                    0 <= j < i ==> !((#[trigger] self.entries@[j]).0.buffer == buffer
                        && self.entries@[j].0.page_idx == page_idx && self.entries@[j].0.rotation
                        == rotation),
            decreases n - i,
        {
            let k: CacheKey = self.entries[i].0;
            if k.buffer == buffer && k.page_idx == page_idx && k.rotation == rotation {
                proof {
                    lemma_lookup(self.entries@, k);
                    assert(self.entries@[i as int].0 == k);
                }
                return Some((k, share(&self.entries[i].1)));
            }
            i += 1;
        }
        proof {
            assert forall|k: CacheKey|
                k.buffer == buffer && k.page_idx == page_idx && k.rotation == rotation implies (
            #[trigger] self.hit(k)) is None by {
                lemma_lookup(self.entries@, k);
            }
        }
        None
    }

    /// Ask for a page. Where it is not cached, the first to ask is to render
    /// it, and all others are to wait until that is done.
    pub fn begin(&mut self, key: CacheKey) -> (r: Flight)
        requires
            old(self).inv(),
        ensures
            final(self).inv(),
            final(self).pages() == old(self).pages(),
            final(self).focused() == old(self).focused(),
            final(self).on() == old(self).on(),
            final(self).limit() == old(self).limit(),
            match old(self).hit(key) {
                Some(p) => r == Flight::Hit(p) && final(self).flying() == old(self).flying(),
                None => if old(self).flying().contains(key) {
                    r is Follow && final(self).flying() == old(self).flying()
                } else {
                    r is Lead && final(self).flying() == old(self).flying().push(key)
                },
            },
    {
        if let Some(p) = self.get(&key) {
            return Flight::Hit(p);
        }
        if self.position(&key).is_some() {
            return Flight::Follow;
        }
        self.inflight.push(key);
        Flight::Lead
    }

    fn position(&self, key: &CacheKey) -> (r: Option<usize>)
        ensures
            match r {
                Some(i) => i < self.inflight@.len() && self.inflight@[i as int] == *key,
                None => !self.flying().contains(*key),
            },
    {
        let n: usize = self.inflight.len();
        let mut i: usize = 0;
        while i < n
            invariant
                i <= n == self.inflight@.len(),
                forall|j: int| 0 <= j < i ==> #[trigger] self.inflight@[j] != *key,
            decreases n - i,
        {
            if self.inflight[i] == *key {
                return Some(i);
            }
            i += 1;
        }
        None
    }

    /// Hand in the page that was rendered, or why it could not be. The next
    /// to ask for it is not told to wait any more.
    pub fn finish<E>(&mut self, key: CacheKey, produced: Result<CachedPage, E>) -> (r: Result<
        Arc<CachedPage>,
        E,
    >)
        requires
            old(self).inv(),
        ensures
            final(self).inv(),
            final(self).flying() == without(old(self).flying(), key),
            final(self).focused() == old(self).focused(),
            final(self).on() == old(self).on(),
            final(self).limit() == old(self).limit(),
            match produced {
                Ok(page) => {
                    &&& r matches Ok(p) && *p == page
                    &&& old(self).on() ==> trimmed(
                        stored(old(self).pages(), key, r->Ok_0),
                        final(self).pages(),
                        old(self).focused(),
                        old(self).limit() as int,
                    )
                    &&& !old(self).on() ==> final(self).pages() == old(self).pages()
                },
                Err(e) => r == Err::<Arc<CachedPage>, E>(e) && final(self).pages()
                    == old(self).pages(),
            },
    {
        let ghost before = self.inflight@;
        if let Some(i) = self.position(&key) {
            self.inflight.remove(i);
            proof {
                lemma_without(before, i as int);
            }
        } else {
            proof {
                lemma_without_none(before, key);
            }
        }
        match produced {
            Ok(page) => {
                let p: Arc<CachedPage> = Arc::new(page);
                self.insert(key, share(&p));
                Ok(p)
            },
            Err(e) => Err(e),
        }
    }

    /// The cached page, else the one that `producer` renders, which is cached
    /// then. The time is what `producer` reports, and 0 for a cached page.
    pub fn get_or_render<E, F: FnOnce() -> Result<(CachedPage, u64), E>>(
        &mut self,
        key: CacheKey,
        producer: F,
    ) -> (r: Result<(Arc<CachedPage>, u64), E>)
        requires
            old(self).inv(),
            !old(self).flying().contains(key),
            call_requires(producer, ()),
        ensures
            final(self).inv(),
            final(self).flying() == old(self).flying(),
            final(self).focused() == old(self).focused(),
            final(self).on() == old(self).on(),
            final(self).limit() == old(self).limit(),
            match old(self).hit(key) {
                Some(p) => r == Ok::<_, E>((p, 0u64)) && final(self).pages() == old(self).pages(),
                None => exists|made: Result<(CachedPage, u64), E>|
                    {
                        &&& #[trigger] call_ensures(producer, (), made)
                        &&& match made {
                            Err(e) => r == Err::<(Arc<CachedPage>, u64), E>(e)
                                && final(self).pages() == old(self).pages(),
                            Ok((page, time)) => {
                                &&& r matches Ok((p, t)) && *p == page && t == time
                                &&& old(self).on() ==> trimmed(
                                    stored(old(self).pages(), key, (r->Ok_0).0),
                                    final(self).pages(),
                                    old(self).focused(),
                                    old(self).limit() as int,
                                )
                                &&& !old(self).on() ==> final(self).pages() == old(self).pages()
                            },
                        }
                    },
            },
    {
        let ghost before = self.inflight@;
        match self.begin(key) {
            Flight::Hit(p) => Ok((p, 0)),
            _ => {
                let made = producer();
                proof {
                    lemma_without_last(before, key);
                }
                match made {
                    Err(e) => match self.finish(key, Err(e)) {
                        Err(e) => Err(e),
                        Ok(p) => Ok((p, 0)),
                    },
                    Ok((page, time)) => match self.finish(key, Ok(page)) {
                        Err(e) => Err(e),
                        Ok(p) => Ok((p, time)),
                    },
                }
            },
        }
    }

    /// Whether a page is worth rendering ahead: the cache is on and does not
    /// hold it.
    pub fn wants(&self, key: &CacheKey) -> (b: bool)
        requires
            self.inv(),
        ensures
            b == (self.on() && self.hit(*key) is None),
    {
        self.enabled && !self.contains(key)
    }
}

/// The keys but one.
pub open spec fn without(keys: Seq<CacheKey>, key: CacheKey) -> Seq<CacheKey> {
    keys.filter(|k: CacheKey| k != key)
}

proof fn lemma_without_none(keys: Seq<CacheKey>, key: CacheKey)
    requires
        !keys.contains(key),
    ensures
        without(keys, key) == keys,
    decreases keys.len(),
{
    reveal(Seq::filter);
    if keys.len() > 0 {
        let rest = keys.drop_last();
        assert forall|i: int| 0 <= i < rest.len() implies rest[i] != key by {
            assert(keys[i] != key);
        }
        lemma_without_none(rest, key);
        assert(keys[keys.len() - 1] != key);
        assert(rest.push(keys.last()) =~= keys);
    }
}

proof fn lemma_without(keys: Seq<CacheKey>, i: int)
    requires
        keys.no_duplicates(),
        0 <= i < keys.len(),
    ensures
        without(keys, keys[i]) == keys.remove(i),
        keys.remove(i).no_duplicates(),
        !keys.remove(i).contains(keys[i]),
{
    let key = keys[i];
    let p = |k: CacheKey| k != key;
    let a = keys.take(i);
    let b = keys.skip(i + 1);
    assert(!a.contains(key)) by {
        assert forall|j: int| 0 <= j < a.len() implies a[j] != key by {
            assert(keys[j] != keys[i]);
        }
    }
    assert(!b.contains(key)) by {
        assert forall|j: int| 0 <= j < b.len() implies b[j] != key by {
            assert(keys[j + i + 1] != keys[i]);
        }
    }
    lemma_without_none(a, key);
    lemma_without_none(b, key);
    assert(keys =~= a.push(key) + b);
    Seq::filter_distributes_over_add(a.push(key), b, p);
    reveal(Seq::filter);
    assert(a.push(key).drop_last() =~= a);
    assert(keys.remove(i) =~= a + b);
}

proof fn lemma_without_last(keys: Seq<CacheKey>, key: CacheKey)
    requires
        !keys.contains(key),
    ensures
        without(keys.push(key), key) == keys,
{
    reveal(Seq::filter);
    assert(keys.push(key).drop_last() =~= keys);
    lemma_without_none(keys, key);
}

proof fn lemma_dropped_none(entries: Seq<(CacheKey, Arc<CachedPage>)>, key: CacheKey)
    requires
        forall|i: int| 0 <= i < entries.len() ==> (#[trigger] entries[i]).0 != key,
    ensures
        dropped(entries, key) == entries,
    decreases entries.len(),
{
    if entries.len() > 0 {
        let rest = entries.drop_last();
        assert forall|i: int| 0 <= i < rest.len() implies (#[trigger] rest[i]).0 != key by {
            assert(entries[i].0 != key);
        }
        lemma_dropped_none(rest, key);
        assert(entries[entries.len() - 1].0 != key);
        assert(rest.push(entries.last()) =~= entries);
    } else {
        assert(entries =~= Seq::empty());
    }
}

proof fn lemma_dropped_one(entries: Seq<(CacheKey, Arc<CachedPage>)>, i: int)
    requires
        keys_differ(entries),
        0 <= i < entries.len(),
    ensures
        dropped(entries, entries[i].0) == entries.remove(i),
    decreases entries.len(),
{
    let key = entries[i].0;
    let rest = entries.drop_last();
    let n = entries.len() - 1;
    assert forall|x: int, y: int|
        0 <= x < rest.len() && 0 <= y < rest.len() && x != y implies #[trigger] rest[x].0
        != #[trigger] rest[y].0 by {
        assert(entries[x].0 != entries[y].0);
    }
    if i == n {
        assert forall|j: int| 0 <= j < rest.len() implies (#[trigger] rest[j]).0 != key by {
            assert(entries[j].0 != entries[i].0);
        }
        lemma_dropped_none(rest, key);
        assert(entries.remove(i) =~= rest);
    } else {
        lemma_dropped_one(rest, i);
        assert(rest[i] == entries[i]);
        assert(entries[n].0 != entries[i].0);
        assert(rest.remove(i).push(entries.last()) =~= entries.remove(i));
    }
}

/// Storing keeps the keys apart.
proof fn lemma_stored_apart(entries: Seq<(CacheKey, Arc<CachedPage>)>, key: CacheKey)
    requires
        keys_differ(entries),
    ensures
        forall|page: Arc<CachedPage>| keys_differ(#[trigger] stored(entries, key, page)),
{
    assert forall|page: Arc<CachedPage>| keys_differ(#[trigger] stored(entries, key, page)) by {
        lemma_lookup(entries, key);
        let now = stored(entries, key, page);
        let kept = dropped(entries, key);
        if exists|i: int| 0 <= i < entries.len() && (#[trigger] entries[i]).0 == key {
            let i = choose|i: int| 0 <= i < entries.len() && (#[trigger] entries[i]).0 == key;
            lemma_dropped_one(entries, i);
            assert(kept == entries.remove(i));
            assert forall|x: int, y: int|
                0 <= x < now.len() && 0 <= y < now.len() && x != y implies #[trigger] now[x].0
                != #[trigger] now[y].0 by {
                let u = if x < i {
                    x
                } else {
                    x + 1
                };
                let v = if y < i {
                    y
                } else {
                    y + 1
                };
                if x < kept.len() {
                    assert(now[x] == entries[u]);
                    assert(entries[u].0 != entries[i].0);
                }
                if y < kept.len() {
                    assert(now[y] == entries[v]);
                    assert(entries[v].0 != entries[i].0);
                }
                if x < kept.len() && y < kept.len() {
                    assert(entries[u].0 != entries[v].0);
                }
            }
        } else {
            lemma_dropped_none(entries, key);
            assert forall|x: int, y: int|
                0 <= x < now.len() && 0 <= y < now.len() && x != y implies #[trigger] now[x].0
                != #[trigger] now[y].0 by {
                if x < kept.len() {
                    assert(now[x] == entries[x]);
                }
                if y < kept.len() {
                    assert(now[y] == entries[y]);
                }
            }
        }
    }
}

/// One eviction: what is left is right, and what went was among the furthest.
proof fn lemma_one_less(
    before: Seq<(CacheKey, Arc<CachedPage>)>,
    now: Seq<(CacheKey, Arc<CachedPage>)>,
    i: int,
    focus: Option<(BufferId, usize)>,
)
    requires
        keys_differ(before),
        keys_differ(now),
        0 <= i < now.len(),
        forall|j: int|
            0 <= j < now.len() ==> distance((#[trigger] now[j]).0, focus) <= distance(
                now[i].0,
                focus,
            ),
        forall|k: CacheKey|
            (#[trigger] lookup(now, k)) is Some ==> lookup(now, k) == lookup(before, k),
        forall|k: CacheKey, m: CacheKey|
            lookup(before, k) is Some && (#[trigger] lookup(now, k)) is None && (
            #[trigger] lookup(now, m)) is Some ==> distance(k, focus) >= distance(m, focus),
    ensures
        keys_differ(now.remove(i)),
        forall|k: CacheKey|
            (#[trigger] lookup(now.remove(i), k)) is Some ==> lookup(now.remove(i), k) == lookup(
                before,
                k,
            ),
        forall|k: CacheKey, m: CacheKey|
            lookup(before, k) is Some && (#[trigger] lookup(now.remove(i), k)) is None && (
            #[trigger] lookup(now.remove(i), m)) is Some ==> distance(k, focus) >= distance(
                m,
                focus,
            ),
{
    let left = now.remove(i);
    assert forall|x: int| 0 <= x < left.len() implies #[trigger] left[x] == now[if x < i {
        x
    } else {
        x + 1
    }] by {}
    assert forall|x: int, y: int|
        0 <= x < left.len() && 0 <= y < left.len() && x != y implies #[trigger] left[x].0
        != #[trigger] left[y].0 by {
        let u = if x < i {
            x
        } else {
            x + 1
        };
        let v = if y < i {
            y
        } else {
            y + 1
        };
        assert(now[u].0 != now[v].0);
    }
    assert forall|k: CacheKey| true implies #[trigger] lookup(left, k) == (if k == now[i].0 {
        None
    } else {
        lookup(now, k)
    }) by {
        lemma_lookup(left, k);
        lemma_lookup(now, k);
        if k == now[i].0 {
            assert forall|x: int| 0 <= x < left.len() implies (#[trigger] left[x]).0 != k by {
                let u = if x < i {
                    x
                } else {
                    x + 1
                };
                assert(now[u].0 != now[i].0);
            }
        } else if lookup(now, k) is Some {
            let j = choose|j: int| 0 <= j < now.len() && (#[trigger] now[j]).0 == k;
            let x = if j < i {
                j
            } else {
                j - 1
            };
            assert(left[x] == now[j]);
        } else if lookup(left, k) is Some {
            let x = choose|x: int| 0 <= x < left.len() && (#[trigger] left[x]).0 == k;
            let u = if x < i {
                x
            } else {
                x + 1
            };
            assert(now[u].0 == k);
        }
    }
    assert forall|k: CacheKey|
        (#[trigger] lookup(left, k)) is Some implies lookup(left, k) == lookup(before, k) by {
        assert(lookup(left, k) == lookup(now, k));
    }
    assert forall|k: CacheKey, m: CacheKey|
        lookup(before, k) is Some && (#[trigger] lookup(left, k)) is None && (#[trigger] lookup(
            left,
            m,
        )) is Some implies distance(k, focus) >= distance(m, focus) by {
        assert(lookup(left, m) == lookup(now, m));
        lemma_lookup(now, m);
        let j = choose|j: int| 0 <= j < now.len() && (#[trigger] now[j]).0 == m;
        assert(now[j].0 == m);
        if k != now[i].0 {
            assert(lookup(left, k) == lookup(now, k));
        }
    }
}

/// A page that is stored is found under its key, and no other is touched.
pub proof fn lemma_stored_is_found(
    entries: Seq<(CacheKey, Arc<CachedPage>)>,
    key: CacheKey,
    page: Arc<CachedPage>,
    other: CacheKey,
)
    requires
        keys_differ(entries),
    ensures
        lookup(stored(entries, key, page), key) == Some(page),
        other != key ==> lookup(stored(entries, key, page), other) == lookup(entries, other),
{
    let now = stored(entries, key, page);
    lemma_stored_apart(entries, key);
    lemma_lookup(now, key);
    lemma_lookup(entries, key);
    assert(now.last() == (key, page));
    if other != key {
        lemma_lookup(now, other);
        lemma_lookup(entries, other);
        let kept = dropped(entries, key);
        assert(now.drop_last() =~= kept);
        if exists|i: int| 0 <= i < entries.len() && (#[trigger] entries[i]).0 == key {
            let i = choose|i: int| 0 <= i < entries.len() && (#[trigger] entries[i]).0 == key;
            lemma_dropped_one(entries, i);
            if lookup(entries, other) is Some {
                let j = choose|j: int| 0 <= j < entries.len() && (#[trigger] entries[j]).0 == other;
                let x = if j < i {
                    j
                } else {
                    j - 1
                };
                assert(now[x] == entries[j]);
            } else if lookup(now, other) is Some {
                let x = choose|x: int| 0 <= x < now.len() && (#[trigger] now[x]).0 == other;
                let u = if x < i {
                    x
                } else {
                    x + 1
                };
                assert(now[x] == entries[u]);
            }
        } else {
            lemma_dropped_none(entries, key);
        }
    }
}

/// Pages of other buffers are let go before any page of the one being read.
pub proof fn lemma_other_buffers_first(
    key: CacheKey,
    other: CacheKey,
    buffer: BufferId,
    page: usize,
)
    requires
        key.buffer == buffer,
        other.buffer != buffer,
        key.page_idx <= u64::MAX / 2,
        page <= u64::MAX / 2,
    ensures
        distance(other, Some((buffer, page))) >= distance(key, Some((buffer, page))),
{
}

/// While a page is being rendered nobody else is told to render it, and once
/// that is finished, somebody is again.
pub proof fn lemma_single_flight(flying: Seq<CacheKey>, key: CacheKey, other: CacheKey)
    requires
        flying.no_duplicates(),
        !flying.contains(key),
    ensures
        flying.push(key).contains(key),
        flying.push(key).no_duplicates(),
        other != key ==> (flying.push(key).contains(other) <==> flying.contains(other)),
        without(flying.push(key), key) == flying,
{
    assert(flying.push(key).last() == key);
    assert(flying.push(key).contains(key)) by {
        assert(flying.push(key)[flying.len() as int] == key);
    }
    if other != key {
        if flying.contains(other) {
            let i = choose|i: int| 0 <= i < flying.len() && flying[i] == other;
            assert(flying.push(key)[i] == other);
        }
    }
    lemma_without_last(flying, key);
}

} // verus!
