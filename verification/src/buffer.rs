//! Open-buffer bookkeeping.
//!
//! A `Buffer` is what's behind a `Window`: a document or the directory
//! browser. `BufferId` tags every buffer so that caches can hold pages of
//! several open documents without mixing them up.
use vstd::prelude::*;

use crate::docstate::DocState;
use crate::document::{MatchRect, PageLink};
use crate::explorer::{self, ExplorerBuffer};
use crate::paths::{self, file_name_of};
use crate::text;

verus! {

/// Stable identifier for an open buffer. Never reused.
#[derive(Debug, Clone, Copy, PartialEq, Eq, Structural, Hash)]
pub struct BufferId(pub u32);

/// Hands out buffer ids, from 1 upwards; 0 is a harmless "unset".
#[derive(Debug)]
pub struct BufferIdSource {
    pub upcoming: u32,
}

impl BufferIdSource {
    pub fn new() -> (s: BufferIdSource)
        ensures
            s.upcoming == 1,
    {
        BufferIdSource { upcoming: 1 }
    }

    /// A fresh id: none handed out before it is as large.
    pub fn next(&mut self) -> (id: BufferId)
        requires
            old(self).upcoming < u32::MAX,
        ensures
            id == BufferId(old(self).upcoming),
            final(self).upcoming == old(self).upcoming + 1,
    {
        let id = BufferId(self.upcoming);
        self.upcoming = self.upcoming + 1;
        id
    }
}

/// One step in the per-buffer jump history: enough of the viewport to return
/// to it.
#[derive(Debug, Clone, Copy, PartialEq, Eq, Structural)]
pub struct JumpEntry {
    pub page_idx: usize,
    pub x_off: i32,
    pub y_off: i32,
}

/// Most entries that a jump list keeps.
pub const JUMP_LIMIT: usize = 100;

/// In-memory search state for a buffer.
#[derive(Debug)]
pub struct SearchState {
    /// Current query. Empty when no search is active.
    pub query: String,
    /// All hits across every page, in page order.
    pub matches: Vec<MatchRect>,
    /// The currently-focused hit.
    pub current: Option<usize>,
    /// Direction the user last searched in.
    pub forward: bool,
    /// Changes with every state change.
    pub version: u64,
}

/// `r` is the hit that a new search lands on: forward the first one at or
/// after `from_page`, else the first of all; backward the last one at or
/// before `from_page`, else the last of all.
pub open spec fn lands_on(
    matches: Seq<MatchRect>,
    from_page: usize,
    forward: bool,
    r: Option<usize>,
) -> bool {
    match r {
        None => matches.len() == 0,
        Some(k) => {
            &&& 0 <= k < matches.len()
            &&& if forward {
                ||| {
                    &&& matches[k as int].page_idx >= from_page
                    &&& forall|j: int| 0 <= j < k ==> (#[trigger] matches[j]).page_idx < from_page
                }
                ||| {
                    &&& k == 0
                    &&& forall|j: int|
                        0 <= j < matches.len() ==> (#[trigger] matches[j]).page_idx < from_page
                }
            } else {
                ||| {
                    &&& matches[k as int].page_idx <= from_page
                    &&& forall|j: int|
                        k < j < matches.len() ==> (#[trigger] matches[j]).page_idx > from_page
                }
                ||| {
                    &&& k == matches.len() - 1
                    &&& forall|j: int|
                        0 <= j < matches.len() ==> (#[trigger] matches[j]).page_idx > from_page
                }
            }
        },
    }
}

fn pick_initial_match(matches: &Vec<MatchRect>, from_page: usize, forward: bool) -> (r: Option<
    usize,
>)
    ensures
        lands_on(matches@, from_page, forward, r),
{
    let n: usize = matches.len();
    if n == 0 {
        return None;
    }
    if forward {
        let mut i: usize = 0;
        while i < n
            invariant
                i <= n == matches@.len(),
                forward,
                forall|j: int| 0 <= j < i ==> (#[trigger] matches@[j]).page_idx < from_page,
            decreases n - i,
        {
            if matches[i].page_idx >= from_page {
                return Some(i);
            }
            i += 1;
        }
        Some(0)
    } else {
        let mut i: usize = n;
        while i > 0
            invariant
                i <= n == matches@.len(),
                !forward,
                forall|j: int| i <= j < n ==> (#[trigger] matches@[j]).page_idx > from_page,
            decreases i,
        {
            if matches[i - 1].page_idx <= from_page {
                return Some(i - 1);
            }
            i -= 1;
        }
        Some(n - 1)
    }
}

impl SearchState {
    pub open spec fn active(self) -> bool {
        self.query@.len() > 0 && self.matches@.len() > 0
    }

    /// Nothing is searched for and nothing is found.
    pub open spec fn idle(self) -> bool {
        self.query@.len() == 0 && self.matches@.len() == 0 && self.current is None
    }

    /// The focused hit is one of the hits.
    pub open spec fn valid(self) -> bool {
        self.current matches Some(i) ==> i < self.matches@.len()
    }

    /// The state before any search.
    pub fn new() -> (s: SearchState)
        ensures
            s.idle(),
            s.version == 0,
            !s.forward,
    {
        SearchState {
            query: String::new(),
            matches: Vec::new(),
            current: None,
            forward: false,
            version: 0,
        }
    }

    pub fn is_active(&self) -> (b: bool)
        ensures
            b == self.active(),
    {
        !blank(&self.query) && self.matches.len() > 0
    }

    /// Forget the search; the version changes where there was one.
    pub fn clear(&mut self)
        ensures
            final(self).idle(),
            final(self).forward == old(self).forward,
            final(self).version == (if old(self).idle() {
                old(self).version
            } else {
                old(self).version.wrapping_add(1)
            }),
    {
        if blank(&self.query) && self.matches.len() == 0 && self.current.is_none() {
            return ;
        }
        self.query = String::new();
        self.matches = Vec::new();
        self.current = None;
        self.version = self.version.wrapping_add(1);
    }
}

fn blank(s: &String) -> (b: bool)
    ensures
        b == (s@.len() == 0),
{
    text::to_chars(s.as_str()).len() == 0
}

/// A document the user has opened. Two windows can show the same one.
#[derive(Debug)]
pub struct PdfBuffer<D> {
    pub id: BufferId,
    pub path: String,
    pub pdf: D,
    pub state: DocState,
    /// Jump list: `<C-o>` walks backward, `:forward` walks forward.
    pub back_stack: Vec<JumpEntry>,
    pub forward_stack: Vec<JumpEntry>,
    /// Links of the pages that were asked for.
    pub link_cache: Vec<(usize, Vec<PageLink>)>,
    /// Active search state. Empty until the user runs `/`.
    pub search: SearchState,
}

/// The jump list with one more entry; the oldest goes where it is too long.
pub open spec fn pushed(stack: Seq<JumpEntry>, e: JumpEntry) -> Seq<JumpEntry> {
    let longer = stack.push(e);
    if longer.len() > JUMP_LIMIT {
        longer.skip(1)
    } else {
        longer
    }
}

impl<D> PdfBuffer<D> {
    /// A document that has just been opened, with the state that was saved
    /// for it.
    pub fn open(id: BufferId, path: String, pdf: D, state: DocState) -> (b: PdfBuffer<D>)
        ensures
            b.id == id,
            b.path == path,
            b.pdf == pdf,
            b.state == state,
            b.back_stack@.len() == 0,
            b.forward_stack@.len() == 0,
            b.link_cache@.len() == 0,
            b.search.idle(),
            b.search.version == 0,
    {
        PdfBuffer {
            id,
            path,
            pdf,
            state,
            back_stack: Vec::new(),
            forward_stack: Vec::new(),
            link_cache: Vec::new(),
            search: SearchState::new(),
        }
    }

    /// All but the jump lists is the same.
    pub open spec fn same_but_jumps(self, other: PdfBuffer<D>) -> bool {
        &&& self.id == other.id
        &&& self.path == other.path
        &&& self.pdf == other.pdf
        &&& self.state == other.state
        &&& self.link_cache == other.link_cache
        &&& self.search == other.search
    }

    /// All but the search is the same.
    pub open spec fn same_but_search(self, other: PdfBuffer<D>) -> bool {
        &&& self.id == other.id
        &&& self.path == other.path
        &&& self.pdf == other.pdf
        &&& self.state == other.state
        &&& self.back_stack == other.back_stack
        &&& self.forward_stack == other.forward_stack
        &&& self.link_cache == other.link_cache
    }

    /// Remember a position to come back to. A new jump drops the forward
    /// branch.
    pub fn push_jump(&mut self, e: JumpEntry)
        ensures
            final(self).same_but_jumps(*old(self)),
            final(self).back_stack@ == pushed(old(self).back_stack@, e),
            final(self).forward_stack@.len() == 0,
    {
        self.back_stack.push(e);
        if self.back_stack.len() > JUMP_LIMIT {
            self.back_stack.remove(0);
            assert(self.back_stack@ =~= pushed(old(self).back_stack@, e));
        }
        self.forward_stack = Vec::new();
    }

    /// Go one step back from `here`: the last remembered position, and `here`
    /// becomes the next one forward.
    pub fn step_back(&mut self, here: JumpEntry) -> (r: Option<JumpEntry>)
        ensures
            final(self).same_but_jumps(*old(self)),
            old(self).back_stack@.len() == 0 ==> r is None && *final(self) == *old(self),
            old(self).back_stack@.len() > 0 ==> {
                &&& r == Some(old(self).back_stack@.last())
                &&& final(self).back_stack@ == old(self).back_stack@.drop_last()
                &&& final(self).forward_stack@ == old(self).forward_stack@.push(here)
            },
    {
        if self.back_stack.len() == 0 {
            return None;
        }
        match self.back_stack.pop() {
            Some(e) => {
                self.forward_stack.push(here);
                Some(e)
            },
            None => None,
        }
    }

    /// Go one step forward from `here`.
    pub fn step_forward(&mut self, here: JumpEntry) -> (r: Option<JumpEntry>)
        ensures
            final(self).same_but_jumps(*old(self)),
            old(self).forward_stack@.len() == 0 ==> r is None && *final(self) == *old(self),
            old(self).forward_stack@.len() > 0 ==> {
                &&& r == Some(old(self).forward_stack@.last())
                &&& final(self).forward_stack@ == old(self).forward_stack@.drop_last()
                &&& final(self).back_stack@ == old(self).back_stack@.push(here)
            },
    {
        if self.forward_stack.len() == 0 {
            return None;
        }
        match self.forward_stack.pop() {
            Some(e) => {
                self.back_stack.push(here);
                Some(e)
            },
            None => None,
        }
    }

    /// Make the hits of `query` the active search and focus the one that the
    /// search lands on. `hits` are the hits on all pages, in page order; an
    /// empty query finds nothing.
    pub fn run_search(
        &mut self,
        query: String,
        hits: Vec<MatchRect>,
        from_page: usize,
        forward: bool,
    )
        ensures
            final(self).same_but_search(*old(self)),
            final(self).search.query@ == query@,
            final(self).search.forward == forward,
            final(self).search.version == old(self).search.version.wrapping_add(1),
            query@.len() == 0 ==> final(self).search.matches@.len() == 0
                && final(self).search.current is None,
            query@.len() > 0 ==> final(self).search.matches@ == hits@ && lands_on(
                hits@,
                from_page,
                forward,
                final(self).search.current,
            ),
            final(self).search.valid(),
    {
        let version: u64 = self.search.version.wrapping_add(1);
        if blank(&query) {
            self.search =
            SearchState { query, matches: Vec::new(), current: None, forward, version };
        } else {
            let current: Option<usize> = pick_initial_match(&hits, from_page, forward);
            self.search = SearchState { query, matches: hits, current, forward, version };
        }
    }

    /// Step to the next hit, or to the one before; the last and the first are
    /// next to each other.
    pub fn step_search(&mut self, step_forward: bool) -> (r: Option<MatchRect>)
        requires
            old(self).search.valid(),
        ensures
            final(self).same_but_search(*old(self)),
            final(self).search.query == old(self).search.query,
            final(self).search.matches == old(self).search.matches,
            final(self).search.forward == old(self).search.forward,
            final(self).search.valid(),
            ({
                let n = old(self).search.matches@.len() as int;
                if n == 0 {
                    r is None && *final(self) == *old(self)
                } else {
                    let next = next_hit(old(self).search.current, n, step_forward);
                    &&& final(self).search.current == Some(next as usize)
                    &&& final(self).search.version == old(self).search.version.wrapping_add(1)
                    &&& r == Some(old(self).search.matches@[next])
                }
            }),
    {
        let n: usize = self.search.matches.len();
        if n == 0 {
            return None;
        }
        let next: usize = match self.search.current {
            None => if step_forward {
                0
            } else {
                n - 1
            },
            Some(i) => if step_forward {
                if i + 1 == n {
                    0
                } else {
                    i + 1
                }
            } else if i == 0 {
                n - 1
            } else {
                i - 1
            },
        };
        self.search.current = Some(next);
        self.search.version = self.search.version.wrapping_add(1);
        Some(self.search.matches[next])
    }

    /// Forget the active search; whether there was one.
    pub fn clear_search(&mut self) -> (cleared: bool)
        ensures
            final(self).same_but_search(*old(self)),
            cleared == (old(self).search.query@.len() > 0),
            !cleared ==> *final(self) == *old(self),
            cleared ==> final(self).search.idle() && final(self).search.version
                == old(self).search.version.wrapping_add(1) && final(self).search.forward
                == old(self).search.forward,
    {
        if blank(&self.search.query) {
            return false;
        }
        self.search.clear();
        true
    }

    /// The links of a page, where they have been asked for before.
    pub fn links_for(&self, page_idx: usize) -> (r: Option<&Vec<PageLink>>)
        ensures
            match links_at(self.link_cache@, page_idx) {
                Some(i) => r == Some(&self.link_cache@[i].1),
                None => r is None,
            },
    {
        let n: usize = self.link_cache.len();
        let mut i: usize = 0;
        while i < n
            invariant
                i <= n == self.link_cache@.len(),
                forall|j: int| 0 <= j < i ==> (#[trigger] self.link_cache@[j]).0 != page_idx,
            decreases n - i,
        {
            if self.link_cache[i].0 == page_idx {
                proof {
                    lemma_links_at(self.link_cache@, page_idx);
                }
                return Some(&self.link_cache[i].1);
            }
            i += 1;
        }
        proof {
            lemma_links_at(self.link_cache@, page_idx);
        }
        None
    }

    /// Keep the links of a page. An empty list is kept too: the page has none.
    pub fn store_links(&mut self, page_idx: usize, links: Vec<PageLink>)
        ensures
            final(self).id == old(self).id,
            final(self).path == old(self).path,
            final(self).pdf == old(self).pdf,
            final(self).state == old(self).state,
            final(self).back_stack == old(self).back_stack,
            final(self).forward_stack == old(self).forward_stack,
            final(self).search == old(self).search,
            final(self).link_cache@ == (if links_at(old(self).link_cache@, page_idx) is Some {
                old(self).link_cache@
            } else {
                old(self).link_cache@.push((page_idx, links))
            }),
    {
        if self.links_for(page_idx).is_none() {
            self.link_cache.push((page_idx, links));
        }
    }

    /// Filename for display.
    pub fn display_name(&self) -> (s: String)
        ensures
            s@ == shown_name(self.path@),
    {
        match file_name_of(self.path.as_str()) {
            Some(name) => name,
            None => text::owned("document"),
        }
    }
}

/// The hit behind the current one, or the one before it; the last and the
/// first are next to each other.
pub open spec fn next_hit(current: Option<usize>, total: int, forward: bool) -> int {
    match current {
        None => if forward {
            0
        } else {
            total - 1
        },
        Some(i) => if forward {
            if i + 1 == total {
                0
            } else {
                i + 1
            }
        } else if i == 0 {
            total - 1
        } else {
            i - 1
        },
    }
}

/// The name that a document is shown under.
pub open spec fn shown_name(path: Seq<char>) -> Seq<char> {
    match paths::file_name(path) {
        Some(name) => name,
        None => "document"@,
    }
}

/// Position of the first entry for a page.
pub open spec fn links_at(cache: Seq<(usize, Vec<PageLink>)>, page_idx: usize) -> Option<int>
    decreases cache.len(),
{
    if cache.len() == 0 {
        None
    } else if cache[0].0 == page_idx {
        Some(0)
    } else {
        match links_at(cache.skip(1), page_idx) {
            Some(i) => Some(i + 1),
            None => None,
        }
    }
}

proof fn lemma_links_at(cache: Seq<(usize, Vec<PageLink>)>, page_idx: usize)
    ensures
        links_at(cache, page_idx) matches Some(i) ==> {
            &&& 0 <= i < cache.len()
            &&& cache[i].0 == page_idx
            &&& forall|j: int| 0 <= j < i ==> (#[trigger] cache[j]).0 != page_idx
        },
        links_at(cache, page_idx) is None ==> forall|j: int|
            0 <= j < cache.len() ==> (#[trigger] cache[j]).0 != page_idx,
    decreases cache.len(),
{
    if cache.len() > 0 && cache[0].0 != page_idx {
        let rest = cache.skip(1);
        lemma_links_at(rest, page_idx);
        assert forall|j: int| 1 <= j < cache.len() implies cache[j] == rest[j - 1] by {}
    }
}

/// A step through the hits is undone by a step the other way.
pub proof fn lemma_hits_go_round(i: usize, total: int, forward: bool)
    requires
        i < total <= usize::MAX,
    ensures
        0 <= next_hit(Some(i), total, forward) < total,
        next_hit(Some(next_hit(Some(i), total, forward) as usize), total, !forward) == i,
{
}

/// A jump list never grows past its limit, and the latest jump is on top.
pub proof fn lemma_jumps_limited(stack: Seq<JumpEntry>, e: JumpEntry)
    requires
        stack.len() <= JUMP_LIMIT,
    ensures
        pushed(stack, e).len() <= JUMP_LIMIT,
        pushed(stack, e).last() == e,
{
}

/// Anything a window can display.
#[derive(Debug)]
pub enum Buffer<D> {
    Pdf(PdfBuffer<D>),
    Explorer(ExplorerBuffer),
}

impl<D> Buffer<D> {
    pub open spec fn spec_id(self) -> BufferId {
        match self {
            Buffer::Pdf(p) => p.id,
            Buffer::Explorer(e) => e.id,
        }
    }

    pub fn id(&self) -> (id: BufferId)
        ensures
            id == self.spec_id(),
    {
        match self {
            Buffer::Pdf(p) => p.id,
            Buffer::Explorer(e) => e.id,
        }
    }

    pub fn display_name(&self) -> (s: String)
        ensures
            s@ == (match self {
                Buffer::Pdf(p) => shown_name(p.path@),
                Buffer::Explorer(e) => explorer::bracketed_name(e.cwd@),
            }),
    {
        match self {
            Buffer::Pdf(p) => p.display_name(),
            Buffer::Explorer(e) => e.display_name(),
        }
    }

    pub fn is_explorer(&self) -> (b: bool)
        ensures
            b == (self is Explorer),
    {
        match self {
            Buffer::Pdf(_) => false,
            Buffer::Explorer(_) => true,
        }
    }

    pub fn as_pdf(&self) -> (r: Option<&PdfBuffer<D>>)
        ensures
            match self {
                Buffer::Pdf(p) => r == Some(p),
                Buffer::Explorer(_) => r is None,
            },
    {
        match self {
            Buffer::Pdf(p) => Some(p),
            Buffer::Explorer(_) => None,
        }
    }

    pub fn as_pdf_mut(&mut self) -> (r: Option<&mut PdfBuffer<D>>)
        ensures
            match *old(self) {
                Buffer::Pdf(p) => r matches Some(q) && *q == p && *final(self) == Buffer::Pdf(
                    *final(q),
                ),
                Buffer::Explorer(_) => r is None && *final(self) == *old(self),
            },
    {
        match self {
            Buffer::Pdf(p) => Some(p),
            Buffer::Explorer(_) => None,
        }
    }

    pub fn as_explorer(&self) -> (r: Option<&ExplorerBuffer>)
        ensures
            match self {
                Buffer::Explorer(e) => r == Some(e),
                Buffer::Pdf(_) => r is None,
            },
    {
        match self {
            Buffer::Explorer(e) => Some(e),
            Buffer::Pdf(_) => None,
        }
    }

    pub fn as_explorer_mut(&mut self) -> (r: Option<&mut ExplorerBuffer>)
        ensures
            match *old(self) {
                Buffer::Explorer(e) => r matches Some(q) && *q == e && *final(self)
                    == Buffer::Explorer::<D>(*final(q)),
                Buffer::Pdf(_) => r is None && *final(self) == *old(self),
            },
    {
        match self {
            Buffer::Explorer(e) => Some(e),
            Buffer::Pdf(_) => None,
        }
    }
}

} // verus!
