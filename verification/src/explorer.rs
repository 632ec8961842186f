//! The directory browser: what a directory shows, and moving in it.
use vstd::multiset::Multiset;
use vstd::prelude::*;

use crate::buffer::BufferId;
use crate::commands::{self, join};
use crate::paths::{self, extension_start, file_name_of, parent_of};
use crate::text::{self, lower_chars, push_str, same, same_chars, to_chars};

verus! {

/// One item of a directory, as it was found.
#[derive(Debug)]
pub struct DirItem {
    pub name: String,
    pub is_dir: bool,
}

#[derive(Debug, Clone, Copy, PartialEq, Eq, Structural)]
pub enum ExplorerKind {
    /// Parent-directory pseudo-entry (`..`), first where there is a parent.
    ParentDir,
    Dir,
    Pdf,
}

#[derive(Debug, PartialEq, Eq)]
pub struct ExplorerEntry {
    pub name: String,
    pub kind: ExplorerKind,
}

impl ExplorerEntry {
    pub fn is_dir_like(&self) -> (b: bool)
        ensures
            b == (self.kind == ExplorerKind::Dir || self.kind == ExplorerKind::ParentDir),
    {
        match self.kind {
            ExplorerKind::Dir | ExplorerKind::ParentDir => true,
            ExplorerKind::Pdf => false,
        }
    }
}

/// A filesystem browser sitting in a window.
#[derive(Debug)]
pub struct ExplorerBuffer {
    pub id: BufferId,
    pub cwd: String,
    pub entries: Vec<ExplorerEntry>,
    /// Index into `entries`.
    pub selected: usize,
}

// ------------------------------ Order of names ------------------------------

/// `a` comes before `b` in the order of characters, or is the same.
pub open spec fn at_most(a: Seq<char>, b: Seq<char>) -> bool
    decreases a.len(),
{
    if a.len() == 0 {
        true
    } else if b.len() == 0 {
        false
    } else if a[0] != b[0] {
        a[0] < b[0]
    } else {
        at_most(a.skip(1), b.skip(1))
    }
}

proof fn lemma_order_total(a: Seq<char>, b: Seq<char>)
    ensures
        at_most(a, b) || at_most(b, a),
    decreases a.len(),
{
    if a.len() > 0 && b.len() > 0 && a[0] == b[0] {
        lemma_order_total(a.skip(1), b.skip(1));
    }
}

proof fn lemma_order_transitive(a: Seq<char>, b: Seq<char>, c: Seq<char>)
    requires
        at_most(a, b),
        at_most(b, c),
    ensures
        at_most(a, c),
    decreases a.len(),
{
    if a.len() > 0 && b.len() > 0 && c.len() > 0 && a[0] == b[0] && b[0] == c[0] {
        lemma_order_transitive(a.skip(1), b.skip(1), c.skip(1));
    }
}

fn name_at_most(a: &Vec<char>, b: &Vec<char>) -> (r: bool)
    ensures
        r == at_most(a@, b@),
{
    let mut i: usize = 0;
    assert(a@.skip(0) == a@);
    assert(b@.skip(0) == b@);
    loop
        invariant
            i <= a@.len(),
            i <= b@.len(),
            at_most(a@, b@) == at_most(a@.skip(i as int), b@.skip(i as int)),
        decreases a@.len() - i,
    {
        let ghost x = a@.skip(i as int);
        let ghost y = b@.skip(i as int);
        if i >= a.len() {
            return true;
        }
        if i >= b.len() {
            return false;
        }
        assert(x[0] == a@[i as int]);
        assert(y[0] == b@[i as int]);
        if a[i] != b[i] {
            return a[i] < b[i];
        }
        assert(x.skip(1) == a@.skip(i + 1));
        assert(y.skip(1) == b@.skip(i + 1));
        i += 1;
    }
}

/// The texts of a list of names.
pub open spec fn texts(names: Seq<String>) -> Seq<Seq<char>>
    decreases names.len(),
{
    if names.len() == 0 {
        Seq::empty()
    } else {
        texts(names.drop_last()).push(names.last()@)
    }
}

/// The text of each name stands at its place.
pub proof fn lemma_texts(names: Seq<String>)
    ensures
        texts(names).len() == names.len(),
        forall|i: int| 0 <= i < names.len() ==> #[trigger] texts(names)[i] == names[i]@,
    decreases names.len(),
{
    if names.len() > 0 {
        lemma_texts(names.drop_last());
    }
}

/// No name comes after one that is larger.
pub open spec fn ascending(names: Seq<Seq<char>>) -> bool {
    forall|i: int, j: int|
        0 <= i < j < names.len() ==> at_most(#[trigger] names[i], #[trigger] names[j])
}

/// Put a name where it belongs among ascending ones.
pub(crate) fn insert_sorted(names: &mut Vec<String>, name: String)
    requires
        ascending(texts(old(names)@)),
    ensures
        ascending(texts(final(names)@)),
        texts(final(names)@).to_multiset() == texts(old(names)@).to_multiset().insert(name@),
{
    let ghost before = names@;
    let ghost old_texts = texts(before);
    let x: Vec<char> = to_chars(name.as_str());
    proof {
        lemma_texts(before);
    }
    let mut i: usize = 0;
    while i < names.len() && name_at_most(&to_chars(names[i].as_str()), &x)
        invariant
            i <= names@.len(),
            names@ == before,
            x@ == name@,
            old_texts == texts(before),
            old_texts.len() == before.len(),
            forall|k: int| 0 <= k < before.len() ==> #[trigger] old_texts[k] == before[k]@,
            forall|k: int| 0 <= k < i ==> at_most(#[trigger] old_texts[k], name@),
        decreases names@.len() - i,
    {
        assert(old_texts[i as int] == before[i as int]@);
        i += 1;
    }
    proof {
        if i < before.len() {
            assert(old_texts[i as int] == before[i as int]@);
            lemma_order_total(old_texts[i as int], name@);
        }
    }
    names.insert(i, name);
    proof {
        lemma_texts(names@);
        let now = texts(names@);
        assert(now =~= old_texts.insert(i as int, name@)) by {
            assert forall|k: int| 0 <= k < now.len() implies now[k] == old_texts.insert(
                i as int,
                name@,
            )[k] by {
                assert(now[k] == names@[k]@);
                if k < i {
                    assert(old_texts[k] == before[k]@);
                } else if k > i {
                    assert(old_texts[k - 1] == before[k - 1]@);
                }
            }
        }
        assert forall|a: int, b: int| 0 <= a < b < now.len() implies at_most(
            #[trigger] now[a],
            #[trigger] now[b],
        ) by {
            if a < i && b > i {
                assert(at_most(old_texts[a], old_texts[b - 1]));
            } else if a < i && b < i {
                assert(at_most(old_texts[a], old_texts[b]));
            } else if a > i {
                assert(at_most(old_texts[a - 1], old_texts[b - 1]));
            } else if a == i {
                if b - 1 > i {
                    assert(at_most(old_texts[i as int], old_texts[b - 1]));
                    lemma_order_transitive(name@, old_texts[i as int], old_texts[b - 1]);
                }
            }
        }
        lemma_insert_multiset(old_texts, i as int, name@);
    }
}

proof fn lemma_insert_multiset(s: Seq<Seq<char>>, i: int, x: Seq<char>)
    requires
        0 <= i <= s.len(),
    ensures
        s.insert(i, x).to_multiset() == s.to_multiset().insert(x),
{
    broadcast use vstd::seq_lib::group_to_multiset_ensures;

    vstd::seq_lib::to_multiset_insert(s, i, x);
}

// ------------------------------ What is shown ------------------------------

/// A document that the reader can open: its extension is `pdf` in any case.
pub open spec fn is_supported(name: Seq<char>) -> bool {
    paths::extension(name) matches Some(e) && text::lowered(e) == "pdf"@
}

/// A name that is not hidden.
pub open spec fn visible(name: Seq<char>) -> bool {
    name.len() == 0 || name[0] != '.'
}

/// A directory that is shown: sidecar directories are not.
pub open spec fn shown_dir(item: DirItem) -> bool {
    item.is_dir && visible(item.name@) && !".sdr"@.is_suffix_of(item.name@)
}

/// A file that is shown.
pub open spec fn shown_doc(item: DirItem) -> bool {
    !item.is_dir && visible(item.name@) && is_supported(item.name@)
}

/// The names of the directories that are shown, as often as they occur.
pub open spec fn shown_dirs(items: Seq<DirItem>) -> Multiset<Seq<char>>
    decreases items.len(),
{
    if items.len() == 0 {
        Multiset::empty()
    } else if shown_dir(items.last()) {
        shown_dirs(items.drop_last()).insert(items.last().name@)
    } else {
        shown_dirs(items.drop_last())
    }
}

/// The names of the documents that are shown, as often as they occur.
pub open spec fn shown_docs(items: Seq<DirItem>) -> Multiset<Seq<char>>
    decreases items.len(),
{
    if items.len() == 0 {
        Multiset::empty()
    } else if shown_doc(items.last()) {
        shown_docs(items.drop_last()).insert(items.last().name@)
    } else {
        shown_docs(items.drop_last())
    }
}

/// What an entry stands for.
pub open spec fn entry_view(e: ExplorerEntry) -> (Seq<char>, ExplorerKind) {
    (e.name@, e.kind)
}

/// What a list of entries stands for.
pub open spec fn entries_view(es: Seq<ExplorerEntry>) -> Seq<(Seq<char>, ExplorerKind)>
    decreases es.len(),
{
    if es.len() == 0 {
        Seq::empty()
    } else {
        entries_view(es.drop_last()).push(entry_view(es.last()))
    }
}

/// Entries keep their number and order.
pub proof fn lemma_entries_view(es: Seq<ExplorerEntry>)
    ensures
        entries_view(es).len() == es.len(),
        forall|i: int| 0 <= i < es.len() ==> #[trigger] entries_view(es)[i] == entry_view(es[i]),
    decreases es.len(),
{
    if es.len() > 0 {
        lemma_entries_view(es.drop_last());
    }
}

/// Names as entries of one kind.
pub open spec fn of_kind(names: Seq<Seq<char>>, kind: ExplorerKind) -> Seq<
    (Seq<char>, ExplorerKind),
> {
    Seq::new(names.len(), |i: int| (names[i], kind))
}

/// `list` is what a directory shows: the way up, then the directories, then
/// the documents, each in order.
pub open spec fn shows(
    list: Seq<(Seq<char>, ExplorerKind)>,
    cwd: Seq<char>,
    items: Seq<DirItem>,
) -> bool {
    exists|dirs: Seq<Seq<char>>, docs: Seq<Seq<char>>|
        {
            &&& #[trigger] ascending(dirs)
            &&& #[trigger] ascending(docs)
            &&& dirs.to_multiset() == shown_dirs(items)
            &&& docs.to_multiset() == shown_docs(items)
            &&& list == way_up(cwd) + of_kind(dirs, ExplorerKind::Dir) + of_kind(
                docs,
                ExplorerKind::Pdf,
            )
        }
}

/// The entry that leads to the parent, where there is one.
pub open spec fn way_up(cwd: Seq<char>) -> Seq<(Seq<char>, ExplorerKind)> {
    if paths::parent(cwd) is Some {
        seq![(".."@, ExplorerKind::ParentDir)]
    } else {
        Seq::empty()
    }
}

/// Position of the first entry of that name, else 0.
pub open spec fn position_or_first(es: Seq<(Seq<char>, ExplorerKind)>, name: Seq<char>) -> int
    decreases es.len(),
{
    match position(es, name) {
        Some(i) => i,
        None => 0,
    }
}

/// Position of the first entry of that name.
pub open spec fn position(es: Seq<(Seq<char>, ExplorerKind)>, name: Seq<char>) -> Option<int>
    decreases es.len(),
{
    if es.len() == 0 {
        None
    } else if es[0].0 == name {
        Some(0)
    } else {
        match position(es.skip(1), name) {
            Some(i) => Some(i + 1),
            None => None,
        }
    }
}

/// `position` finds the first entry of the name, or that there is none.
pub proof fn lemma_position(es: Seq<(Seq<char>, ExplorerKind)>, name: Seq<char>)
    ensures
        position(es, name) matches Some(i) ==> {
            &&& 0 <= i < es.len()
            &&& es[i].0 == name
            &&& forall|j: int| 0 <= j < i ==> (#[trigger] es[j]).0 != name
        },
        position(es, name) is None ==> forall|j: int|
            0 <= j < es.len() ==> (#[trigger] es[j]).0 != name,
    decreases es.len(),
{
    if es.len() > 0 && es[0].0 != name {
        let rest = es.skip(1);
        lemma_position(rest, name);
        assert forall|j: int| 1 <= j < es.len() implies es[j] == rest[j - 1] by {}
    }
}

/// Whether the reader can open a file of that name.
pub fn is_supported_doc(name: &str) -> (r: bool)
    ensures
        r == is_supported(name@),
{
    let cs: Vec<char> = to_chars(name);
    match extension_start(&cs) {
        Some(i) => {
            assert(cs@.subrange(i as int, cs@.len() as int) == cs@.skip(i as int));
            same_chars(&lower_chars(&cs, i, cs.len()), &to_chars("pdf"))
        },
        None => false,
    }
}

fn is_visible(name: &str) -> (r: bool)
    ensures
        r == visible(name@),
{
    let cs: Vec<char> = to_chars(name);
    cs.len() == 0 || cs[0] != '.'
}

/// Whether a name ends in `.sdr`.
pub(crate) fn is_sidecar_dir(name: &str) -> (r: bool)
    ensures
        r == ".sdr"@.is_suffix_of(name@),
{
    let cs: Vec<char> = to_chars(name);
    proof {
        reveal_strlit(".sdr");
    }
    let n: usize = cs.len();
    if n < 4 {
        return false;
    }
    let tail: String = text::from_chars(&cs, n - 4, n);
    let r: bool = same(tail.as_str(), ".sdr");
    assert(name@.subrange(n - 4, n as int) == tail@);
    r
}

fn push_kind(names: Vec<String>, kind: ExplorerKind, out: &mut Vec<ExplorerEntry>)
    ensures
        entries_view(final(out)@) == entries_view(old(out)@) + of_kind(texts(names@), kind),
{
    let ghost before = entries_view(out@);
    let ghost all = texts(names@);
    let ghost start = names@;
    proof {
        lemma_texts(start);
        assert(before + of_kind(all.take(0), kind) =~= before);
    }
    let mut names: Vec<String> = names;
    let n: usize = names.len();
    let mut i: usize = 0;
    while i < n
        invariant
            i <= n == start.len() == all.len(),
            names@ == start.skip(i as int),
            forall|k: int| 0 <= k < n ==> #[trigger] all[k] == start[k]@,
            entries_view(out@) == before + of_kind(all.take(i as int), kind),
        decreases n - i,
    {
        let name: String = names.remove(0);
        assert(name == start[i as int]);
        assert(all[i as int] == name@);
        let ghost sofar = out@;
        out.push(ExplorerEntry { name, kind });
        assert(out@.drop_last() == sofar);
        assert(entries_view(out@) =~= before + of_kind(all.take(i + 1), kind)) by {
            assert(of_kind(all.take(i + 1), kind) =~= of_kind(all.take(i as int), kind).push(
                (name@, kind),
            ));
        }
        assert(names@ =~= start.skip(i + 1));
        i += 1;
    }
    assert(all.take(n as int) == all);
}

/// The entries that a directory shows.
fn list_entries(cwd: &str, items: &Vec<DirItem>) -> (out: Vec<ExplorerEntry>)
    ensures
        shows(entries_view(out@), cwd@, items@),
{
    let mut dirs: Vec<String> = Vec::new();
    let mut docs: Vec<String> = Vec::new();
    let mut i: usize = 0;
    assert(items@.take(0).len() == 0);
    proof {
        broadcast use vstd::seq_lib::group_to_multiset_ensures;

        assert(texts(dirs@).to_multiset() =~= Multiset::empty());
    }
    while i < items.len()
        invariant
            i <= items@.len(),
            ascending(texts(dirs@)),
            ascending(texts(docs@)),
            texts(dirs@).to_multiset() == shown_dirs(items@.take(i as int)),
            texts(docs@).to_multiset() == shown_docs(items@.take(i as int)),
        decreases items@.len() - i,
    {
        let item: &DirItem = &items[i];
        let ghost t = items@.take(i + 1);
        assert(t.drop_last() == items@.take(i as int));
        assert(t.last() == items@[i as int]);
        if is_visible(item.name.as_str()) {
            if item.is_dir {
                if !is_sidecar_dir(item.name.as_str()) {
                    insert_sorted(&mut dirs, item.name.clone());
                }
            } else if is_supported_doc(item.name.as_str()) {
                insert_sorted(&mut docs, item.name.clone());
            }
        }
        i += 1;
    }
    assert(items@.take(i as int) == items@);
    let mut out: Vec<ExplorerEntry> = Vec::new();
    if parent_of(cwd).is_some() {
        out.push(ExplorerEntry { name: text::owned(".."), kind: ExplorerKind::ParentDir });
        proof {
            reveal_with_fuel(entries_view, 2);
            assert(out@.drop_last() =~= Seq::<ExplorerEntry>::empty());
            assert(entries_view(out@) =~= way_up(cwd@));
        }
    } else {
        assert(entries_view(out@) =~= way_up(cwd@));
    }
    let ghost d = texts(dirs@);
    let ghost f = texts(docs@);
    push_kind(dirs, ExplorerKind::Dir, &mut out);
    push_kind(docs, ExplorerKind::Pdf, &mut out);
    assert(ascending(d) && ascending(f));
    out
}

/// The display name of a directory: its last part in square brackets.
pub open spec fn bracketed_name(cwd: Seq<char>) -> Seq<char> {
    seq!['['] + (match paths::file_name(cwd) {
        Some(name) => name,
        None => cwd,
    }) + seq![']']
}

impl ExplorerBuffer {
    /// The entries as names and kinds.
    pub open spec fn list(self) -> Seq<(Seq<char>, ExplorerKind)> {
        entries_view(self.entries@)
    }

    /// A selection exists, unless there is nothing to select.
    pub open spec fn selection_valid(self) -> bool {
        self.selected < self.entries@.len() || (self.entries@.len() == 0 && self.selected == 0)
    }

    /// The position in a new list of the entry that is selected now.
    pub open spec fn reselected(self, list: Seq<(Seq<char>, ExplorerKind)>) -> int {
        if self.selected < self.entries@.len() {
            position_or_first(list, self.entries@[self.selected as int].name@)
        } else {
            0
        }
    }

    /// Browse a directory. `items` is what was found in it.
    pub fn open(id: BufferId, cwd: String, items: &Vec<DirItem>) -> (b: ExplorerBuffer)
        ensures
            b.id == id,
            b.cwd@ == cwd@,
            shows(b.list(), cwd@, items@),
            b.selected == 0,
    {
        let entries: Vec<ExplorerEntry> = list_entries(cwd.as_str(), items);
        ExplorerBuffer { id, cwd, entries, selected: 0 }
    }

    /// List the directory anew. The entry that was selected stays selected
    /// where there is still one of its name, else the first one is.
    pub fn refresh(&mut self, items: &Vec<DirItem>)
        ensures
            final(self).id == old(self).id,
            final(self).cwd@ == old(self).cwd@,
            shows(final(self).list(), old(self).cwd@, items@),
            final(self).selected == old(self).reselected(final(self).list()),
            final(self).selection_valid(),
    {
        let previous: Option<String> = if self.selected < self.entries.len() {
            Some(self.entries[self.selected].name.clone())
        } else {
            None
        };
        self.entries = list_entries(self.cwd.as_str(), items);
        self.selected =
        match previous {
            Some(name) => match self.find(name.as_str()) {
                Some(i) => i,
                None => 0,
            },
            None => 0,
        };
    }

    fn find(&self, name: &str) -> (r: Option<usize>)
        ensures
            match position(self.list(), name@) {
                Some(i) => r matches Some(k) && k == i && 0 <= i < self.entries@.len(),
                None => r is None,
            },
    {
        let ghost es = self.list();
        proof {
            lemma_entries_view(self.entries@);
            lemma_position(es, name@);
        }
        let mut i: usize = 0;
        while i < self.entries.len()
            invariant
                i <= self.entries@.len(),
                es == self.list(),
                es.len() == self.entries@.len(),
                forall|k: int|
                    0 <= k < es.len() ==> #[trigger] es[k] == entry_view(self.entries@[k]),
                forall|k: int| 0 <= k < i ==> (#[trigger] es[k]).0 != name@,
            decreases self.entries@.len() - i,
        {
            assert(es[i as int] == entry_view(self.entries@[i as int]));
            if same(self.entries[i].name.as_str(), name) {
                proof {
                    lemma_position(es, name@);
                }
                return Some(i);
            }
            i += 1;
        }
        proof {
            lemma_position(es, name@);
        }
        None
    }

    /// Force the selection onto an entry.
    pub fn clamp_selection(&mut self)
        ensures
            final(self).entries == old(self).entries,
            final(self).cwd == old(self).cwd,
            final(self).id == old(self).id,
            final(self).selected == (if old(self).selected < old(self).entries@.len() {
                old(self).selected as int
            } else if old(self).entries@.len() == 0 {
                0
            } else {
                old(self).entries@.len() - 1
            }),
    {
        let n: usize = self.entries.len();
        if n == 0 {
            self.selected = 0;
        } else if self.selected >= n {
            self.selected = n - 1;
        }
    }

    /// Move the selection by `delta` entries, at most to either end.
    pub fn move_selection(&mut self, delta: isize)
        ensures
            final(self).entries == old(self).entries,
            final(self).cwd == old(self).cwd,
            final(self).id == old(self).id,
            final(self).selected == ({
                let n = old(self).entries@.len() as int;
                let next = old(self).selected + delta;
                if n == 0 {
                    old(self).selected as int
                } else if next < 0 {
                    0
                } else if next >= n {
                    n - 1
                } else {
                    next
                }
            }),
    {
        let n: usize = self.entries.len();
        if n == 0 {
            return ;
        }
        let next: i128 = self.selected as i128 + delta as i128;
        self.selected = if next < 0 {
            0
        } else if next >= n as i128 {
            n - 1
        } else {
            next as usize
        };
    }

    pub fn goto_first(&mut self)
        ensures
            *final(self) == (ExplorerBuffer { selected: 0, ..*old(self) }),
    {
        self.selected = 0;
    }

    pub fn goto_last(&mut self)
        ensures
            final(self).entries == old(self).entries,
            final(self).cwd == old(self).cwd,
            final(self).id == old(self).id,
            final(self).selected == (if old(self).entries@.len() == 0 {
                old(self).selected as int
            } else {
                old(self).entries@.len() - 1
            }),
    {
        let n: usize = self.entries.len();
        if n > 0 {
            self.selected = n - 1;
        }
    }

    pub fn selected_entry(&self) -> (r: Option<&ExplorerEntry>)
        ensures
            r == (if self.selected < self.entries@.len() {
                Some(&self.entries@[self.selected as int])
            } else {
                None
            }),
    {
        if self.selected < self.entries.len() {
            Some(&self.entries[self.selected])
        } else {
            None
        }
    }

    /// The path of the selected entry.
    pub fn selected_path(&self) -> (r: Option<String>)
        ensures
            if self.selected >= self.entries@.len() {
                r is None
            } else {
                let e = self.entries@[self.selected as int];
                match e.kind {
                    ExplorerKind::ParentDir => match paths::parent(self.cwd@) {
                        Some(p) => r matches Some(s) && s@ == p,
                        None => r is None,
                    },
                    _ => r matches Some(s) && s@ == commands::joined(self.cwd@, e.name@),
                }
            },
    {
        match self.selected_entry() {
            None => None,
            Some(e) => match e.kind {
                ExplorerKind::ParentDir => parent_of(self.cwd.as_str()),
                ExplorerKind::Dir | ExplorerKind::Pdf => Some(
                    join(self.cwd.as_str(), e.name.as_str()),
                ),
            },
        }
    }

    /// Change to another directory. `items` is what was found in it.
    pub fn set_cwd(&mut self, new: String, items: &Vec<DirItem>)
        ensures
            final(self).id == old(self).id,
            final(self).cwd@ == new@,
            shows(final(self).list(), new@, items@),
            final(self).selected == 0,
    {
        self.entries = list_entries(new.as_str(), items);
        self.cwd = new;
        self.selected = 0;
    }

    /// Change to the parent directory `up`, selecting the directory that was
    /// left where it is shown there. `items` is what was found in `up`.
    pub fn parent(&mut self, up: String, items: &Vec<DirItem>)
        ensures
            final(self).id == old(self).id,
            final(self).cwd@ == up@,
            shows(final(self).list(), up@, items@),
            final(self).selection_valid(),
            final(self).selected == (match paths::file_name(old(self).cwd@) {
                Some(child) => match position(final(self).list(), child) {
                    Some(i) => i,
                    None => old(self).reselected(final(self).list()),
                },
                None => old(self).reselected(final(self).list()),
            }),
    {
        let child: Option<String> = file_name_of(self.cwd.as_str());
        self.cwd = up;
        self.refresh(items);
        if let Some(name) = child {
            if let Some(i) = self.find(name.as_str()) {
                self.selected = i;
            }
        }
    }

    /// Short title used by the tab bar and window status.
    pub fn display_name(&self) -> (s: String)
        ensures
            s@ == bracketed_name(self.cwd@),
    {
        let mut s: String = String::new();
        s.push('[');
        match file_name_of(self.cwd.as_str()) {
            Some(name) => push_str(&mut s, name.as_str()),
            None => push_str(&mut s, self.cwd.as_str()),
        }
        s.push(']');
        assert(s@ =~= bracketed_name(self.cwd@));
        s
    }
}

} // verus!
