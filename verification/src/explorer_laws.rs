//! What a directory lists, where its entries lead, and what is offered for a
//! line that is being typed.
use vstd::prelude::*;

use crate::command_table::{self, Verb};
use crate::commands;
use crate::explorer::{self, DirItem, ExplorerKind};
use crate::palette::{self, Offer};
use crate::paths;
use crate::text;

verus! {

/// The first difference decides which of two names comes first; a name comes
/// after what it begins with.
pub proof fn lemma_name_order(head: Seq<char>, a: char, b: char, x: Seq<char>, y: Seq<char>)
    ensures
        a < b ==> explorer::at_most(head + seq![a] + x, head + seq![b] + y),
        a < b ==> !explorer::at_most(head + seq![b] + y, head + seq![a] + x),
        explorer::at_most(head, head + x),
        x.len() > 0 ==> !explorer::at_most(head + x, head),
    decreases head.len(),
{
    let p = head + seq![a] + x;
    let q = head + seq![b] + y;
    if head.len() == 0 {
        assert(p[0] == a && q[0] == b);
        assert(head + x =~= x);
    } else {
        let rest = head.skip(1);
        lemma_name_order(rest, a, b, x, y);
        assert(p.skip(1) =~= rest + seq![a] + x);
        assert(q.skip(1) =~= rest + seq![b] + y);
        assert(p[0] == head[0] && q[0] == head[0]);
        assert((head + x).skip(1) =~= rest + x);
        assert((head + x)[0] == head[0]);
    }
}

/// An item that a directory shows: no hidden one, no sidecar directory, and of
/// files only documents.
pub open spec fn is_listed(item: DirItem) -> bool {
    &&& item.name@.len() > 0 ==> item.name@[0] != '.'
    &&& if item.is_dir {
        !".sdr"@.is_suffix_of(item.name@)
    } else {
        explorer::is_supported(item.name@)
    }
}

proof fn lemma_shown_dirs(items: Seq<DirItem>, name: Seq<char>)
    ensures
        explorer::shown_dirs(items).count(name) > 0 <==> exists|k: int|
            0 <= k < items.len() && (#[trigger] items[k]).is_dir && is_listed(items[k])
                && items[k].name@ == name,
    decreases items.len(),
{
    if items.len() > 0 {
        let rest = items.drop_last();
        lemma_shown_dirs(rest, name);
        let last = items[items.len() - 1];
        if explorer::shown_dirs(rest).count(name) > 0 {
            let k = choose|k: int|
                0 <= k < rest.len() && (#[trigger] rest[k]).is_dir && is_listed(rest[k])
                    && rest[k].name@ == name;
            assert(items[k] == rest[k]);
        }
        if exists|k: int|
            0 <= k < items.len() && (#[trigger] items[k]).is_dir && is_listed(items[k])
                && items[k].name@ == name {
            let k = choose|k: int|
                0 <= k < items.len() && (#[trigger] items[k]).is_dir && is_listed(items[k])
                    && items[k].name@ == name;
            if k < rest.len() {
                assert(rest[k] == items[k]);
            }
        }
    }
}

proof fn lemma_shown_docs(items: Seq<DirItem>, name: Seq<char>)
    ensures
        explorer::shown_docs(items).count(name) > 0 <==> exists|k: int|
            0 <= k < items.len() && !(#[trigger] items[k]).is_dir && is_listed(items[k])
                && items[k].name@ == name,
    decreases items.len(),
{
    if items.len() > 0 {
        let rest = items.drop_last();
        lemma_shown_docs(rest, name);
        if explorer::shown_docs(rest).count(name) > 0 {
            let k = choose|k: int|
                0 <= k < rest.len() && !(#[trigger] rest[k]).is_dir && is_listed(rest[k])
                    && rest[k].name@ == name;
            assert(items[k] == rest[k]);
        }
        if exists|k: int|
            0 <= k < items.len() && !(#[trigger] items[k]).is_dir && is_listed(items[k])
                && items[k].name@ == name {
            let k = choose|k: int|
                0 <= k < items.len() && !(#[trigger] items[k]).is_dir && is_listed(items[k])
                    && items[k].name@ == name;
            if k < rest.len() {
                assert(rest[k] == items[k]);
            }
        }
    }
}

/// A directory lists the way up, where there is one, before everything else,
/// then directories and then documents, each by name. What it lists is just
/// what is not hidden, no sidecar directory and no other file.
pub proof fn lemma_listing(
    list: Seq<(Seq<char>, ExplorerKind)>,
    cwd: Seq<char>,
    items: Seq<DirItem>,
    k: int,
    i: int,
    j: int,
)
    requires
        explorer::shows(list, cwd, items),
        0 <= k < items.len(),
        0 <= i < list.len(),
        0 <= j < list.len(),
    ensures
        list[i].1 == ExplorerKind::ParentDir <==> i == 0 && paths::parent(cwd) is Some,
        list[i].1 == ExplorerKind::ParentDir ==> list[i].0 == seq!['.', '.'],
        list[i].1 == ExplorerKind::Dir && list[j].1 == ExplorerKind::Pdf ==> i < j,
        i < j && list[i].1 == list[j].1 ==> explorer::at_most(list[i].0, list[j].0),
        is_listed(items[k]) && items[k].is_dir ==> list.contains(
            (items[k].name@, ExplorerKind::Dir),
        ),
        is_listed(items[k]) && !items[k].is_dir ==> list.contains(
            (items[k].name@, ExplorerKind::Pdf),
        ),
        list[i].1 != ExplorerKind::ParentDir ==> exists|m: int|
            {
                &&& 0 <= m < items.len()
                &&& is_listed(#[trigger] items[m])
                &&& items[m].name@ == list[i].0
                &&& items[m].is_dir == (list[i].1 == ExplorerKind::Dir)
            },
{
    broadcast use vstd::seq_lib::group_to_multiset_ensures;

    let (dirs, docs) = choose|dirs: Seq<Seq<char>>, docs: Seq<Seq<char>>|
        {
            &&& #[trigger] explorer::ascending(dirs)
            &&& #[trigger] explorer::ascending(docs)
            &&& dirs.to_multiset() == explorer::shown_dirs(items)
            &&& docs.to_multiset() == explorer::shown_docs(items)
            &&& list == explorer::way_up(cwd) + explorer::of_kind(dirs, ExplorerKind::Dir)
                + explorer::of_kind(docs, ExplorerKind::Pdf)
        };
    reveal_strlit("..");
    assert(".."@ =~= seq!['.', '.']);
    let up = explorer::way_up(cwd);
    let n = up.len() as int;
    let name = items[k].name@;
    lemma_shown_dirs(items, name);
    lemma_shown_docs(items, name);
    if is_listed(items[k]) && items[k].is_dir {
        assert(dirs.contains(name));
        let at = dirs.index_of(name);
        assert(list[n + at] == (name, ExplorerKind::Dir));
    }
    if is_listed(items[k]) && !items[k].is_dir {
        assert(docs.contains(name));
        let at = docs.index_of(name);
        assert(list[n + dirs.len() + at] == (name, ExplorerKind::Pdf));
    }
    lemma_shown_dirs(items, list[i].0);
    lemma_shown_docs(items, list[i].0);
    if n <= i < n + dirs.len() {
        assert(dirs[i - n] == list[i].0);
        assert(dirs.contains(list[i].0));
    } else if n + dirs.len() <= i {
        assert(docs[i - n - dirs.len()] == list[i].0);
        assert(docs.contains(list[i].0));
    }
    if i < j && list[i].1 == list[j].1 {
        if n <= i && j < n + dirs.len() {
            assert(explorer::at_most(dirs[i - n], dirs[j - n]));
        } else if n + dirs.len() <= i {
            assert(explorer::at_most(docs[i - n - dirs.len()], docs[j - n - dirs.len()]));
        }
    }
}

/// What follows the last dot is the extension.
pub(crate) proof fn lemma_extension_is(stem: Seq<char>, ext: Seq<char>)
    requires
        forall|i: int| 0 <= i < ext.len() ==> #[trigger] ext[i] != '.',
    ensures
        paths::extension(stem + seq!['.'] + ext) == Some(ext),
    decreases ext.len(),
{
    let s = stem + seq!['.'] + ext;
    if ext.len() == 0 {
        assert(s.last() == '.');
        assert(ext =~= Seq::<char>::empty());
    } else {
        let less = ext.drop_last();
        assert forall|i: int| 0 <= i < less.len() implies #[trigger] less[i] != '.' by {
            assert(less[i] == ext[i]);
        }
        lemma_extension_is(stem, less);
        assert(s.drop_last() =~= stem + seq!['.'] + less);
        assert(s.last() == ext[ext.len() - 1]);
        assert(less.push(ext.last()) =~= ext);
    }
}

/// A letter in either case.
pub open spec fn either(c: char, small: char, large: char) -> bool {
    c == small || c == large
}

/// A name that ends in `.pdf`, in any mix of cases, is that of a document, and
/// one with another three letters is not.
pub proof fn lemma_documents_end_in_pdf(stem: Seq<char>, a: char, b: char, c: char)
    requires
        a != '.' && b != '.' && c != '.',
    ensures
        explorer::is_supported(stem + seq!['.'] + seq![a, b, c]) <==> either(a, 'p', 'P') && either(
            b,
            'd',
            'D',
        ) && either(c, 'f', 'F'),
{
    let ext = seq![a, b, c];
    lemma_extension_is(stem, ext);
    reveal_strlit("pdf");
    reveal_with_fuel(text::lowered, 4);
    assert(ext.drop_last() =~= seq![a, b]);
    assert(seq![a, b].drop_last() =~= seq![a]);
    assert(seq![a].drop_last() =~= Seq::<char>::empty());
    let low = text::lowered(ext);
    assert(low =~= seq![text::lower(a), text::lower(b), text::lower(c)]);
    assert("pdf"@ =~= seq!['p', 'd', 'f']);
    if low == "pdf"@ {
        assert(low[0] == 'p' && low[1] == 'd' && low[2] == 'f');
    }
}

/// The part of a path up to its last slash and what follows make up the path;
/// what follows has no slash.
pub proof fn lemma_path_parts(arg: Seq<char>)
    ensures
        palette::dir_part(arg) + palette::name_part(arg) == arg,
        palette::dir_part(arg).len() > 0 ==> palette::dir_part(arg).last() == '/',
        forall|i: int|
            0 <= i < palette::name_part(arg).len() ==> #[trigger] palette::name_part(arg)[i] != '/',
    decreases arg.len(),
{
    paths::lemma_last_part(arg);
    let n = paths::last_part(arg);
    assert(arg.take(n) + arg.skip(n) =~= arg);
    if arg.len() > 0 && arg.last() != '/' {
        let rest = arg.drop_last();
        lemma_path_parts(rest);
        paths::lemma_last_part(rest);
        assert(palette::dir_part(rest) =~= palette::dir_part(arg));
        assert forall|i: int| 0 <= i < palette::name_part(arg).len() implies
            #[trigger] palette::name_part(arg)[i] != '/' by {
            if i < palette::name_part(rest).len() {
                assert(palette::name_part(arg)[i] == palette::name_part(rest)[i]);
            }
        }
    }
}

/// A path is completed to the same directory with an entry whose name begins
/// as the path's last part does; a directory gets a slash.
pub proof fn lemma_path_completed(
    list: Seq<Offer>,
    arg: Seq<char>,
    from: int,
    items: Seq<DirItem>,
    i: int,
)
    requires
        palette::path_offers(list, arg, from, items),
        0 <= i < list.len(),
    ensures
        list[i].from == from,
        exists|k: int|
            {
                &&& 0 <= k < items.len()
                &&& palette::name_part(arg).is_prefix_of((#[trigger] items[k]).name@)
                &&& items[k].is_dir ==> list[i].insert == palette::dir_part(arg) + items[k].name@
                    + seq!['/']
                &&& !items[k].is_dir ==> list[i].insert == palette::dir_part(arg) + items[k].name@
                    && explorer::is_supported(items[k].name@)
            },
{
    broadcast use vstd::seq_lib::group_to_multiset_ensures;

    let (dirs, docs) = choose|dirs: Seq<Seq<char>>, docs: Seq<Seq<char>>|
        {
            &&& #[trigger] explorer::ascending(dirs)
            &&& #[trigger] explorer::ascending(docs)
            &&& dirs.to_multiset() == palette::offered_dirs(items, palette::name_part(arg))
            &&& docs.to_multiset() == palette::offered_docs(items, palette::name_part(arg))
            &&& list == Seq::new(
                dirs.len(),
                |i: int| palette::dir_offer(palette::dir_part(arg), dirs[i], from),
            ) + Seq::new(
                docs.len(),
                |i: int| palette::doc_offer(palette::dir_part(arg), docs[i], from),
            )
        };
    reveal_strlit("/");
    assert("/"@ =~= seq!['/']);
    if i < dirs.len() {
        assert(dirs.contains(dirs[i]));
        lemma_offered(items, palette::name_part(arg), dirs[i]);
        let k = choose|k: int|
            0 <= k < items.len() && palette::offered_dir(
                #[trigger] items[k],
                palette::name_part(arg),
            ) && items[k].name@ == dirs[i];
        assert(items[k].name@ == dirs[i]);
    } else {
        let name = docs[i - dirs.len()];
        assert(docs.contains(name));
        lemma_offered(items, palette::name_part(arg), name);
        let k = choose|k: int|
            0 <= k < items.len() && palette::offered_doc(
                #[trigger] items[k],
                palette::name_part(arg),
            ) && items[k].name@ == name;
        assert(items[k].name@ == name);
    }
}

proof fn lemma_offered(items: Seq<DirItem>, prefix: Seq<char>, name: Seq<char>)
    ensures
        palette::offered_dirs(items, prefix).count(name) > 0 ==> exists|k: int|
            0 <= k < items.len() && palette::offered_dir(#[trigger] items[k], prefix)
                && items[k].name@ == name,
        palette::offered_docs(items, prefix).count(name) > 0 ==> exists|k: int|
            0 <= k < items.len() && palette::offered_doc(#[trigger] items[k], prefix)
                && items[k].name@ == name,
    decreases items.len(),
{
    if items.len() > 0 {
        let rest = items.drop_last();
        lemma_offered(rest, prefix, name);
        let last = items[items.len() - 1];
        if palette::offered_dirs(rest, prefix).count(name) > 0 {
            let k = choose|k: int|
                0 <= k < rest.len() && palette::offered_dir(#[trigger] rest[k], prefix)
                    && rest[k].name@ == name;
            assert(items[k] == rest[k]);
        }
        if palette::offered_docs(rest, prefix).count(name) > 0 {
            let k = choose|k: int|
                0 <= k < rest.len() && palette::offered_doc(#[trigger] rest[k], prefix)
                    && rest[k].name@ == name;
            assert(items[k] == rest[k]);
        }
    }
}

/// What is offered for a beginning of a command: its name, with a space where
/// an argument follows, in place of all that was typed.
pub proof fn lemma_command_completed(verb: Verb)
    ensures
        palette::command_offer(verb).from == 0,
        command_table::argument(verb) is Nothing ==> palette::command_offer(verb).insert
            == command_table::spellings(verb)[0],
        !(command_table::argument(verb) is Nothing) ==> palette::command_offer(verb).insert
            == command_table::spellings(verb)[0] + seq![' '],
        commands::completes(verb, command_table::spellings(verb)[0]),
        commands::completes(verb, Seq::empty()),
{
    let name = command_table::spellings(verb)[0];
    assert(name.push(' ') =~= name + seq![' ']);
    assert(command_table::spellings(verb).len() > 0);
    assert(name.is_prefix_of(command_table::spellings(verb)[0]));
    assert(Seq::<char>::empty().is_prefix_of(command_table::spellings(verb)[0])) by {
        assert(name.subrange(0, 0) =~= Seq::<char>::empty());
    }
}

/// Going up from a directory that was entered leads back, and its name is that
/// of the entry.
pub proof fn lemma_enter_and_up(dir: Seq<char>, name: Seq<char>)
    requires
        dir.len() > 1,
        dir.last() != '/',
        dir.last() != '.',
        name.len() > 0,
        name[0] != '.',
        name.last() != '.',
        forall|i: int| 0 <= i < name.len() ==> #[trigger] name[i] != '/',
    ensures
        paths::parent(commands::joined(dir, name)) == Some(dir),
        paths::file_name(commands::joined(dir, name)) == Some(name),
{
    let path = commands::joined(dir, name);
    assert(path == dir.push('/') + name);
    assert(path.last() == name[name.len() - 1]);
    assert(paths::trim_tail(path) == path);
    lemma_last_part_is(dir.push('/'), name);
    let i = dir.len() + 1;
    assert(paths::last_part(path) == i);
    assert(path.take(i - 1) =~= dir);
    assert(path.skip(i as int) =~= name);
    assert(paths::trim_tail(dir) == dir);
    assert(name != seq!['.'] && name != seq!['.', '.']) by {
        assert(seq!['.'][0] == '.' && seq!['.', '.'][0] == '.');
    }
}

proof fn lemma_last_part_is(head: Seq<char>, name: Seq<char>)
    requires
        head.len() > 0,
        head.last() == '/',
        forall|i: int| 0 <= i < name.len() ==> #[trigger] name[i] != '/',
    ensures
        paths::last_part(head + name) == head.len(),
    decreases name.len(),
{
    let s = head + name;
    if name.len() == 0 {
        assert(s =~= head);
    } else {
        let less = name.drop_last();
        assert forall|i: int| 0 <= i < less.len() implies #[trigger] less[i] != '/' by {
            assert(less[i] == name[i]);
        }
        lemma_last_part_is(head, less);
        assert(s.drop_last() =~= head + less);
        assert(s.last() == name[name.len() - 1]);
    }
}

/// Where no file is asked for the palette offers the commands that the input
/// begins, each of them and no other.
pub proof fn lemma_commands_offered(
    list: Seq<Offer>,
    input: Seq<char>,
    items: Seq<DirItem>,
    v: Verb,
    i: int,
)
    requires
        palette::palette_offers(list, input, items),
        palette::path_argument(input) is None,
        command_table::verbs().contains(v),
    ensures
        commands::completes(v, input) ==> list.contains(palette::command_offer(v)),
        0 <= i < list.len() ==> exists|u: Verb|
            commands::completes(u, input) && #[trigger] palette::command_offer(u) == list[i],
{
    broadcast use vstd::seq_lib::group_filter_ensures;

    let pred = |u: Verb| commands::completes(u, input);
    let all = command_table::verbs();
    let hits = all.filter(pred);
    assert(list == Seq::new(hits.len(), |i: int| palette::command_offer(hits[i])));
    if commands::completes(v, input) {
        assert(hits.contains(v));
        let j = choose|j: int| 0 <= j < hits.len() && hits[j] == v;
        assert(list[j] == palette::command_offer(v));
    }
    if 0 <= i < list.len() {
        assert(pred(hits[i]));
        assert(palette::command_offer(hits[i]) == list[i]);
    }
}

} // verus!
