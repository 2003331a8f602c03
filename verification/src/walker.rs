//! The walk over a directory tree that finds its Markdown files.
//!
//! The walk itself reads nothing. It says which directory it wants listed
//! next; whoever drives it reads that directory and hands the listing back, or
//! reports that reading failed.

use crate::paths::{file_name_of, is_markdown_file, is_markdown_name};
use crate::text::texts;
use vstd::prelude::*;

verus! {

/// One entry of a directory listing.
#[derive(Debug)]
pub struct DirEntry {
    /// The path of the entry, the directory's own path included.
    pub path: String,
    /// Whether the entry is a directory.
    pub is_dir: bool,
}

/// An entry as plain values.
pub struct EntryView {
    pub path: Seq<char>,
    pub is_dir: bool,
}

impl View for DirEntry {
    type V = EntryView;

    open spec fn view(&self) -> EntryView {
        EntryView { path: self.path@, is_dir: self.is_dir }
    }
}

/// What the driver of a walk reports about the directory that was wanted.
#[derive(Debug)]
pub enum WalkEvent {
    /// The entries of the directory, in the order in which they were read.
    Listing(Vec<DirEntry>),
    /// The directory, or one of its entries, could not be read.
    ReadFailed,
}

/// An event as plain values.
pub enum EventView {
    Listing(Seq<EntryView>),
    ReadFailed,
}

/// The state of a walk.
#[derive(Debug)]
pub enum Walk {
    /// The walk waits for the listing of `dir`.
    Reading {
        /// The directory to list next.
        dir: String,
        /// The entries that were listed and not yet looked at. The one to look
        /// at next is the last.
        stack: Vec<DirEntry>,
        /// The Markdown files found so far.
        found: Vec<String>,
    },
    /// Every directory was listed: these are the Markdown files.
    Done { found: Vec<String> },
    /// Reading `dir` failed, and with it the walk: it gives no files.
    Failed { dir: String },
}

/// The state of a walk as plain values.
pub enum WalkView {
    /// `rest` holds the entries not yet looked at, the next one first.
    Reading { dir: Seq<char>, rest: Seq<EntryView>, found: Seq<Seq<char>> },
    Done { found: Seq<Seq<char>> },
    Failed { dir: Seq<char> },
}

/// The entries of a listing as plain values.
pub open spec fn entry_views(entries: Seq<DirEntry>) -> Seq<EntryView> {
    Seq::new(entries.len(), |i: int| entries[i]@)
}

impl View for WalkEvent {
    type V = EventView;

    open spec fn view(&self) -> EventView {
        match self {
            WalkEvent::Listing(entries) => EventView::Listing(entry_views(entries@)),
            WalkEvent::ReadFailed => EventView::ReadFailed,
        }
    }
}

impl View for Walk {
    type V = WalkView;

    open spec fn view(&self) -> WalkView {
        match self {
            Walk::Reading { dir, stack, found } => WalkView::Reading {
                dir: dir@,
                rest: entry_views(stack@.reverse()),
                found: texts(found@),
            },
            Walk::Done { found } => WalkView::Done { found: texts(found@) },
            Walk::Failed { dir } => WalkView::Failed { dir: dir@ },
        }
    }
}

/// The walk at its start: it wants `root` listed and has found nothing.
pub open spec fn started(root: Seq<char>) -> WalkView {
    WalkView::Reading { dir: root, rest: Seq::empty(), found: Seq::empty() }
}

/// The state reached by looking at the entries of `rest` in turn, up to the
/// first directory: a file with a Markdown file's name is found, any other file
/// is passed over, and a directory is what the walk wants listed next. With no
/// directory left the walk is done.
pub open spec fn advanced(rest: Seq<EntryView>, found: Seq<Seq<char>>) -> WalkView
    decreases rest.len(),
{
    if rest.len() == 0 {
        WalkView::Done { found }
    } else if rest[0].is_dir {
        WalkView::Reading { dir: rest[0].path, rest: rest.drop_first(), found }
    } else if is_markdown_name(file_name_of(rest[0].path)) {
        advanced(rest.drop_first(), found.push(rest[0].path))
    } else {
        advanced(rest.drop_first(), found)
    }
}

/// The state that follows `walk` on `event`. The entries of a listing are
/// looked at before all that were left, which makes the walk depth-first. A
/// failed read fails the walk. A walk that is done or has failed stays as it
/// is.
pub open spec fn step_of(walk: WalkView, event: EventView) -> WalkView {
    match walk {
        WalkView::Reading { dir, rest, found } => match event {
            EventView::Listing(entries) => advanced(entries + rest, found),
            EventView::ReadFailed => WalkView::Failed { dir },
        },
        _ => walk,
    }
}

/// Puts the entries of a listing on the stack, the first of them on top.
fn push_listing(stack: Vec<DirEntry>, entries: Vec<DirEntry>) -> (pushed: Vec<DirEntry>)
    ensures
        entry_views(pushed@.reverse()) == entry_views(entries@) + entry_views(stack@.reverse()),
{
    let mut pushed = stack;
    let mut listed = entries;
    while listed.len() > 0
        invariant
            entry_views(listed@) + entry_views(pushed@.reverse()) == entry_views(entries@)
                + entry_views(stack@.reverse()),
        decreases listed.len(),
    {
        let entry = listed.pop().unwrap();
        pushed.push(entry);
    }
    pushed
}

/// Looks at the entries on the stack up to the first directory.
fn advance(stack: Vec<DirEntry>, found: Vec<String>) -> (walk: Walk)
    ensures
        walk@ == advanced(entry_views(stack@.reverse()), texts(found@)),
{
    let mut pending = stack;
    let mut files = found;
    while pending.len() > 0
        invariant
            advanced(entry_views(pending@.reverse()), texts(files@)) == advanced(
                entry_views(stack@.reverse()),
                texts(found@),
            ),
        decreases pending.len(),
    {
        let ghost rest = entry_views(pending@.reverse());
        let ghost so_far = texts(files@);
        let entry = pending.pop().unwrap();
        assert(rest.drop_first() == entry_views(pending@.reverse()));
        let DirEntry { path, is_dir } = entry;
        if is_dir {
            return Walk::Reading { dir: path, stack: pending, found: files };
        }
        if is_markdown_file(path.as_str()) {
            files.push(path);
            assert(texts(files@) == so_far.push(path@));
        }
    }
    Walk::Done { found: files }
}

impl Walk {
    /// The walk over the tree under `root`, at its start.
    pub fn start(root: &str) -> (walk: Walk)
        ensures
            walk@ == started(root@),
    {
        let stack: Vec<DirEntry> = Vec::new();
        let found: Vec<String> = Vec::new();
        assert(entry_views(stack@.reverse()) == Seq::<EntryView>::empty());
        assert(texts(found@) == Seq::<Seq<char>>::empty());
        Walk::Reading { dir: String::from_str(root), stack, found }
    }

    /// The state that follows on `event`, which reports on the directory that
    /// the walk wanted listed.
    pub fn step(self, event: WalkEvent) -> (next: Walk)
        ensures
            next@ == step_of(self@, event@),
    {
        match self {
            Walk::Reading { dir, stack, found } => match event {
                WalkEvent::Listing(entries) => {
                    let stack = push_listing(stack, entries);
                    advance(stack, found)
                },
                WalkEvent::ReadFailed => Walk::Failed { dir },
            },
            Walk::Done { found } => Walk::Done { found },
            Walk::Failed { dir } => Walk::Failed { dir },
        }
    }
}

/// A file or a directory with all that lies under it, as the listings of a
/// walk show it. It is a model to state what a walk finds, not a value that
/// the program holds.
pub enum Tree {
    File { path: Seq<char> },
    Dir { path: Seq<char>, children: Seq<Tree> },
}

impl Tree {
    /// The entry that a listing shows for this file or directory.
    pub open spec fn entry(self) -> EntryView {
        match self {
            Tree::File { path } => EntryView { path, is_dir: false },
            Tree::Dir { path, .. } => EntryView { path, is_dir: true },
        }
    }

    /// What a directory holds; a file holds nothing.
    pub open spec fn children(self) -> Seq<Tree> {
        match self {
            Tree::File { .. } => Seq::empty(),
            Tree::Dir { children, .. } => children,
        }
    }
}

/// The listing that shows `nodes`.
pub open spec fn listing_of(nodes: Seq<Tree>) -> Seq<EntryView> {
    Seq::new(nodes.len(), |i: int| nodes[i].entry())
}

/// The Markdown files among `nodes` and under them, in the order of the
/// listings, the files under a directory where the directory stands.
pub open spec fn markdown_files(nodes: Seq<Tree>) -> Seq<Seq<char>>
    decreases nodes,
{
    if nodes.len() == 0 {
        Seq::empty()
    } else {
        let after = markdown_files(nodes.drop_first());
        match nodes[0] {
            Tree::File { path } => if is_markdown_name(file_name_of(path)) {
                seq![path] + after
            } else {
                after
            },
            Tree::Dir { children, .. } => markdown_files(children) + after,
        }
    }
}

/// The number of files with a Markdown file's name among `nodes` and under
/// them.
pub open spec fn markdown_count(nodes: Seq<Tree>) -> nat
    decreases nodes,
{
    if nodes.len() == 0 {
        0
    } else {
        let after = markdown_count(nodes.drop_first());
        match nodes[0] {
            Tree::File { path } => if is_markdown_name(file_name_of(path)) {
                1 + after
            } else {
                after
            },
            Tree::Dir { children, .. } => markdown_count(children) + after,
        }
    }
}

/// The number of files and directories among `nodes` and under them.
pub open spec fn size(nodes: Seq<Tree>) -> nat
    decreases nodes,
{
    if nodes.len() == 0 {
        0
    } else {
        match nodes[0] {
            Tree::File { .. } => 1 + size(nodes.drop_first()),
            Tree::Dir { children, .. } => 1 + size(children) + size(nodes.drop_first()),
        }
    }
}

/// Where the first directory stands among `nodes`; their number where all are
/// files.
pub open spec fn first_dir(nodes: Seq<Tree>) -> int
    decreases nodes.len(),
{
    if nodes.len() == 0 || nodes[0] is Dir {
        0
    } else {
        1 + first_dir(nodes.drop_first())
    }
}

/// The state in which a walk ends that stands in `walk`, where the directory
/// that it wants listed holds `listing` and the entries it has left show
/// `pending`, and where every directory is listed as the trees have it: the walk
/// is given the listing, and as long as it wants another directory listed,
/// which is one of the trees, it is given that one.
pub open spec fn driven(walk: WalkView, listing: Seq<Tree>, pending: Seq<Tree>) -> WalkView
    decreases size(listing + pending),
{
    let next = step_of(walk, EventView::Listing(listing_of(listing)));
    let all = listing + pending;
    match next {
        WalkView::Reading { rest, .. } => {
            let at = all.len() - rest.len() - 1;
            if 0 <= at < all.len() {
                proof {
                    lemma_size_at(all, at);
                }
                driven(next, all[at].children(), all.subrange(at + 1, all.len() as int))
            } else {
                next
            }
        },
        _ => next,
    }
}

/// The size of two lists of trees is the sum of their sizes.
pub proof fn lemma_size_sum(a: Seq<Tree>, b: Seq<Tree>)
    ensures
        size(a + b) == size(a) + size(b),
    decreases a.len(),
{
    if a.len() > 0 {
        assert((a + b).drop_first() == a.drop_first() + b);
        lemma_size_sum(a.drop_first(), b);
    }
}

/// A tree and what follows it are smaller than the list they stand in, by one
/// at least, once the tree is replaced by what it holds.
pub proof fn lemma_size_at(all: Seq<Tree>, at: int)
    requires
        0 <= at < all.len(),
    ensures
        size(all[at].children() + all.subrange(at + 1, all.len() as int)) < size(all),
{
    let before = all.subrange(0, at);
    let from = all.subrange(at, all.len() as int);
    let after = all.subrange(at + 1, all.len() as int);
    assert(all == before + from);
    assert(from.drop_first() == after);
    lemma_size_sum(before, from);
    lemma_size_sum(all[at].children(), after);
}

/// The Markdown files of two lists of trees are those of the first, then
/// those of the second.
pub proof fn lemma_markdown_files_sum(a: Seq<Tree>, b: Seq<Tree>)
    ensures
        markdown_files(a + b) == markdown_files(a) + markdown_files(b),
    decreases a.len(),
{
    if a.len() > 0 {
        assert((a + b).drop_first() == a.drop_first() + b);
        lemma_markdown_files_sum(a.drop_first(), b);
    }
}

/// There are as many paths among the Markdown files of a list of trees as
/// the trees hold files with a Markdown file's name.
pub proof fn lemma_markdown_files_count(nodes: Seq<Tree>)
    ensures
        markdown_files(nodes).len() == markdown_count(nodes),
    decreases nodes,
{
    if nodes.len() > 0 {
        lemma_markdown_files_count(nodes.drop_first());
        match nodes[0] {
            Tree::File { .. } => {},
            Tree::Dir { children, .. } => {
                lemma_markdown_files_count(children);
            },
        }
    }
}

/// Every path among the Markdown files of a list of trees has a Markdown
/// file's name.
pub proof fn lemma_markdown_files_have_markdown_names(nodes: Seq<Tree>)
    ensures
        forall|i: int|
            0 <= i < markdown_files(nodes).len() ==> is_markdown_name(
                file_name_of(#[trigger] markdown_files(nodes)[i]),
            ),
    decreases nodes,
{
    if nodes.len() > 0 {
        let files = markdown_files(nodes);
        let inside = markdown_files(nodes[0].children());
        let after = markdown_files(nodes.drop_first());
        lemma_markdown_files_have_markdown_names(nodes.drop_first());
        match nodes[0] {
            Tree::File { .. } => {},
            Tree::Dir { children, .. } => {
                lemma_markdown_files_have_markdown_names(children);
            },
        }
        assert forall|i: int| 0 <= i < files.len() implies is_markdown_name(
            file_name_of(#[trigger] files[i]),
        ) by {
            if nodes[0] is Dir {
                if i < inside.len() {
                    assert(files[i] == inside[i]);
                } else {
                    assert(files[i] == after[i - inside.len()]);
                }
            } else if files.len() > after.len() && i > 0 {
                assert(files[i] == after[i - 1]);
            }
        }
    }
}

/// Looking at the entries that show `nodes` goes up to the first directory
/// and finds the Markdown files before it.
pub proof fn lemma_advanced_over(nodes: Seq<Tree>, found: Seq<Seq<char>>)
    ensures
        0 <= first_dir(nodes) <= nodes.len(),
        first_dir(nodes) == nodes.len() ==> advanced(listing_of(nodes), found)
            == (WalkView::Done { found: found + markdown_files(nodes) }),
        first_dir(nodes) < nodes.len() ==> nodes[first_dir(nodes)] is Dir,
        first_dir(nodes) < nodes.len() ==> advanced(listing_of(nodes), found)
            == (WalkView::Reading {
            dir: nodes[first_dir(nodes)].entry().path,
            rest: listing_of(nodes.subrange(first_dir(nodes) + 1, nodes.len() as int)),
            found: found + markdown_files(nodes.subrange(0, first_dir(nodes))),
        }),
    decreases nodes.len(),
{
    let listing = listing_of(nodes);
    if nodes.len() == 0 {
    } else if nodes[0] is Dir {
        assert(listing.drop_first() == listing_of(nodes.subrange(1, nodes.len() as int)));
    } else {
        let tail = nodes.drop_first();
        let at = first_dir(tail);
        let path = nodes[0].entry().path;
        let with_first = if is_markdown_name(file_name_of(path)) {
            found.push(path)
        } else {
            found
        };
        assert(listing.drop_first() == listing_of(tail));
        lemma_advanced_over(tail, with_first);
        let before = nodes.subrange(0, at + 1);
        assert(before.drop_first() == tail.subrange(0, at));
        assert(found + markdown_files(before) == with_first + markdown_files(
            tail.subrange(0, at),
        ));
        if at == tail.len() {
            assert(before == nodes);
        } else {
            assert(tail.subrange(at + 1, tail.len() as int) == nodes.subrange(
                at + 2,
                nodes.len() as int,
            ));
        }
    }
}

/// A walk that has found `found`, wants a directory listed that holds
/// `listing` and has left the entries that show `pending` ends with all the
/// Markdown files of `listing` and `pending` added to `found`.
pub proof fn lemma_driven_finds_all(
    dir: Seq<char>,
    found: Seq<Seq<char>>,
    listing: Seq<Tree>,
    pending: Seq<Tree>,
)
    ensures
        driven(WalkView::Reading { dir, rest: listing_of(pending), found }, listing, pending)
            == (WalkView::Done { found: found + markdown_files(listing + pending) }),
    decreases size(listing + pending),
{
    let all = listing + pending;
    let at = first_dir(all);
    assert(listing_of(listing) + listing_of(pending) == listing_of(all));
    lemma_advanced_over(all, found);
    if at < all.len() {
        let before = all.subrange(0, at);
        let from = all.subrange(at, all.len() as int);
        let after = all.subrange(at + 1, all.len() as int);
        let inside = all[at].children();
        let so_far = found + markdown_files(before);
        lemma_size_at(all, at);
        lemma_driven_finds_all(all[at].entry().path, so_far, inside, after);
        assert(all == before + from);
        assert(from.drop_first() == after);
        lemma_markdown_files_sum(before, from);
        lemma_markdown_files_sum(inside, after);
        assert(so_far + markdown_files(inside + after) == found + markdown_files(all));
    }
}

/// A walk from its start, driven over a directory that holds `listing`, ends
/// done, and has found the Markdown files under the directory: all of them,
/// each once, and no other file.
pub proof fn lemma_walk_finds_the_markdown_files(root: Seq<char>, listing: Seq<Tree>)
    ensures
        driven(started(root), listing, Seq::empty()) == (WalkView::Done {
            found: markdown_files(listing),
        }),
{
    lemma_driven_finds_all(root, Seq::empty(), listing, Seq::empty());
}

} // verus!
