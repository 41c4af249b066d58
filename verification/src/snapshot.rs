//! What a scan builds of a directory tree that nobody changes and nobody
//! cancels: the tree that the listings describe, node for node.

use vstd::prelude::*;
use crate::entry::{first_failure, listed_files, listed_subdirectories, EntryView, PendingView};
use crate::scan::{
    lemma_run_well_formed, proceed, unwind, EventView, FrameView, ScannerView, Waiting,
};
use crate::tree::{
    directories_total, files_total, lemma_directories_total_bounds,
    lemma_directories_total_push, lemma_files_total_bounds, lemma_saturated_add, saturated,
    DirectoryView, ReadError,
};

verus! {

/// A directory as it lies on disk: what listing it gives, and each of the
/// subdirectories that a scan of it enters, in the order in which it enters
/// them.
pub struct Snapshot {
    pub listing: Result<Seq<EntryView>, std::io::ErrorKind>,
    pub subdirectories: Seq<Snapshot>,
}

impl Snapshot {
    /// The error with which the scan of this directory ends, if any: that
    /// of its listing, or that of the first entry that cannot be read.
    pub open spec fn failure(self) -> Option<std::io::ErrorKind> {
        match self.listing {
            Err(kind) => Some(kind),
            Ok(entries) => first_failure(entries),
        }
    }

    /// The files that a scan of this directory finds.
    pub open spec fn files(self) -> Seq<crate::tree::FileView> {
        match self.listing {
            Ok(entries) => if first_failure(entries).is_none() {
                listed_files(entries)
            } else {
                Seq::empty()
            },
            Err(_) => Seq::empty(),
        }
    }

    /// The subdirectories that a scan of this directory enters.
    pub open spec fn pending(self) -> Seq<PendingView> {
        match self.listing {
            Ok(entries) => if first_failure(entries).is_none() {
                listed_subdirectories(entries)
            } else {
                Seq::empty()
            },
            Err(_) => Seq::empty(),
        }
    }

    /// The snapshot holds one directory for each subdirectory that a scan
    /// enters, here and at every level beneath.
    pub open spec fn consistent(self) -> bool
        decreases self,
    {
        &&& self.subdirectories.len() == self.pending().len()
        &&& forall|i: int|
            0 <= i < self.subdirectories.len() ==> (#[trigger] self.subdirectories[i]).consistent()
    }

    /// The trees of the subdirectories, for a directory at `path`.
    pub open spec fn subtrees(self, path: Seq<char>) -> Seq<DirectoryView>
        decreases self, 0int,
    {
        Seq::new(
            self.subdirectories.len(),
            |i: int|
                if 0 <= i < self.subdirectories.len() {
                    self.subdirectories[i].tree(
                        self.pending()[i].name,
                        Some(path),
                        self.pending()[i].path,
                    )
                } else {
                    arbitrary()
                },
        )
    }

    /// The tree of this directory: its files and the trees of its
    /// subdirectories with the sum of their sizes, or nothing but the error
    /// where it cannot be read.
    pub open spec fn tree(
        self,
        name: Seq<char>,
        parent: Option<Seq<char>>,
        path: Seq<char>,
    ) -> DirectoryView
        decreases self, 1int,
    {
        match self.failure() {
            Some(kind) => DirectoryView {
                error: Some(ReadError::IOError(kind)),
                ..DirectoryView::blank(name, parent, path)
            },
            None => DirectoryView {
                name: name,
                size: saturated(
                    files_total(self.files()) + directories_total(self.subtrees(path)),
                ),
                directories: self.subtrees(path),
                files: self.files(),
                parent: parent,
                path: path,
                error: None,
            },
        }
    }

    /// What a scan of the first `count` subdirectories is answered.
    pub open spec fn answers_below(self, count: int) -> Seq<EventView>
        decreases self, 0int, count,
    {
        if 0 < count <= self.subdirectories.len() {
            self.answers_below(count - 1) + seq![EventView::Polled(false)]
                + self.subdirectories[count - 1].answers()
        } else {
            Seq::empty()
        }
    }

    /// What a scan of this directory is answered while the signal does not
    /// fire: that, the listing, and the answers for each subdirectory in turn.
    pub open spec fn answers(self) -> Seq<EventView>
        decreases self, 1int,
    {
        seq![EventView::Polled(false), EventView::Listed(self.listing)] + self.answers_below(
            self.subdirectories.len() as int,
        )
    }

    /// The frame of this directory once its first `count` subdirectories
    /// are scanned.
    pub open spec fn frame_after(
        self,
        name: Seq<char>,
        parent: Option<Seq<char>>,
        path: Seq<char>,
        count: int,
    ) -> FrameView {
        FrameView {
            name: name,
            path: path,
            parent: parent,
            size: saturated(
                files_total(self.files()) + directories_total(self.subtrees(path).take(count)),
            ),
            files: self.files(),
            directories: self.subtrees(path).take(count),
            pending: self.pending(),
            next: count as nat,
        }
    }
}

/// A scanner that is given one sequence of events after another is where it
/// is after the two in one.
pub proof fn lemma_run_concat(scanner: ScannerView, first: Seq<EventView>, second: Seq<EventView>)
    ensures
        scanner.run(first + second) == scanner.run(first).run(second),
    decreases second.len(),
{
    if second.len() == 0 {
        assert(first + second =~= first);
    } else {
        assert((first + second).drop_last() =~= first + second.drop_last());
        lemma_run_concat(scanner, first, second.drop_last());
    }
}

/// A scanner that is given one event is where the step on it leads.
pub proof fn lemma_run_one(scanner: ScannerView, event: EventView)
    ensures
        scanner.run(seq![event]) == scanner.step(event),
{
    assert(seq![event].drop_last() =~= Seq::<EventView>::empty());
    assert(scanner.run(Seq::<EventView>::empty()) == scanner);
}

/// The subdirectories of a directory that can be read are scanned one after
/// the other: with the answers for the first `count` of them the scan goes
/// on from the frame that holds their trees.
pub proof fn lemma_scan_of_subdirectories(
    snapshot: Snapshot,
    below: Seq<FrameView>,
    name: Seq<char>,
    parent: Option<Seq<char>>,
    path: Seq<char>,
    count: int,
)
    requires
        snapshot.consistent(),
        snapshot.failure().is_none(),
        0 <= count <= snapshot.subdirectories.len(),
    ensures
        proceed(below, snapshot.frame_after(name, parent, path, 0)).run(
            snapshot.answers_below(count),
        ) == proceed(below, snapshot.frame_after(name, parent, path, count)),
    decreases snapshot, 0int, count,
{
    let start = proceed(below, snapshot.frame_after(name, parent, path, 0));
    if count == 0 {
        assert(snapshot.answers_below(0) =~= Seq::<EventView>::empty());
    } else {
        let before = snapshot.frame_after(name, parent, path, count - 1);
        let after = snapshot.frame_after(name, parent, path, count);
        let child = snapshot.subdirectories[count - 1];
        let pending = snapshot.pending()[count - 1];
        let subtree = child.tree(pending.name, Some(path), pending.path);
        let trees = snapshot.subtrees(path);
        lemma_scan_of_subdirectories(snapshot, below, name, parent, path, count - 1);
        lemma_run_concat(
            start,
            snapshot.answers_below(count - 1) + seq![EventView::Polled(false)],
            child.answers(),
        );
        lemma_run_concat(start, snapshot.answers_below(count - 1), seq![EventView::Polled(false)]);
        lemma_run_one(proceed(below, before), EventView::Polled(false));
        assert(before.has_next());
        assert(before.child() == FrameView::fresh(pending.name, Some(path), pending.path));
        lemma_scan_of_snapshot(
            child,
            below.push(before.advanced()),
            pending.name,
            Some(path),
            pending.path,
        );
        assert(trees[count - 1] == subtree);
        assert(!subtree.cancelled());
        assert(below.push(before.advanced()).drop_last() =~= below);
        assert(trees.take(count) =~= trees.take(count - 1).push(subtree));
        lemma_files_total_bounds(snapshot.files());
        lemma_directories_total_bounds(trees.take(count - 1));
        lemma_directories_total_push(trees.take(count - 1), subtree);
        lemma_saturated_add(
            files_total(snapshot.files()) + directories_total(trees.take(count - 1)),
            subtree.size,
        );
        assert(before.advanced().absorbed(subtree) == after);
    }
}

/// A scan of a directory that nobody changes, while the signal does not
/// fire, ends with the tree of that directory and hands it to the frames
/// that await it.
pub proof fn lemma_scan_of_snapshot(
    snapshot: Snapshot,
    below: Seq<FrameView>,
    name: Seq<char>,
    parent: Option<Seq<char>>,
    path: Seq<char>,
)
    requires
        snapshot.consistent(),
    ensures
        (ScannerView::Running {
            below: below,
            current: FrameView::fresh(name, parent, path),
            waiting: Waiting::Start,
        }).run(snapshot.answers()) == unwind(below, snapshot.tree(name, parent, path)),
    decreases snapshot, 1int,
{
    let start = ScannerView::Running {
        below: below,
        current: FrameView::fresh(name, parent, path),
        waiting: Waiting::Start,
    };
    let polled = EventView::Polled(false);
    let listed = EventView::Listed(snapshot.listing);
    let count = snapshot.subdirectories.len() as int;
    lemma_run_concat(start, seq![polled, listed], snapshot.answers_below(count));
    assert(seq![polled, listed] =~= seq![polled] + seq![listed]);
    lemma_run_concat(start, seq![polled], seq![listed]);
    lemma_run_one(start, polled);
    lemma_run_one(start.step(polled), listed);
    match snapshot.failure() {
        Some(kind) => {
            assert(snapshot.answers_below(count) =~= Seq::<EventView>::empty());
        },
        None => {
            let entries = snapshot.listing.unwrap();
            let filled = FrameView::fresh(name, parent, path).filled(entries);
            assert(snapshot.subtrees(path).take(0) =~= Seq::<DirectoryView>::empty());
            assert(filled == snapshot.frame_after(name, parent, path, 0));
            lemma_scan_of_subdirectories(snapshot, below, name, parent, path, count);
            let last = snapshot.frame_after(name, parent, path, count);
            assert(snapshot.subtrees(path).take(count) =~= snapshot.subtrees(path));
            assert(!last.has_next());
            assert(last.closed(None) == snapshot.tree(name, parent, path));
        },
    }
}

/// A scan of a tree that nobody changes, while the signal does not fire,
/// builds exactly the tree that the listings describe. That tree is well
/// formed: at every node the size is the sum of the sizes of the files and
/// subdirectories, and a directory that cannot be read is an empty node
/// with the error under a parent that reports none.
pub proof fn lemma_quiet_scan_builds_the_tree(snapshot: Snapshot, name: Seq<char>, path: Seq<char>)
    requires
        snapshot.consistent(),
    ensures
        ScannerView::initial(name, path).run(snapshot.answers()) == (ScannerView::Finished {
            root: snapshot.tree(name, None, path),
        }),
        snapshot.tree(name, None, path).well_formed(),
        snapshot.tree(name, None, path).never_cancelled(),
{
    lemma_scan_of_snapshot(snapshot, Seq::empty(), name, None, path);
    lemma_run_well_formed(name, path, snapshot.answers());
    lemma_tree_never_cancelled(snapshot, name, None, path);
}

/// The tree of a snapshot holds no cancelled node.
pub proof fn lemma_tree_never_cancelled(
    snapshot: Snapshot,
    name: Seq<char>,
    parent: Option<Seq<char>>,
    path: Seq<char>,
)
    requires
        snapshot.consistent(),
    ensures
        snapshot.tree(name, parent, path).never_cancelled(),
    decreases snapshot,
{
    let tree = snapshot.tree(name, parent, path);
    assert forall|i: int| 0 <= i < tree.directories.len() implies (
    #[trigger] tree.directories[i]).never_cancelled() by {
        lemma_tree_never_cancelled(
            snapshot.subdirectories[i],
            snapshot.pending()[i].name,
            Some(path),
            snapshot.pending()[i].path,
        );
    }
}

} // verus!
