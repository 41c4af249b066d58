//! The scan of a directory tree, as a machine that decides and never reads.
//!
//! A `Scanner` asks for one thing at a time, by an `Action`: to poll the
//! cancellation signal, or to list one directory. Its caller does that and
//! hands the answer back as an `Event`. From the answers the scanner builds
//! the tree depth first, one `Frame` for each directory that is open.

use vstd::prelude::*;
use std::sync::mpsc::Receiver;
use crate::entry::{
    classified_views, classify_entries, collect_files, collect_subdirectories,
    distinct_pending_names, entry_views, first_failure, lemma_listed_files_distinct,
    lemma_listed_subdirectories_distinct, listed_files, listed_subdirectories, pending_views,
    EntriesWithMetadata, Entry, EntryView, Pending, PendingView,
};
use crate::tree::{
    directories_total, directory_views, distinct_file_names, file_views, files_size,
    files_total, lemma_directories_total_bounds, lemma_directories_total_push,
    lemma_files_total_bounds, lemma_saturated_add, optional_view, saturated,
    update_size_with_directory, Directory, DirectoryView, File, FileView, ReadError,
};

verus! {

/// What a scanner that is not finished waits for.
#[derive(Debug, Clone, Copy, PartialEq, Eq)]
pub enum Waiting {
    /// The poll of the signal before the current directory is listed.
    Start,
    /// The listing of the current directory.
    Listing,
    /// The poll of the signal before the next subdirectory is entered.
    Recursing,
}

/// What a `Frame` stands for.
pub struct FrameView {
    pub name: Seq<char>,
    pub path: Seq<char>,
    pub parent: Option<Seq<char>>,
    pub size: u64,
    pub files: Seq<FileView>,
    pub directories: Seq<DirectoryView>,
    pub pending: Seq<PendingView>,
    pub next: nat,
}

impl FrameView {
    /// The frame of a directory of which nothing is known yet.
    pub open spec fn fresh(name: Seq<char>, parent: Option<Seq<char>>, path: Seq<char>) -> Self {
        FrameView {
            name: name,
            path: path,
            parent: parent,
            size: 0,
            files: Seq::empty(),
            directories: Seq::empty(),
            pending: Seq::empty(),
            next: 0,
        }
    }

    /// The frame once the directory's entries are known: its files, the
    /// subdirectories to scan, and the size of the files.
    pub open spec fn filled(self, entries: Seq<EntryView>) -> Self {
        FrameView {
            size: saturated(files_total(listed_files(entries))),
            files: listed_files(entries),
            pending: listed_subdirectories(entries),
            ..self
        }
    }

    /// The frame once the scan of one more subdirectory has ended with `child`.
    pub open spec fn absorbed(self, child: DirectoryView) -> Self {
        FrameView {
            size: saturated(self.size + child.size),
            directories: self.directories.push(child),
            ..self
        }
    }

    /// The frame once the next subdirectory has been entered.
    pub open spec fn advanced(self) -> Self {
        FrameView { next: self.next + 1, ..self }
    }

    /// The frame of the next subdirectory.
    pub open spec fn child(self) -> Self {
        FrameView::fresh(
            self.pending[self.next as int].name,
            Some(self.path),
            self.pending[self.next as int].path,
        )
    }

    /// Whether a subdirectory is left to scan.
    pub open spec fn has_next(self) -> bool {
        self.next < self.pending.len()
    }

    /// The node that the frame becomes when its scan ends with `error`.
    pub open spec fn closed(self, error: Option<ReadError>) -> DirectoryView {
        DirectoryView {
            name: self.name,
            size: self.size,
            directories: self.directories,
            files: self.files,
            parent: self.parent,
            path: self.path,
            error: error,
        }
    }
}

/// What an `Event` stands for.
pub enum EventView {
    Polled(bool),
    Listed(Result<Seq<EntryView>, std::io::ErrorKind>),
}

/// What an `Action` stands for.
pub enum ActionView {
    Poll,
    List(Seq<char>),
    Done,
}

/// What a `Scanner` stands for: the frames of the directories that are open,
/// outermost first, and what the scanner waits for; or the finished tree.
pub enum ScannerView {
    Running { below: Seq<FrameView>, current: FrameView, waiting: Waiting },
    Finished { root: DirectoryView },
}

/// The scan of one directory has ended with `node`. The directory above takes
/// it in. A cancelled node ends the scan of the directory above as cancelled
/// too, and so on up to the root. After any other node the directory above
/// goes on with its next subdirectory, or ends in turn where none is left.
pub open spec fn unwind(below: Seq<FrameView>, node: DirectoryView) -> ScannerView
    decreases below.len(),
{
    if below.len() == 0 {
        ScannerView::Finished { root: node }
    } else {
        let parent = below.last().absorbed(node);
        if node.cancelled() {
            unwind(below.drop_last(), parent.closed(Some(ReadError::OperationCancelled)))
        } else if parent.has_next() {
            ScannerView::Running {
                below: below.drop_last(),
                current: parent,
                waiting: Waiting::Recursing,
            }
        } else {
            unwind(below.drop_last(), parent.closed(None))
        }
    }
}

/// The scan goes on with `frame`: with its next subdirectory if there is one,
/// and with the directory above it otherwise.
pub open spec fn proceed(below: Seq<FrameView>, frame: FrameView) -> ScannerView {
    if frame.has_next() {
        ScannerView::Running { below: below, current: frame, waiting: Waiting::Recursing }
    } else {
        unwind(below, frame.closed(None))
    }
}

/// The scan after the listing of the directory of `current`. A directory
/// that cannot be listed, or that holds an entry whose metadata cannot be
/// read, ends with that error and holds nothing. Any other goes on with the
/// files and subdirectories that its entries give.
pub open spec fn listed(
    below: Seq<FrameView>,
    current: FrameView,
    listing: Result<Seq<EntryView>, std::io::ErrorKind>,
) -> ScannerView {
    match listing {
        Err(kind) => unwind(below, current.closed(Some(ReadError::IOError(kind)))),
        Ok(entries) => match first_failure(entries) {
            Some(kind) => unwind(below, current.closed(Some(ReadError::IOError(kind)))),
            None => proceed(below, current.filled(entries)),
        },
    }
}

impl ScannerView {
    /// The scanner before anything was asked: the root is open and the first
    /// poll is awaited.
    pub open spec fn initial(name: Seq<char>, path: Seq<char>) -> Self {
        ScannerView::Running {
            below: Seq::empty(),
            current: FrameView::fresh(name, None, path),
            waiting: Waiting::Start,
        }
    }

    /// What the scanner asks its caller to do.
    pub open spec fn action(self) -> ActionView {
        match self {
            ScannerView::Running { waiting: Waiting::Listing, current, .. } => ActionView::List(
                current.path,
            ),
            ScannerView::Running { .. } => ActionView::Poll,
            ScannerView::Finished { .. } => ActionView::Done,
        }
    }

    /// The scanner after `event`. An event that was not asked for changes
    /// nothing.
    pub open spec fn step(self, event: EventView) -> Self {
        match self {
            ScannerView::Finished { .. } => self,
            ScannerView::Running { below, current, waiting } => match (waiting, event) {
                (Waiting::Start, EventView::Polled(signalled)) => if signalled {
                    unwind(below, current.closed(Some(ReadError::OperationCancelled)))
                } else {
                    ScannerView::Running { below, current, waiting: Waiting::Listing }
                },
                (Waiting::Listing, EventView::Listed(listing)) => listed(below, current, listing),
                (Waiting::Recursing, EventView::Polled(signalled)) => if signalled {
                    unwind(below, current.closed(Some(ReadError::OperationCancelled)))
                } else if current.has_next() {
                    ScannerView::Running {
                        below: below.push(current.advanced()),
                        current: current.child(),
                        waiting: Waiting::Start,
                    }
                } else {
                    unwind(below, current.closed(None))
                },
                _ => self,
            },
        }
    }

    /// The scanner after each of `events` in turn.
    pub open spec fn run(self, events: Seq<EventView>) -> Self
        decreases events.len(),
    {
        if events.len() == 0 {
            self
        } else {
            self.run(events.drop_last()).step(events.last())
        }
    }
}

impl FrameView {
    /// The size of the frame is the sum of what it holds, no name is
    /// repeated, and the subdirectories that were scanned are the first of
    /// those that the listing named, in its order, each of them well formed.
    pub open spec fn well_formed(self) -> bool {
        &&& self.size == saturated(files_total(self.files) + directories_total(self.directories))
        &&& distinct_file_names(self.files)
        &&& distinct_pending_names(self.pending)
        &&& self.next <= self.pending.len()
        &&& self.directories.len() <= self.next
        &&& forall|i: int|
            0 <= i < self.directories.len() ==> (#[trigger] self.directories[i]).name
                == self.pending[i].name
        &&& forall|i: int|
            0 <= i < self.directories.len() ==> (#[trigger] self.directories[i]).well_formed()
    }

    /// No subdirectory that was scanned reports a cancellation.
    pub open spec fn calm(self) -> bool {
        forall|i: int|
            0 <= i < self.directories.len() ==> !(#[trigger] self.directories[i]).cancelled()
    }

    /// Every subdirectory that was entered has been scanned.
    pub open spec fn settled(self) -> bool {
        self.directories.len() == self.next
    }

    /// The subdirectory called `name` was entered and its scan has not ended.
    pub open spec fn awaits(self, name: Seq<char>) -> bool {
        &&& self.directories.len() + 1 == self.next
        &&& self.pending[self.next - 1].name == name
    }
}

/// Each of the frames `below` is well formed and awaits the directory of the
/// frame above it; the innermost awaits the directory called `name`.
pub open spec fn stack_well_formed(below: Seq<FrameView>, name: Seq<char>) -> bool {
    forall|k: int|
        0 <= k < below.len() ==> {
            &&& (#[trigger] below[k]).well_formed()
            &&& below[k].calm()
            &&& below[k].awaits(
                if k + 1 < below.len() {
                    below[k + 1].name
                } else {
                    name
                },
            )
        }
}

impl ScannerView {
    /// Every frame is well formed, a directory that is not yet listed has a
    /// fresh frame, and a finished tree is well formed at every node.
    pub open spec fn well_formed(self) -> bool {
        match self {
            ScannerView::Finished { root } => root.well_formed(),
            ScannerView::Running { below, current, waiting } => {
                &&& current.well_formed()
                &&& current.calm()
                &&& current.settled()
                &&& stack_well_formed(below, current.name)
                &&& !(waiting is Recursing) ==> current == FrameView::fresh(
                    current.name,
                    current.parent,
                    current.path,
                )
            },
        }
    }
}

/// A fresh frame is well formed.
pub proof fn lemma_fresh_well_formed(name: Seq<char>, parent: Option<Seq<char>>, path: Seq<char>)
    ensures
        FrameView::fresh(name, parent, path).well_formed(),
        FrameView::fresh(name, parent, path).calm(),
        FrameView::fresh(name, parent, path).settled(),
{
}

/// A fresh frame that is filled from a listing is well formed.
pub proof fn lemma_filled_well_formed(frame: FrameView, entries: Seq<EntryView>)
    requires
        frame == FrameView::fresh(frame.name, frame.parent, frame.path),
    ensures
        frame.filled(entries).well_formed(),
        frame.filled(entries).calm(),
        frame.filled(entries).settled(),
{
    lemma_listed_files_distinct(entries);
    lemma_listed_subdirectories_distinct(entries);
}

/// The node that a well-formed frame becomes is well formed, where the error
/// is in its place: an error of the operating system on a frame that holds
/// nothing, and a cancelled subdirectory only as the last one under a
/// cancellation.
pub proof fn lemma_closed_well_formed(frame: FrameView, error: Option<ReadError>)
    requires
        frame.well_formed(),
        error matches Some(ReadError::IOError(_)) ==> frame.files.len() == 0
            && frame.directories.len() == 0,
        frame.calm() || (error == Some(ReadError::OperationCancelled) && forall|i: int|
            0 <= i < frame.directories.len() - 1 ==> !(
            #[trigger] frame.directories[i]).cancelled()),
    ensures
        frame.closed(error).well_formed(),
{
    let node = frame.closed(error);
    assert forall|i: int, j: int| 0 <= i < j < node.directories.len() implies (
    #[trigger] node.directories[i]).name != (#[trigger] node.directories[j]).name by {
        assert(frame.pending[i].name != frame.pending[j].name);
    }
}

/// A well-formed frame that takes in the node that it awaits is well formed
/// and settled. If it was calm, it stays so but for the node that it took in.
pub proof fn lemma_absorbed_well_formed(frame: FrameView, child: DirectoryView)
    requires
        frame.well_formed(),
        frame.calm(),
        frame.awaits(child.name),
        child.well_formed(),
    ensures
        frame.absorbed(child).well_formed(),
        frame.absorbed(child).settled(),
        !child.cancelled() ==> frame.absorbed(child).calm(),
        forall|i: int|
            0 <= i < frame.absorbed(child).directories.len() - 1 ==> !(
            #[trigger] frame.absorbed(child).directories[i]).cancelled(),
{
    assert forall|i: int| 0 <= i < frame.absorbed(child).directories.len() - 1 implies !(
    #[trigger] frame.absorbed(child).directories[i]).cancelled() by {
        assert(frame.absorbed(child).directories[i] == frame.directories[i]);
    }
    lemma_files_total_bounds(frame.files);
    lemma_directories_total_bounds(frame.directories);
    lemma_directories_total_push(frame.directories, child);
    lemma_saturated_add(
        files_total(frame.files) + directories_total(frame.directories),
        child.size,
    );
}

/// Handing a well-formed node to the frames that await it leaves the scanner
/// well formed.
pub proof fn lemma_unwind_well_formed(below: Seq<FrameView>, node: DirectoryView)
    requires
        node.well_formed(),
        stack_well_formed(below, node.name),
    ensures
        unwind(below, node).well_formed(),
    decreases below.len(),
{
    if below.len() > 0 {
        let parent = below.last().absorbed(node);
        let rest = below.drop_last();
        assert(below[below.len() - 1].well_formed());
        lemma_absorbed_well_formed(below.last(), node);
        assert forall|k: int| 0 <= k < rest.len() implies (#[trigger] rest[k]).well_formed()
            && rest[k].calm() && rest[k].awaits(
            if k + 1 < rest.len() {
                rest[k + 1].name
            } else {
                parent.name
            },
        ) by {
            assert(below[k].well_formed());
        }
        if node.cancelled() {
            lemma_closed_well_formed(parent, Some(ReadError::OperationCancelled));
            lemma_unwind_well_formed(rest, parent.closed(Some(ReadError::OperationCancelled)));
        } else if !parent.has_next() {
            lemma_closed_well_formed(parent, None);
            lemma_unwind_well_formed(rest, parent.closed(None));
        }
    }
}

/// Going on with a well-formed frame leaves the scanner well formed.
pub proof fn lemma_proceed_well_formed(below: Seq<FrameView>, frame: FrameView)
    requires
        frame.well_formed(),
        frame.calm(),
        frame.settled(),
        stack_well_formed(below, frame.name),
    ensures
        proceed(below, frame).well_formed(),
{
    if !frame.has_next() {
        lemma_closed_well_formed(frame, None);
        lemma_unwind_well_formed(below, frame.closed(None));
    }
}

/// A step leaves a well-formed scanner well formed.
pub proof fn lemma_step_well_formed(scanner: ScannerView, event: EventView)
    requires
        scanner.well_formed(),
    ensures
        scanner.step(event).well_formed(),
{
    match scanner {
        ScannerView::Finished { .. } => {},
        ScannerView::Running { below, current, waiting } => {
            lemma_closed_well_formed(current, None);
            lemma_closed_well_formed(current, Some(ReadError::OperationCancelled));
            lemma_unwind_well_formed(below, current.closed(None));
            lemma_unwind_well_formed(
                below,
                current.closed(Some(ReadError::OperationCancelled)),
            );
            match (waiting, event) {
                (Waiting::Listing, EventView::Listed(Err(kind))) => {
                    lemma_closed_well_formed(current, Some(ReadError::IOError(kind)));
                    lemma_unwind_well_formed(
                        below,
                        current.closed(Some(ReadError::IOError(kind))),
                    );
                },
                (Waiting::Listing, EventView::Listed(Ok(entries))) => {
                    match first_failure(entries) {
                        Some(kind) => {
                            lemma_closed_well_formed(current, Some(ReadError::IOError(kind)));
                            lemma_unwind_well_formed(
                                below,
                                current.closed(Some(ReadError::IOError(kind))),
                            );
                        },
                        None => {
                            lemma_filled_well_formed(current, entries);
                            lemma_proceed_well_formed(below, current.filled(entries));
                        },
                    }
                },
                (Waiting::Recursing, EventView::Polled(signalled)) => {
                    if !signalled && current.has_next() {
                        let stack = below.push(current.advanced());
                        let child = current.child();
                        lemma_fresh_well_formed(child.name, child.parent, child.path);
                        assert forall|k: int| 0 <= k < stack.len() implies (
                        #[trigger] stack[k]).well_formed() && stack[k].calm() && stack[k].awaits(
                            if k + 1 < stack.len() {
                                stack[k + 1].name
                            } else {
                                child.name
                            },
                        ) by {
                            if k < below.len() {
                                assert(below[k].well_formed());
                            }
                        }
                    }
                },
                _ => {},
            }
        },
    }
}

/// Whatever the events, a scan that starts at a root stays well formed: when
/// it has finished, the size of every node of its tree is the sum of the
/// sizes of the node's files and subdirectories.
pub proof fn lemma_run_well_formed(name: Seq<char>, path: Seq<char>, events: Seq<EventView>)
    ensures
        ScannerView::initial(name, path).run(events).well_formed(),
    decreases events.len(),
{
    if events.len() == 0 {
        lemma_fresh_well_formed(name, None, path);
    } else {
        lemma_run_well_formed(name, path, events.drop_last());
        lemma_step_well_formed(
            ScannerView::initial(name, path).run(events.drop_last()),
            events.last(),
        );
    }
}


/// What the caller reports back to the scanner.
#[derive(Debug)]
pub enum Event {
    /// The signal was polled: `true` where it had fired.
    Polled(bool),
    /// The directory was listed, or listing it failed.
    Listed(Result<Vec<Entry>, std::io::ErrorKind>),
}

impl View for Event {
    type V = EventView;

    open spec fn view(&self) -> EventView {
        match self {
            Event::Polled(signalled) => EventView::Polled(*signalled),
            Event::Listed(listing) => EventView::Listed(listing_view(*listing)),
        }
    }
}

/// What the scanner asks its caller to do next.
#[derive(Debug)]
pub enum Action {
    /// Poll the cancellation signal.
    Poll,
    /// List the directory at this path.
    List(String),
    /// Nothing: the tree is finished.
    Done,
}

impl View for Action {
    type V = ActionView;

    open spec fn view(&self) -> ActionView {
        match self {
            Action::Poll => ActionView::Poll,
            Action::List(path) => ActionView::List(path@),
            Action::Done => ActionView::Done,
        }
    }
}

/// A directory that is open: what is known of it so far.
#[derive(Debug)]
struct Frame {
    name: String,
    path: String,
    parent: Option<String>,
    size: u64,
    files: Vec<File>,
    directories: Vec<Directory>,
    pending: Vec<Pending>,
    next: usize,
}

impl View for Frame {
    type V = FrameView;

    closed spec fn view(&self) -> FrameView {
        FrameView {
            name: self.name@,
            path: self.path@,
            parent: optional_view(self.parent),
            size: self.size,
            files: file_views(self.files@),
            directories: directory_views(self.directories@),
            pending: pending_views(self.pending@),
            next: self.next as nat,
        }
    }
}

/// The models of a stack of frames, one for one.
spec fn frame_views(frames: Seq<Frame>) -> Seq<FrameView> {
    frames.map_values(|f: Frame| f@)
}

impl Frame {
    /// The frame of a directory of which nothing is known yet.
    fn fresh(name: String, parent: Option<String>, path: String) -> (frame: Frame)
        ensures
            frame@ == FrameView::fresh(name@, optional_view(parent), path@),
    {
        let frame = Frame {
            name: name,
            path: path,
            parent: parent,
            size: 0,
            files: Vec::new(),
            directories: Vec::new(),
            pending: Vec::new(),
            next: 0,
        };
        assert(frame@.files =~= Seq::empty());
        assert(frame@.directories =~= Seq::empty());
        assert(frame@.pending =~= Seq::empty());
        frame
    }

    /// Whether a subdirectory is left to scan.
    fn has_next(&self) -> (more: bool)
        ensures
            more == self@.has_next(),
    {
        self.next < self.pending.len()
    }

    /// The frame of the next subdirectory, and this frame moved past it.
    fn enter_next(self) -> (frames: (Frame, Frame))
        requires
            self@.has_next(),
        ensures
            frames.0@ == self@.advanced(),
            frames.1@ == self@.child(),
    {
        let pending = &self.pending[self.next];
        let child = Frame::fresh(
            pending.get_name().to_string(),
            Some(self.path.clone()),
            pending.get_path().to_string(),
        );
        let count = self.pending.len();
        assert(self.next < count);
        let advanced = Frame { next: self.next + 1, ..self };
        (advanced, child)
    }

    /// The frame with one more scanned subdirectory.
    fn absorb(self, child: Directory) -> (frame: Frame)
        ensures
            frame@ == self@.absorbed(child@),
    {
        let size = update_size_with_directory(self.size, &child);
        let mut directories = self.directories;
        directories.push(child);
        let frame = Frame { size: size, directories: directories, ..self };
        assert(frame@.directories =~= self@.directories.push(child@));
        frame
    }

    /// The node that the frame becomes when its scan ends with `error`.
    fn close(self, error: Option<ReadError>) -> (node: Directory)
        ensures
            node@ == self@.closed(error),
    {
        Directory::assemble(
            self.name,
            self.size,
            self.directories,
            self.files,
            self.parent,
            self.path,
            error,
        )
    }
}

/// Fills the frame of a directory from its classified entries: the files,
/// the subdirectories to scan, and the size of the files.
fn build_directory(frame: Frame, entries: &Vec<EntriesWithMetadata>) -> (filled: Frame)
    ensures
        filled@ == frame@.filled(classified_views(entries@)),
{
    let files = collect_files(entries);
    let pending = collect_subdirectories(entries);
    let size = files_size(&files);
    Frame { size: size, files: files, pending: pending, ..frame }
}

#[derive(Debug)]
enum State {
    Running { below: Vec<Frame>, current: Frame, waiting: Waiting },
    Finished { root: Directory },
}

/// A scan in progress, or its finished tree.
#[derive(Debug)]
pub struct Scanner {
    state: State,
}

impl View for Scanner {
    type V = ScannerView;

    closed spec fn view(&self) -> ScannerView {
        match self.state {
            State::Running { below, current, waiting } => ScannerView::Running {
                below: frame_views(below@),
                current: current@,
                waiting: waiting,
            },
            State::Finished { root } => ScannerView::Finished { root: root@ },
        }
    }
}

/// Whether `node` reports that the scan was cancelled.
fn is_cancelled(node: &Directory) -> (cancelled: bool)
    ensures
        cancelled == node@.cancelled(),
{
    match node.get_error() {
        Some(ReadError::OperationCancelled) => true,
        _ => false,
    }
}

/// Hands `node` to the frames that await it, innermost last.
fn unwind_frames(below: Vec<Frame>, node: Directory) -> (scanner: Scanner)
    ensures
        scanner@ == unwind(frame_views(below@), node@),
{
    let mut stack = below;
    let mut ended = node;
    loop
        invariant
            unwind(frame_views(stack@), ended@) == unwind(frame_views(below@), node@),
        decreases stack@.len(),
    {
        let ghost frames = frame_views(stack@);
        match stack.pop() {
            None => {
                return Scanner { state: State::Finished { root: ended } };
            },
            Some(frame) => {
                assert(frame_views(stack@) =~= frames.drop_last());
                assert(frame@ == frames.last());
                let cancelled = is_cancelled(&ended);
                let parent = frame.absorb(ended);
                if cancelled {
                    ended = parent.close(Some(ReadError::OperationCancelled));
                } else if parent.has_next() {
                    return Scanner {
                        state: State::Running {
                            below: stack,
                            current: parent,
                            waiting: Waiting::Recursing,
                        },
                    };
                } else {
                    ended = parent.close(None);
                }
            },
        }
    }
}

/// Goes on with `frame`: with its next subdirectory if there is one, and with
/// the directory above it otherwise.
fn proceed_with(below: Vec<Frame>, frame: Frame) -> (scanner: Scanner)
    ensures
        scanner@ == proceed(frame_views(below@), frame@),
{
    if frame.has_next() {
        Scanner {
            state: State::Running { below: below, current: frame, waiting: Waiting::Recursing },
        }
    } else {
        unwind_frames(below, frame.close(None))
    }
}

/// Ends the scan of the current directory with what its listing gave: with
/// the error of the first entry whose metadata could not be read, or with
/// its files and with its subdirectories to scan.
fn build_directories(below: Vec<Frame>, current: Frame, entries: &Vec<Entry>) -> (scanner: Scanner)
    ensures
        scanner@ == match first_failure(entry_views(entries@)) {
            Some(kind) => unwind(
                frame_views(below@),
                current@.closed(Some(ReadError::IOError(kind))),
            ),
            None => proceed(frame_views(below@), current@.filled(entry_views(entries@))),
        },
{
    match classify_entries(entries) {
        Err(kind) => unwind_frames(below, current.close(Some(ReadError::IOError(kind)))),
        Ok(checked) => proceed_with(below, build_directory(current, &checked)),
    }
}

/// The model of a listing.
pub open spec fn listing_view(listing: Result<Vec<Entry>, std::io::ErrorKind>) -> Result<
    Seq<EntryView>,
    std::io::ErrorKind,
> {
    match listing {
        Ok(entries) => Ok(entry_views(entries@)),
        Err(kind) => Err(kind),
    }
}

/// Ends the listing of the current directory: with the error where it could
/// not be listed, and with what its entries give where it could.
fn read_dir_impl(
    below: Vec<Frame>,
    current: Frame,
    listing: Result<Vec<Entry>, std::io::ErrorKind>,
) -> (scanner: Scanner)
    ensures
        scanner@ == listed(frame_views(below@), current@, listing_view(listing)),
{
    match listing {
        Ok(entries) => build_directories(below, current, &entries),
        Err(kind) => unwind_frames(below, current.close(Some(ReadError::IOError(kind)))),
    }
}

/// Calls `Path::file_name`: the last component of `path`, where it has one.
/// How a path falls into components depends on the platform, so nothing is
/// stated of the result.
#[verifier::external_body]
fn path_get_file_name(path: &str) -> (name: Option<String>) {
    match std::path::Path::new(path).file_name() {
        Some(name) => Some(name.to_string_lossy().into_owned()),
        None => None,
    }
}

/// A scan of the directory at `path`. In the tree the root goes by the last
/// component of `path`, and by the empty name where the path has none.
pub fn read_dir(path: &str) -> (scanner: Scanner)
    ensures
        scanner@ is Running,
        scanner@ == ScannerView::initial(scanner@->current.name, path@),
        scanner@.well_formed(),
{
    let root_name = match path_get_file_name(path) {
        Some(name) => name,
        None => String::new(),
    };
    Scanner::new(root_name.as_str(), path)
}

/// `std::sync::mpsc::Receiver`: the receiving end of a channel. The
/// cancellation signal is one whose sender sends a message to fire it.
#[verifier::external_type_specification]
#[verifier::external_body]
#[verifier::reject_recursive_types(T)]
pub struct ExReceiver<T>(Receiver<T>);

/// Calls `Receiver::try_recv`: whether a message had arrived. That depends
/// on what the sender has done, so nothing is stated of the result.
#[verifier::external_body]
fn signal_fired(cancel_checker: &Receiver<()>) -> (fired: bool) {
    cancel_checker.try_recv().is_ok()
}

/// The events of polls that found the signal as `polls` say.
pub open spec fn polled(polls: Seq<bool>) -> Seq<EventView> {
    polls.map_values(|fired: bool| EventView::Polled(fired))
}

impl ScannerView {
    /// A bound on the number of polls after which the scanner asks for
    /// something other than a poll.
    pub open spec fn polls_left(self) -> nat {
        match self {
            ScannerView::Running { waiting: Waiting::Start, .. } => 1,
            ScannerView::Running { waiting: Waiting::Recursing, current, .. } => if current.has_next() {
                2
            } else {
                3
            },
            _ => 0,
        }
    }
}

/// Handing a node to the frames that await it ends the scan, or leaves it
/// before a subdirectory that is still to be entered.
pub proof fn lemma_unwind_polls_left(below: Seq<FrameView>, node: DirectoryView)
    ensures
        unwind(below, node).polls_left() == 0 || unwind(below, node).polls_left() == 2,
    decreases below.len(),
{
    if below.len() > 0 {
        let parent = below.last().absorbed(node);
        if node.cancelled() {
            lemma_unwind_polls_left(
                below.drop_last(),
                parent.closed(Some(ReadError::OperationCancelled)),
            );
        } else if !parent.has_next() {
            lemma_unwind_polls_left(below.drop_last(), parent.closed(None));
        }
    }
}

/// Each poll that the scanner asked for brings it closer to asking for
/// something else.
pub proof fn lemma_poll_counts_down(scanner: ScannerView, fired: bool)
    requires
        scanner.action() == ActionView::Poll,
    ensures
        scanner.step(EventView::Polled(fired)).polls_left() < scanner.polls_left(),
{
    match scanner {
        ScannerView::Running { below, current, waiting } => {
            lemma_unwind_polls_left(below, current.closed(None));
            if fired {
                lemma_signal_ends_the_scan(scanner);
            }
        },
        ScannerView::Finished { .. } => {},
    }
}

impl Scanner {
    /// Polls the signal for as long as the scanner asks for a poll: once
    /// before a directory is listed, and once more before that where a
    /// subdirectory is entered. What comes back is the scanner after those
    /// polls, and what it asks for then: a listing, or nothing where the
    /// scan has ended.
    pub fn poll(self, cancel_checker: &Receiver<()>) -> (next: (Scanner, Action))
        ensures
            exists|polls: Seq<bool>|
                polls.len() <= self@.polls_left() && next.0@ == self@.run(polled(polls)),
            next.1@ == next.0@.action(),
            next.1@ != ActionView::Poll,
            self@.well_formed() ==> next.0@.well_formed(),
    {
        let ghost start = self@;
        let ghost mut polls: Seq<bool> = Seq::empty();
        let mut scanner = self;
        let mut action = scanner.action();
        assert(polled(polls) =~= Seq::<EventView>::empty());
        loop
            invariant
                start == self@,
                polls.len() + scanner@.polls_left() <= start.polls_left(),
                scanner@ == start.run(polled(polls)),
                action@ == scanner@.action(),
                start.well_formed() ==> scanner@.well_formed(),
            decreases scanner@.polls_left(),
        {
            match action {
                Action::Poll => {},
                _ => {
                    return (scanner, action);
                },
            }
            let fired = signal_fired(cancel_checker);
            proof {
                lemma_poll_counts_down(scanner@, fired);
                assert(polled(polls.push(fired)).drop_last() =~= polled(polls));
                assert(polled(polls.push(fired)).last() == EventView::Polled(fired));
                polls = polls.push(fired);
            }
            let (stepped, asked) = scanner.step(Event::Polled(fired));
            scanner = stepped;
            action = asked;
        }
    }
}

impl Scanner {
    /// A scan of the directory at `path`, which goes by `name` in the tree.
    /// It starts by asking for a poll of the signal.
    pub fn new(name: &str, path: &str) -> (scanner: Scanner)
        ensures
            scanner@ == ScannerView::initial(name@, path@),
            scanner@.well_formed(),
    {
        let current = Frame::fresh(name.to_string(), None, path.to_string());
        let scanner = Scanner {
            state: State::Running { below: Vec::new(), current: current, waiting: Waiting::Start },
        };
        assert(scanner@->below =~= Seq::empty());
        proof {
            lemma_fresh_well_formed(name@, None, path@);
        }
        scanner
    }

    /// What the scanner asks its caller to do.
    pub fn action(&self) -> (action: Action)
        ensures
            action@ == self@.action(),
    {
        match &self.state {
            State::Running { waiting: Waiting::Listing, current, .. } => Action::List(
                current.path.clone(),
            ),
            State::Running { .. } => Action::Poll,
            State::Finished { .. } => Action::Done,
        }
    }

    /// Whether the tree is finished.
    pub fn is_finished(&self) -> (finished: bool)
        ensures
            finished == (self@ is Finished),
    {
        match &self.state {
            State::Running { .. } => false,
            State::Finished { .. } => true,
        }
    }

    /// The scanner after `event`, and what it asks for next. An event that
    /// was not asked for changes nothing.
    pub fn step(self, event: Event) -> (next: (Scanner, Action))
        ensures
            next.0@ == self@.step(event@),
            next.1@ == next.0@.action(),
            self@.well_formed() ==> next.0@.well_formed(),
    {
        proof {
            if self@.well_formed() {
                lemma_step_well_formed(self@, event@);
            }
        }
        let scanner = match self.state {
            State::Finished { root } => Scanner { state: State::Finished { root: root } },
            State::Running { below, current, waiting } => match (waiting, event) {
                (Waiting::Start, Event::Polled(signalled)) => {
                    if signalled {
                        unwind_frames(below, current.close(Some(ReadError::OperationCancelled)))
                    } else {
                        Scanner {
                            state: State::Running {
                                below: below,
                                current: current,
                                waiting: Waiting::Listing,
                            },
                        }
                    }
                },
                (Waiting::Listing, Event::Listed(listing)) => read_dir_impl(
                    below,
                    current,
                    listing,
                ),
                (Waiting::Recursing, Event::Polled(signalled)) => {
                    if signalled {
                        unwind_frames(below, current.close(Some(ReadError::OperationCancelled)))
                    } else if current.has_next() {
                        let ghost frames = frame_views(below@);
                        let (advanced, child) = current.enter_next();
                        let mut below = below;
                        below.push(advanced);
                        assert(frame_views(below@) =~= frames.push(advanced@));
                        Scanner {
                            state: State::Running {
                                below: below,
                                current: child,
                                waiting: Waiting::Start,
                            },
                        }
                    } else {
                        unwind_frames(below, current.close(None))
                    }
                },
                (waiting, _) => Scanner {
                    state: State::Running { below: below, current: current, waiting: waiting },
                },
            },
        };
        let action = scanner.action();
        (scanner, action)
    }

    /// The finished tree, or nothing where the scan has not finished.
    pub fn finish(self) -> (tree: Option<Directory>)
        ensures
            match self@ {
                ScannerView::Finished { root } => tree.is_some() && tree.unwrap()@ == root,
                ScannerView::Running { .. } => tree.is_none(),
            },
            self@.well_formed() && tree.is_some() ==> tree.unwrap()@.well_formed(),
    {
        match self.state {
            State::Finished { root } => Some(root),
            State::Running { .. } => None,
        }
    }
}


/// A scan whose signal has fired before anything was listed ends at once:
/// the tree is the root alone, cancelled, of size 0, with no files and no
/// subdirectories.
pub proof fn lemma_cancelled_before_listing(name: Seq<char>, path: Seq<char>)
    ensures
        ScannerView::initial(name, path).step(EventView::Polled(true)) == (ScannerView::Finished {
            root: DirectoryView {
                error: Some(ReadError::OperationCancelled),
                ..DirectoryView::blank(name, None, path)
            },
        }),
{
}

/// A scan whose root cannot be listed ends at once: the tree is the root
/// alone, with the error of the listing, of size 0, with no files and no
/// subdirectories.
pub proof fn lemma_listing_failure(name: Seq<char>, path: Seq<char>, kind: std::io::ErrorKind)
    ensures
        ScannerView::initial(name, path).step(EventView::Polled(false)).step(
            EventView::Listed(Err(kind)),
        ) == (ScannerView::Finished {
            root: DirectoryView {
                error: Some(ReadError::IOError(kind)),
                ..DirectoryView::blank(name, None, path)
            },
        }),
{
}

/// A scan with one unreadable entry in the listing of its root ends at once,
/// as if the listing had failed with the error of the first such entry.
pub proof fn lemma_unreadable_entry_fails_listing(
    name: Seq<char>,
    path: Seq<char>,
    entries: Seq<EntryView>,
)
    requires
        first_failure(entries).is_some(),
    ensures
        ScannerView::initial(name, path).step(EventView::Polled(false)).step(
            EventView::Listed(Ok(entries)),
        ) == (ScannerView::Finished {
            root: DirectoryView {
                error: Some(ReadError::IOError(first_failure(entries).unwrap())),
                ..DirectoryView::blank(name, None, path)
            },
        }),
{
}

/// A subdirectory whose scan ended without a cancellation, be it with an
/// error of the operating system, is taken in by the directory above with
/// its size, and that directory goes on with the subdirectories that are
/// left.
pub proof fn lemma_subdirectory_is_absorbed(below: Seq<FrameView>, node: DirectoryView)
    requires
        below.len() > 0,
        !node.cancelled(),
    ensures
        unwind(below, node) == proceed(below.drop_last(), below.last().absorbed(node)),
        below.last().absorbed(node).directories.last() == node,
        below.last().absorbed(node).size == saturated(below.last().size + node.size),
{
}

/// A cancelled subdirectory is kept by the directory above, which ends as
/// cancelled in turn.
pub proof fn lemma_cancellation_unwinds(below: Seq<FrameView>, node: DirectoryView)
    requires
        below.len() > 0,
        node.cancelled(),
    ensures
        unwind(below, node) == unwind(
            below.drop_last(),
            below.last().absorbed(node).closed(Some(ReadError::OperationCancelled)),
        ),
        unwind(below, node) is Finished,
        unwind(below, node)->root.cancelled(),
    decreases below.len(),
{
    if below.len() > 1 {
        lemma_cancellation_unwinds(
            below.drop_last(),
            below.last().absorbed(node).closed(Some(ReadError::OperationCancelled)),
        );
    }
}

/// A scan that has finished stays as it is, whatever it is told: to fire
/// the signal once more changes nothing.
pub proof fn lemma_finished_scan_stays(scanner: ScannerView, event: EventView)
    requires
        scanner is Finished,
    ensures
        scanner.step(event) == scanner,
{
}

/// A poll that finds the signal fired ends the scan: whatever the scanner
/// has built, its tree is finished and its root is cancelled.
pub proof fn lemma_signal_ends_the_scan(scanner: ScannerView)
    requires
        scanner.action() == ActionView::Poll,
    ensures
        scanner.step(EventView::Polled(true)) is Finished,
        scanner.step(EventView::Polled(true))->root.cancelled(),
{
    match scanner {
        ScannerView::Running { below, current, waiting } => {
            let node = current.closed(Some(ReadError::OperationCancelled));
            if below.len() > 0 {
                lemma_cancellation_unwinds(below, node);
            }
        },
        ScannerView::Finished { .. } => {},
    }
}

impl FrameView {
    /// No subdirectory that was scanned holds a cancelled node.
    pub open spec fn never_cancelled(self) -> bool {
        forall|i: int|
            0 <= i < self.directories.len() ==> (#[trigger] self.directories[i]).never_cancelled()
    }
}

impl ScannerView {
    /// No node that was built so far reports a cancellation.
    pub open spec fn never_cancelled(self) -> bool {
        match self {
            ScannerView::Finished { root } => root.never_cancelled(),
            ScannerView::Running { below, current, .. } => {
                &&& current.never_cancelled()
                &&& forall|k: int| 0 <= k < below.len() ==> (#[trigger] below[k]).never_cancelled()
            },
        }
    }
}

/// No poll among `events` found the signal fired.
pub open spec fn quiet(events: Seq<EventView>) -> bool {
    forall|i: int| 0 <= i < events.len() ==> #[trigger] events[i] != EventView::Polled(true)
}

/// Handing a node without cancellations to frames without cancellations
/// leaves the scanner without cancellations.
pub proof fn lemma_unwind_never_cancelled(below: Seq<FrameView>, node: DirectoryView)
    requires
        node.never_cancelled(),
        forall|k: int| 0 <= k < below.len() ==> (#[trigger] below[k]).never_cancelled(),
    ensures
        unwind(below, node).never_cancelled(),
    decreases below.len(),
{
    if below.len() > 0 {
        let parent = below.last().absorbed(node);
        let rest = below.drop_last();
        assert(below[below.len() - 1].never_cancelled());
        assert forall|i: int| 0 <= i < parent.directories.len() implies (
        #[trigger] parent.directories[i]).never_cancelled() by {
            if i < below.last().directories.len() {
                assert(parent.directories[i] == below.last().directories[i]);
            }
        }
        assert forall|k: int| 0 <= k < rest.len() implies (
        #[trigger] rest[k]).never_cancelled() by {
            assert(below[k].never_cancelled());
        }
        if !parent.has_next() {
            lemma_unwind_never_cancelled(rest, parent.closed(None));
        }
    }
}

/// A step on an event other than a poll that found the signal fired leaves a
/// scanner without cancellations without cancellations.
pub proof fn lemma_step_never_cancelled(scanner: ScannerView, event: EventView)
    requires
        scanner.never_cancelled(),
        event != EventView::Polled(true),
    ensures
        scanner.step(event).never_cancelled(),
{
    match scanner {
        ScannerView::Finished { .. } => {},
        ScannerView::Running { below, current, waiting } => {
            lemma_unwind_never_cancelled(below, current.closed(None));
            match (waiting, event) {
                (Waiting::Listing, EventView::Listed(Err(kind))) => {
                    lemma_unwind_never_cancelled(
                        below,
                        current.closed(Some(ReadError::IOError(kind))),
                    );
                },
                (Waiting::Listing, EventView::Listed(Ok(entries))) => {
                    match first_failure(entries) {
                        Some(kind) => {
                            lemma_unwind_never_cancelled(
                                below,
                                current.closed(Some(ReadError::IOError(kind))),
                            );
                        },
                        None => {
                            lemma_unwind_never_cancelled(
                                below,
                                current.filled(entries).closed(None),
                            );
                        },
                    }
                },
                (Waiting::Recursing, EventView::Polled(signalled)) => {
                    if current.has_next() {
                        let stack = below.push(current.advanced());
                        assert forall|k: int| 0 <= k < stack.len() implies (
                        #[trigger] stack[k]).never_cancelled() by {
                            if k < below.len() {
                                assert(below[k].never_cancelled());
                            }
                        }
                    }
                },
                _ => {},
            }
        },
    }
}

/// A scan during which the signal never fired builds no cancelled node:
/// where it has finished, no node of its tree reports a cancellation.
pub proof fn lemma_quiet_run_never_cancelled(
    name: Seq<char>,
    path: Seq<char>,
    events: Seq<EventView>,
)
    requires
        quiet(events),
    ensures
        ScannerView::initial(name, path).run(events).never_cancelled(),
    decreases events.len(),
{
    if events.len() > 0 {
        assert forall|i: int| 0 <= i < events.drop_last().len() implies (
        #[trigger] events.drop_last()[i]) != EventView::Polled(true) by {
            assert(events.drop_last()[i] == events[i]);
        }
        lemma_quiet_run_never_cancelled(name, path, events.drop_last());
        assert(events[events.len() - 1] != EventView::Polled(true));
        lemma_step_never_cancelled(
            ScannerView::initial(name, path).run(events.drop_last()),
            events.last(),
        );
    }
}

/// The state of a scan is a function of the events that it was given: two
/// scans of one root that are given the same answers are in the same state,
/// and where they have finished, their trees are the same.
pub proof fn lemma_scan_repeatable(
    name: Seq<char>,
    path: Seq<char>,
    first: Seq<EventView>,
    second: Seq<EventView>,
)
    requires
        first =~= second,
    ensures
        ScannerView::initial(name, path).run(first) == ScannerView::initial(name, path).run(
            second,
        ),
        ScannerView::initial(name, path).run(first) matches ScannerView::Finished { root }
            ==> root.same_tree(ScannerView::initial(name, path).run(second)->root),
{
    if let ScannerView::Finished { root } = ScannerView::initial(name, path).run(first) {
        crate::tree::lemma_same_tree_reflexive(root);
    }
}

} // verus!
