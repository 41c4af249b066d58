//! The entries of one directory as the operating system listed them, and what
//! a scan keeps of them.

use vstd::prelude::*;
use crate::mime::{mime_of, resolve_mime};
use crate::tree::{distinct_file_names, file_views, File, FileView};

verus! {

/// What the metadata of an entry says it is.
#[derive(Debug, Clone, Copy, PartialEq, Eq)]
pub enum EntryKind {
    /// A file of so many bytes.
    File(u64),
    /// Anything else: it is entered as a directory.
    Directory,
}

/// What an `Entry` stands for.
pub struct EntryView {
    pub name: Seq<char>,
    pub path: Seq<char>,
    pub metadata: Result<EntryKind, std::io::ErrorKind>,
}

/// One entry of a listing: its name, the path that leads to it, and its
/// metadata or the reason why they could not be read.
#[derive(Debug)]
pub struct Entry {
    pub name: String,
    pub path: String,
    pub metadata: Result<EntryKind, std::io::ErrorKind>,
}

impl View for Entry {
    type V = EntryView;

    open spec fn view(&self) -> EntryView {
        EntryView { name: self.name@, path: self.path@, metadata: self.metadata }
    }
}

impl Clone for Entry {
    fn clone(&self) -> (copy: Entry)
        ensures
            copy@ == self@,
    {
        Entry { name: self.name.clone(), path: self.path.clone(), metadata: self.metadata }
    }
}

/// The models of a sequence of entries, one for one.
pub open spec fn entry_views(entries: Seq<Entry>) -> Seq<EntryView> {
    entries.map_values(|e: Entry| e@)
}

/// A check that turns an unchecked value into a checked one, or refuses it.
pub trait Constrained<U, C, E> {
    fn constrain(unconstrained: U) -> Result<C, E>;
}

/// An entry whose metadata could be read.
#[derive(Debug)]
pub struct EntriesWithMetadata {
    name: String,
    path: String,
    kind: EntryKind,
}

impl View for EntriesWithMetadata {
    type V = EntryView;

    closed spec fn view(&self) -> EntryView {
        EntryView { name: self.name@, path: self.path@, metadata: Ok(self.kind) }
    }
}

impl EntriesWithMetadata {
    pub fn get_name(&self) -> (name: &str)
        ensures
            name@ == self@.name,
    {
        self.name.as_str()
    }

    pub fn get_path(&self) -> (path: &str)
        ensures
            path@ == self@.path,
    {
        self.path.as_str()
    }

    /// What the metadata of the entry say it is.
    pub fn get_kind(&self) -> (kind: EntryKind)
        ensures
            self@.metadata == Ok::<EntryKind, std::io::ErrorKind>(kind),
    {
        self.kind
    }
}

/// The models of a sequence of classified entries, one for one.
pub open spec fn classified_views(entries: Seq<EntriesWithMetadata>) -> Seq<EntryView> {
    entries.map_values(|e: EntriesWithMetadata| e@)
}

impl Constrained<Entry, EntriesWithMetadata, std::io::ErrorKind> for EntriesWithMetadata {
    /// Classifies one entry: it is kept as it is where its metadata could be
    /// read, and refused with their error where they could not.
    fn constrain(entry: Entry) -> (checked: Result<EntriesWithMetadata, std::io::ErrorKind>)
        ensures
            match entry.metadata {
                Ok(_) => checked.is_ok() && checked.unwrap()@ == entry@,
                Err(kind) => checked == Err::<EntriesWithMetadata, std::io::ErrorKind>(kind),
            },
    {
        match entry.metadata {
            Ok(kind) => Ok(EntriesWithMetadata { name: entry.name, path: entry.path, kind: kind }),
            Err(kind) => Err(kind),
        }
    }
}

/// The error of the first entry whose metadata could not be read.
pub open spec fn first_failure(entries: Seq<EntryView>) -> Option<std::io::ErrorKind>
    decreases entries.len(),
{
    if entries.len() == 0 {
        None
    } else {
        match entries.first().metadata {
            Err(kind) => Some(kind),
            Ok(_) => first_failure(entries.drop_first()),
        }
    }
}

/// Classifies every entry of a listing. One unreadable entry fails the whole
/// listing, with the error of the first such entry.
pub fn classify_entries(entries: &Vec<Entry>) -> (checked: Result<
    Vec<EntriesWithMetadata>,
    std::io::ErrorKind,
>)
    ensures
        match first_failure(entry_views(entries@)) {
            Some(kind) => checked == Err::<Vec<EntriesWithMetadata>, std::io::ErrorKind>(kind),
            None => checked.is_ok() && classified_views(checked.unwrap()@) == entry_views(
                entries@,
            ),
        },
{
    let ghost views = entry_views(entries@);
    let mut kept: Vec<EntriesWithMetadata> = Vec::new();
    let mut i: usize = 0;
    assert(views.skip(0) =~= views);
    assert(classified_views(kept@) =~= views.take(0));
    while i < entries.len()
        invariant
            i <= entries@.len(),
            views == entry_views(entries@),
            first_failure(views) == first_failure(views.skip(i as int)),
            classified_views(kept@) == views.take(i as int),
        decreases entries@.len() - i,
    {
        let ghost rest = views.skip(i as int);
        assert(rest.first() == views[i as int]);
        assert(rest.drop_first() =~= views.skip(i + 1));
        match EntriesWithMetadata::constrain(entries[i].clone()) {
            Ok(entry) => {
                let ghost before = classified_views(kept@);
                kept.push(entry);
                assert(entry@ == views[i as int]);
                assert(classified_views(kept@) =~= before.push(entry@));
                assert(classified_views(kept@) =~= views.take(i + 1));
            },
            Err(kind) => {
                return Err(kind);
            },
        }
        i += 1;
    }
    assert(views.take(i as int) =~= views);
    Ok(kept)
}

/// Whether one of `files` is called `name`.
pub open spec fn names_file(files: Seq<FileView>, name: Seq<char>) -> bool {
    exists|i: int| 0 <= i < files.len() && (#[trigger] files[i]).name == name
}

/// The files that a listing yields, in the order of the listing. Of several
/// entries with one name the first is kept.
pub open spec fn listed_files(entries: Seq<EntryView>) -> Seq<FileView>
    decreases entries.len(),
{
    if entries.len() == 0 {
        Seq::empty()
    } else {
        let earlier = listed_files(entries.drop_last());
        let entry = entries.last();
        match entry.metadata {
            Ok(EntryKind::File(size)) => if names_file(earlier, entry.name) {
                earlier
            } else {
                earlier.push(FileView { name: entry.name, size: size, mime: mime_of(entry.name) })
            },
            _ => earlier,
        }
    }
}

/// No name occurs twice among the files that a listing yields.
pub proof fn lemma_listed_files_distinct(entries: Seq<EntryView>)
    ensures
        distinct_file_names(listed_files(entries)),
    decreases entries.len(),
{
    if entries.len() > 0 {
        lemma_listed_files_distinct(entries.drop_last());
    }
}

/// Whether one of `files` is called `name`.
fn has_file_named(files: &Vec<File>, name: &String) -> (found: bool)
    ensures
        found == names_file(file_views(files@), name@),
{
    let mut i: usize = 0;
    while i < files.len()
        invariant
            i <= files@.len(),
            forall|k: int| 0 <= k < i ==> (#[trigger] file_views(files@)[k]).name != name@,
        decreases files@.len() - i,
    {
        if files[i].is_named(name) {
            assert(file_views(files@)[i as int].name == name@);
            return true;
        }
        i += 1;
    }
    false
}

/// The files among `entries`, each with its size and its content type.
pub fn collect_files(entries: &Vec<EntriesWithMetadata>) -> (files: Vec<File>)
    ensures
        file_views(files@) == listed_files(classified_views(entries@)),
        distinct_file_names(file_views(files@)),
{
    let ghost views = classified_views(entries@);
    let mut files: Vec<File> = Vec::new();
    let mut i: usize = 0;
    assert(file_views(files@) =~= listed_files(views.take(0)));
    while i < entries.len()
        invariant
            i <= entries@.len(),
            views == classified_views(entries@),
            file_views(files@) == listed_files(views.take(i as int)),
        decreases entries@.len() - i,
    {
        assert(views.take(i + 1).drop_last() =~= views.take(i as int));
        assert(views.take(i + 1).last() == entries@[i as int]@);
        let entry = &entries[i];
        match entry.kind {
            EntryKind::File(size) => {
                if !has_file_named(&files, &entry.name) {
                    let mime = resolve_mime(entry.name.as_str());
                    files.push(File::new(entry.name.as_str(), size, mime.as_str()));
                    assert(file_views(files@) =~= listed_files(views.take(i + 1)));
                }
            },
            EntryKind::Directory => {},
        }
        i += 1;
    }
    assert(views.take(i as int) =~= views);
    proof {
        lemma_listed_files_distinct(views);
    }
    files
}


/// What a `Pending` stands for.
pub struct PendingView {
    pub name: Seq<char>,
    pub path: Seq<char>,
}

/// A subdirectory that a listing named and that is still to be scanned.
#[derive(Debug)]
pub struct Pending {
    name: String,
    path: String,
}

impl View for Pending {
    type V = PendingView;

    closed spec fn view(&self) -> PendingView {
        PendingView { name: self.name@, path: self.path@ }
    }
}

impl Pending {
    pub fn get_name(&self) -> (name: &str)
        ensures
            name@ == self@.name,
    {
        self.name.as_str()
    }

    pub fn get_path(&self) -> (path: &str)
        ensures
            path@ == self@.path,
    {
        self.path.as_str()
    }
}

/// The models of a sequence of pending subdirectories, one for one.
pub open spec fn pending_views(pending: Seq<Pending>) -> Seq<PendingView> {
    pending.map_values(|p: Pending| p@)
}

/// Whether one of `pending` is called `name`.
pub open spec fn names_pending(pending: Seq<PendingView>, name: Seq<char>) -> bool {
    exists|i: int| 0 <= i < pending.len() && (#[trigger] pending[i]).name == name
}

/// No two of `pending` have the same name.
pub open spec fn distinct_pending_names(pending: Seq<PendingView>) -> bool {
    forall|i: int, j: int|
        0 <= i < j < pending.len() ==> (#[trigger] pending[i]).name != (#[trigger] pending[j]).name
}

/// The subdirectories that a listing yields, in the order of the listing. Of
/// several entries with one name the first is kept.
pub open spec fn listed_subdirectories(entries: Seq<EntryView>) -> Seq<PendingView>
    decreases entries.len(),
{
    if entries.len() == 0 {
        Seq::empty()
    } else {
        let earlier = listed_subdirectories(entries.drop_last());
        let entry = entries.last();
        match entry.metadata {
            Ok(EntryKind::Directory) => if names_pending(earlier, entry.name) {
                earlier
            } else {
                earlier.push(PendingView { name: entry.name, path: entry.path })
            },
            _ => earlier,
        }
    }
}

/// No name occurs twice among the subdirectories that a listing yields.
pub proof fn lemma_listed_subdirectories_distinct(entries: Seq<EntryView>)
    ensures
        distinct_pending_names(listed_subdirectories(entries)),
    decreases entries.len(),
{
    if entries.len() > 0 {
        lemma_listed_subdirectories_distinct(entries.drop_last());
    }
}

/// Whether one of `pending` is called `name`.
fn has_pending_named(pending: &Vec<Pending>, name: &String) -> (found: bool)
    ensures
        found == names_pending(pending_views(pending@), name@),
{
    let mut i: usize = 0;
    while i < pending.len()
        invariant
            i <= pending@.len(),
            forall|k: int| 0 <= k < i ==> (#[trigger] pending_views(pending@)[k]).name != name@,
        decreases pending@.len() - i,
    {
        if pending[i].name == *name {
            assert(pending_views(pending@)[i as int].name == name@);
            return true;
        }
        i += 1;
    }
    false
}

/// The subdirectories among `entries`, each with the path that leads to it.
pub fn collect_subdirectories(entries: &Vec<EntriesWithMetadata>) -> (pending: Vec<Pending>)
    ensures
        pending_views(pending@) == listed_subdirectories(classified_views(entries@)),
        distinct_pending_names(pending_views(pending@)),
{
    let ghost views = classified_views(entries@);
    let mut pending: Vec<Pending> = Vec::new();
    let mut i: usize = 0;
    assert(pending_views(pending@) =~= listed_subdirectories(views.take(0)));
    while i < entries.len()
        invariant
            i <= entries@.len(),
            views == classified_views(entries@),
            pending_views(pending@) == listed_subdirectories(views.take(i as int)),
        decreases entries@.len() - i,
    {
        assert(views.take(i + 1).drop_last() =~= views.take(i as int));
        assert(views.take(i + 1).last() == entries@[i as int]@);
        let entry = &entries[i];
        match entry.kind {
            EntryKind::Directory => {
                if !has_pending_named(&pending, &entry.name) {
                    pending.push(Pending { name: entry.name.clone(), path: entry.path.clone() });
                    assert(pending_views(pending@) =~= listed_subdirectories(views.take(i + 1)));
                }
            },
            EntryKind::File(_) => {},
        }
        i += 1;
    }
    assert(views.take(i as int) =~= views);
    proof {
        lemma_listed_subdirectories_distinct(views);
    }
    pending
}

} // verus!
