//! The nodes of a scanned tree, `File` and `Directory`, and their models.

use vstd::prelude::*;
use vstd::std_specs::cmp::PartialEqSpecImpl;

verus! {

/// `std::io::ErrorKind`: the classification that the operating system gives
/// to a failed call. Its values are carried through and never looked into.
#[verifier::external_type_specification]
#[verifier::external_body]
pub struct ExErrorKind(std::io::ErrorKind);

/// Why a directory could not be read in full.
#[derive(Debug, Clone, Copy, PartialEq, Eq, Hash)]
pub enum ReadError {
    /// Listing the directory, or reading the metadata of one of its entries, failed.
    IOError(std::io::ErrorKind),
    /// The cancellation signal was seen while the directory was being read.
    OperationCancelled,
}

impl ReadError {
    /// The message of the error.
    pub open spec fn message(self) -> Seq<char> {
        match self {
            ReadError::IOError(_) => "I/O error"@,
            ReadError::OperationCancelled => "Operation cancelled"@,
        }
    }

    /// The message of the error.
    pub fn to_string(&self) -> (text: String)
        ensures
            text@ == self.message(),
    {
        match self {
            ReadError::IOError(_) => "I/O error".to_string(),
            ReadError::OperationCancelled => "Operation cancelled".to_string(),
        }
    }
}

/// What a `File` stands for.
pub struct FileView {
    pub name: Seq<char>,
    pub size: u64,
    pub mime: Seq<char>,
}

/// A leaf of the tree: a name, a size in bytes and a content type.
#[derive(Debug)]
pub struct File {
    name: String,
    size: u64,
    mime: String,
}

impl View for File {
    type V = FileView;

    closed spec fn view(&self) -> FileView {
        FileView { name: self.name@, size: self.size, mime: self.mime@ }
    }
}

impl File {
    pub fn new(name: &str, size: u64, mime: &str) -> (file: File)
        ensures
            file@ == (FileView { name: name@, size: size, mime: mime@ }),
    {
        File { name: name.to_string(), size: size, mime: mime.to_string() }
    }

    pub fn get_name(&self) -> (name: &str)
        ensures
            name@ == self@.name,
    {
        self.name.as_str()
    }

    pub fn get_size(&self) -> (size: u64)
        ensures
            size == self@.size,
    {
        self.size
    }

    pub fn get_mime(&self) -> (mime: &str)
        ensures
            mime@ == self@.mime,
    {
        self.mime.as_str()
    }

    /// Whether the file is called `name`.
    pub fn is_named(&self, name: &String) -> (named: bool)
        ensures
            named == (self@.name == name@),
    {
        self.name == *name
    }
}

/// How a scan ended.
#[derive(Debug, Clone, Copy, PartialEq, Eq)]
pub enum ScanOutcome {
    /// The root was read: the tree shows what was measured, with an error
    /// at each directory beneath the root that could not be read.
    Complete,
    /// The root could not be read: there is nothing to show but the error.
    Failed,
    /// The scan was cancelled: the tree shows what was measured until then.
    Cancelled,
}

/// What a `Directory` stands for.
pub struct DirectoryView {
    pub name: Seq<char>,
    pub size: u64,
    pub directories: Seq<DirectoryView>,
    pub files: Seq<FileView>,
    pub parent: Option<Seq<char>>,
    pub path: Seq<char>,
    pub error: Option<ReadError>,
}

/// A node of the tree with the nodes beneath it.
#[derive(Debug)]
pub struct Directory {
    name: String,
    size: u64,
    directories: Vec<Directory>,
    files: Vec<File>,
    parent: Option<String>,
    path: String,
    error: Option<ReadError>,
}

impl Directory {
    /// The model of this node, built from the models of the nodes beneath it.
    pub closed spec fn model(&self) -> DirectoryView
        decreases self,
    {
        DirectoryView {
            name: self.name@,
            size: self.size,
            directories: Seq::new(
                self.directories@.len(),
                |i: int|
                    if 0 <= i < self.directories@.len() {
                        self.directories@[i].model()
                    } else {
                        arbitrary()
                    },
            ),
            files: self.files@.map_values(|f: File| f@),
            parent: optional_view(self.parent),
            path: self.path@,
            error: self.error,
        }
    }
}

impl View for Directory {
    type V = DirectoryView;

    open spec fn view(&self) -> DirectoryView {
        self.model()
    }
}

/// The characters of an optional string.
pub open spec fn optional_view(text: Option<String>) -> Option<Seq<char>> {
    match text {
        Some(t) => Some(t@),
        None => None,
    }
}

/// The models of a sequence of directories, one for one.
pub open spec fn directory_views(directories: Seq<Directory>) -> Seq<DirectoryView> {
    directories.map_values(|d: Directory| d@)
}

/// The models of a sequence of files, one for one.
pub open spec fn file_views(files: Seq<File>) -> Seq<FileView> {
    files.map_values(|f: File| f@)
}

/// The sizes of `files`, added up.
pub open spec fn files_total(files: Seq<FileView>) -> int
    decreases files.len(),
{
    if files.len() == 0 {
        0
    } else {
        files_total(files.drop_last()) + files.last().size
    }
}

/// The sizes of `directories`, added up.
pub open spec fn directories_total(directories: Seq<DirectoryView>) -> int
    decreases directories.len(),
{
    if directories.len() == 0 {
        0
    } else {
        directories_total(directories.drop_last()) + directories.last().size
    }
}

/// `total` as a byte count that fits a `u64`: itself, or the largest `u64`
/// where it does not fit.
pub open spec fn saturated(total: int) -> u64 {
    if total > u64::MAX {
        u64::MAX
    } else {
        total as u64
    }
}

/// No two files of `files` have the same name.
pub open spec fn distinct_file_names(files: Seq<FileView>) -> bool {
    forall|i: int, j: int|
        0 <= i < j < files.len() ==> (#[trigger] files[i]).name != (#[trigger] files[j]).name
}

/// No two directories of `directories` have the same name.
pub open spec fn distinct_directory_names(directories: Seq<DirectoryView>) -> bool {
    forall|i: int, j: int|
        0 <= i < j < directories.len() ==> (#[trigger] directories[i]).name != (
        #[trigger] directories[j]).name
}

impl DirectoryView {
    /// A directory that holds nothing and reports no error.
    pub open spec fn blank(name: Seq<char>, parent: Option<Seq<char>>, path: Seq<char>) -> Self {
        DirectoryView {
            name: name,
            size: 0,
            directories: Seq::empty(),
            files: Seq::empty(),
            parent: parent,
            path: path,
            error: None,
        }
    }

    /// The size of this node is the sum of the sizes of its files and of its
    /// subdirectories, and names are not repeated among either.
    pub open spec fn rolled_up_here(self) -> bool {
        &&& self.size == saturated(files_total(self.files) + directories_total(self.directories))
        &&& distinct_file_names(self.files)
        &&& distinct_directory_names(self.directories)
    }

    /// The node reports an error of the operating system.
    pub open spec fn failed(self) -> bool {
        self.error matches Some(ReadError::IOError(_))
    }

    /// The error of this node is in its place: a node that failed holds
    /// nothing, and a cancelled subdirectory is the last one of a node that
    /// is cancelled too.
    pub open spec fn errors_in_place_here(self) -> bool {
        &&& self.failed() ==> self.files.len() == 0 && self.directories.len() == 0
        &&& forall|i: int|
            0 <= i < self.directories.len() && (#[trigger] self.directories[i]).cancelled()
                ==> self.cancelled() && i == self.directories.len() - 1
    }

    /// `rolled_up_here` and `errors_in_place_here` hold of this node and of
    /// every node beneath it.
    pub open spec fn well_formed(self) -> bool
        decreases self,
    {
        &&& self.rolled_up_here()
        &&& self.errors_in_place_here()
        &&& forall|i: int|
            0 <= i < self.directories.len() ==> (#[trigger] self.directories[i]).well_formed()
    }

    /// Neither this node nor a node beneath it reports a cancellation.
    pub open spec fn never_cancelled(self) -> bool
        decreases self,
    {
        &&& !self.cancelled()
        &&& forall|i: int|
            0 <= i < self.directories.len() ==> (#[trigger] self.directories[i]).never_cancelled()
    }

    /// Two trees are the same where names, sizes, files and subdirectories
    /// agree at every node. Paths, parents and errors are not compared.
    pub open spec fn same_tree(self, other: DirectoryView) -> bool
        decreases self,
    {
        &&& self.name == other.name
        &&& self.size == other.size
        &&& self.files == other.files
        &&& self.directories.len() == other.directories.len()
        &&& forall|i: int|
            0 <= i < self.directories.len() ==> (#[trigger] self.directories[i]).same_tree(
                other.directories[i],
            )
    }

    /// How the scan of this tree ended, going by the error of its root.
    pub open spec fn outcome(self) -> ScanOutcome {
        match self.error {
            None => ScanOutcome::Complete,
            Some(ReadError::IOError(_)) => ScanOutcome::Failed,
            Some(ReadError::OperationCancelled) => ScanOutcome::Cancelled,
        }
    }

    /// The node reports that the scan was cancelled.
    pub open spec fn cancelled(self) -> bool {
        self.error == Some(ReadError::OperationCancelled)
    }
}

impl Directory {
    /// A directory with no entries, no size and no error.
    pub fn empty(name: &str, parent: Option<String>, path: &str) -> (directory: Directory)
        ensures
            directory@ == DirectoryView::blank(name@, optional_view(parent), path@),
            directory@.well_formed(),
    {
        let directory = Directory {
            name: name.to_string(),
            size: 0,
            directories: Vec::new(),
            files: Vec::new(),
            parent: parent,
            path: path.to_string(),
            error: None,
        };
        assert(directory@.directories =~= Seq::empty());
        assert(directory@.files =~= Seq::empty());
        directory
    }

    /// Puts a node together from its parts.
    pub(crate) fn assemble(
        name: String,
        size: u64,
        directories: Vec<Directory>,
        files: Vec<File>,
        parent: Option<String>,
        path: String,
        error: Option<ReadError>,
    ) -> (directory: Directory)
        ensures
            directory@ == (DirectoryView {
                name: name@,
                size: size,
                directories: directory_views(directories@),
                files: file_views(files@),
                parent: optional_view(parent),
                path: path@,
                error: error,
            }),
    {
        let directory = Directory { name, size, directories, files, parent, path, error };
        assert(directory@.directories =~= directory_views(directory.directories@));
        directory
    }

    pub fn get_name(&self) -> (name: &str)
        ensures
            name@ == self@.name,
    {
        self.name.as_str()
    }

    pub fn get_size(&self) -> (size: u64)
        ensures
            size == self@.size,
    {
        self.size
    }

    pub fn get_subdirectories(&self) -> (directories: &Vec<Directory>)
        ensures
            directory_views(directories@) == self@.directories,
    {
        assert(self@.directories =~= directory_views(self.directories@));
        &self.directories
    }

    pub fn get_files(&self) -> (files: &Vec<File>)
        ensures
            file_views(files@) == self@.files,
    {
        &self.files
    }

    /// The path of the directory that this one was found in, if any.
    pub fn get_parent(&self) -> (parent: &Option<String>)
        ensures
            optional_view(*parent) == self@.parent,
    {
        &self.parent
    }

    pub fn get_path(&self) -> (path: &str)
        ensures
            path@ == self@.path,
    {
        self.path.as_str()
    }

    pub fn get_error(&self) -> (error: &Option<ReadError>)
        ensures
            *error == self@.error,
    {
        &self.error
    }

    pub fn has_error(&self) -> (errored: bool)
        ensures
            errored == self@.error.is_some(),
    {
        self.error.is_some()
    }

    /// How the scan of this tree ended, going by the error of its root.
    pub fn outcome(&self) -> (outcome: ScanOutcome)
        ensures
            outcome == self@.outcome(),
    {
        match self.error {
            None => ScanOutcome::Complete,
            Some(ReadError::IOError(_)) => ScanOutcome::Failed,
            Some(ReadError::OperationCancelled) => ScanOutcome::Cancelled,
        }
    }
}

impl Default for Directory {
    fn default() -> (directory: Directory)
        ensures
            directory@ == DirectoryView::blank(Seq::empty(), None, Seq::empty()),
            directory@.well_formed(),
    {
        let directory = Directory {
            name: String::new(),
            size: 0,
            directories: Vec::new(),
            files: Vec::new(),
            parent: None,
            path: String::new(),
            error: None,
        };
        assert(directory@.directories =~= Seq::empty());
        assert(directory@.files =~= Seq::empty());
        directory
    }
}

/// Every tree is the same tree as itself: two scans that end with one model
/// end with trees that compare equal.
pub proof fn lemma_same_tree_reflexive(tree: DirectoryView)
    ensures
        tree.same_tree(tree),
    decreases tree,
{
    assert forall|i: int| 0 <= i < tree.directories.len() implies (
    #[trigger] tree.directories[i]).same_tree(tree.directories[i]) by {
        lemma_same_tree_reflexive(tree.directories[i]);
    }
}

/// Where one tree is the same as another, the other is the same as the one.
pub proof fn lemma_same_tree_symmetric(one: DirectoryView, other: DirectoryView)
    requires
        one.same_tree(other),
    ensures
        other.same_tree(one),
    decreases one,
{
    assert forall|i: int| 0 <= i < other.directories.len() implies (
    #[trigger] other.directories[i]).same_tree(one.directories[i]) by {
        assert(one.directories[i].same_tree(other.directories[i]));
        lemma_same_tree_symmetric(one.directories[i], other.directories[i]);
    }
}

/// Where a first tree is the same as a second and the second the same as a
/// third, the first is the same as the third.
pub proof fn lemma_same_tree_transitive(
    first: DirectoryView,
    second: DirectoryView,
    third: DirectoryView,
)
    requires
        first.same_tree(second),
        second.same_tree(third),
    ensures
        first.same_tree(third),
    decreases first,
{
    assert forall|i: int| 0 <= i < first.directories.len() implies (
    #[trigger] first.directories[i]).same_tree(third.directories[i]) by {
        assert(first.directories[i].same_tree(second.directories[i]));
        assert(second.directories[i].same_tree(third.directories[i]));
        lemma_same_tree_transitive(
            first.directories[i],
            second.directories[i],
            third.directories[i],
        );
    }
}

/// A subdirectory that failed leaves the node above it as it is: the node
/// has not failed itself, and its size is the sum of the sizes of all its
/// files and subdirectories, the failed one among them. Where nothing was
/// cancelled the node reports no error at all.
pub proof fn lemma_failed_subdirectory_is_local(node: DirectoryView, index: int)
    requires
        node.well_formed(),
        0 <= index < node.directories.len(),
        node.directories[index].failed(),
    ensures
        !node.failed(),
        node.size == saturated(files_total(node.files) + directories_total(node.directories)),
        node.directories[index].size == 0,
        node.never_cancelled() ==> node.error.is_none(),
{
    let sub = node.directories[index];
    assert(sub.well_formed());
    assert(sub.files =~= Seq::empty());
    assert(sub.directories =~= Seq::empty());
}

/// `total` and `more` added up as a byte count: saturating the sum is the same
/// as saturating `total` first and then adding with saturation.
pub proof fn lemma_saturated_add(total: int, more: u64)
    requires
        0 <= total,
    ensures
        saturated(total + more) == saturated(total).saturating_add(more),
{
}

/// A sum of file sizes is not negative.
pub proof fn lemma_files_total_bounds(files: Seq<FileView>)
    ensures
        0 <= files_total(files),
    decreases files.len(),
{
    if files.len() > 0 {
        lemma_files_total_bounds(files.drop_last());
    }
}

/// A sum of directory sizes is not negative.
pub proof fn lemma_directories_total_bounds(directories: Seq<DirectoryView>)
    ensures
        0 <= directories_total(directories),
    decreases directories.len(),
{
    if directories.len() > 0 {
        lemma_directories_total_bounds(directories.drop_last());
    }
}

/// The sum of a sequence of files with one more file is the sum of the
/// sequence and the size of that file.
pub proof fn lemma_files_total_push(files: Seq<FileView>, file: FileView)
    ensures
        files_total(files.push(file)) == files_total(files) + file.size,
{
    assert(files.push(file).drop_last() =~= files);
}

/// The sum of a sequence of directories with one more directory is the sum of
/// the sequence and the size of that directory.
pub proof fn lemma_directories_total_push(directories: Seq<DirectoryView>, directory: DirectoryView)
    ensures
        directories_total(directories.push(directory)) == directories_total(directories)
            + directory.size,
{
    assert(directories.push(directory).drop_last() =~= directories);
}

/// The sizes of `files` added up, as far as a `u64` can hold the sum.
pub fn files_size(files: &Vec<File>) -> (size: u64)
    ensures
        size == saturated(files_total(file_views(files@))),
{
    let ghost views = file_views(files@);
    let mut size: u64 = 0;
    let mut i: usize = 0;
    while i < files.len()
        invariant
            i <= files@.len(),
            views == file_views(files@),
            size == saturated(files_total(views.take(i as int))),
        decreases files@.len() - i,
    {
        proof {
            lemma_files_total_bounds(views.take(i as int));
            assert(views.take(i + 1) =~= views.take(i as int).push(views[i as int]));
            lemma_files_total_push(views.take(i as int), views[i as int]);
            lemma_saturated_add(files_total(views.take(i as int)), views[i as int].size);
        }
        size = size.saturating_add(files[i].get_size());
        i += 1;
    }
    assert(views.take(i as int) =~= views);
    size
}

/// `size` with the size of `directory` added, as far as a `u64` can hold the sum.
pub fn update_size_with_directory(size: u64, directory: &Directory) -> (updated: u64)
    ensures
        updated == saturated(size + directory@.size),
{
    size.saturating_add(directory.get_size())
}

impl Clone for File {
    fn clone(&self) -> (copy: File)
        ensures
            copy@ == self@,
    {
        File { name: self.name.clone(), size: self.size, mime: self.mime.clone() }
    }
}

impl PartialEq for File {
    fn eq(&self, other: &File) -> (equal: bool) {
        self.name == other.name && self.size == other.size && self.mime == other.mime
    }
}

impl PartialEqSpecImpl for File {
    open spec fn obeys_eq_spec() -> bool {
        true
    }

    open spec fn eq_spec(&self, other: &File) -> bool {
        self@ == other@
    }
}

impl Eq for File {}

impl Directory {
    /// A copy of this node and of every node beneath it.
    fn duplicate(&self) -> (copy: Directory)
        ensures
            copy@ == self@,
        decreases self,
    {
        let mut directories: Vec<Directory> = Vec::new();
        let mut i: usize = 0;
        while i < self.directories.len()
            invariant
                i <= self.directories@.len(),
                directories@.len() == i,
                forall|k: int| 0 <= k < i ==> directories@[k]@ == self.directories@[k]@,
            decreases self.directories@.len() - i,
        {
            let child = self.directories[i].duplicate();
            directories.push(child);
            i += 1;
        }
        let mut files: Vec<File> = Vec::new();
        let mut j: usize = 0;
        while j < self.files.len()
            invariant
                j <= self.files@.len(),
                files@.len() == j,
                forall|k: int| 0 <= k < j ==> files@[k]@ == self.files@[k]@,
            decreases self.files@.len() - j,
        {
            files.push(self.files[j].clone());
            j += 1;
        }
        let parent = match &self.parent {
            Some(p) => Some(p.clone()),
            None => None,
        };
        let copy = Directory {
            name: self.name.clone(),
            size: self.size,
            directories: directories,
            files: files,
            parent: parent,
            path: self.path.clone(),
            error: self.error,
        };
        assert(copy@.directories =~= self@.directories);
        assert(copy@.files =~= self@.files);
        copy
    }

    /// Whether `other` is the same tree as this one.
    fn same_as(&self, other: &Directory) -> (equal: bool)
        ensures
            equal == self@.same_tree(other@),
        decreases self,
    {
        if self.name != other.name || self.size != other.size {
            return false;
        }
        if self.files.len() != other.files.len() || self.directories.len()
            != other.directories.len() {
            assert(self@.files.len() != other@.files.len() || self@.directories.len()
                != other@.directories.len());
            return false;
        }
        let mut j: usize = 0;
        while j < self.files.len()
            invariant
                j <= self.files@.len(),
                self.files@.len() == other.files@.len(),
                forall|k: int| 0 <= k < j ==> self.files@[k]@ == other.files@[k]@,
            decreases self.files@.len() - j,
        {
            if self.files[j] != other.files[j] {
                assert(self@.files[j as int] != other@.files[j as int]);
                return false;
            }
            j += 1;
        }
        assert(self@.files =~= other@.files);
        let mut i: usize = 0;
        while i < self.directories.len()
            invariant
                i <= self.directories@.len(),
                self.directories@.len() == other.directories@.len(),
                self@.name == other@.name,
                self@.size == other@.size,
                self@.files == other@.files,
                forall|k: int|
                    0 <= k < i ==> self@.directories[k].same_tree(other@.directories[k]),
            decreases self.directories@.len() - i,
        {
            if !self.directories[i].same_as(&other.directories[i]) {
                assert(!self@.directories[i as int].same_tree(other@.directories[i as int]));
                return false;
            }
            i += 1;
        }
        true
    }
}

impl Clone for Directory {
    fn clone(&self) -> (copy: Directory)
        ensures
            copy@ == self@,
    {
        self.duplicate()
    }
}

impl PartialEq for Directory {
    fn eq(&self, other: &Directory) -> (equal: bool) {
        self.same_as(other)
    }
}

impl PartialEqSpecImpl for Directory {
    open spec fn obeys_eq_spec() -> bool {
        true
    }

    open spec fn eq_spec(&self, other: &Directory) -> bool {
        self@.same_tree(other@)
    }
}

impl Eq for Directory {}

} // verus!
