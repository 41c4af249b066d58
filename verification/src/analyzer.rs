//! What a view shows of one directory: a row for each of its subdirectories
//! and files, and the columns that the rows are laid out in.

use vstd::prelude::*;
use vstd::pervasive::VecAdditionalExecFns;
use archery::ArcTK;
use rpds::HashTrieSet;
use crate::tree::{Directory, DirectoryView, FileView};

verus! {

/// What a `DirStore` stands for.
pub struct DirStoreView {
    pub icon: Seq<char>,
    pub name: Seq<char>,
    pub outer_size: u64,
    pub inner_size: u64,
}

/// One row of a view: an icon, a name, the size of the directory shown and
/// the size of the entry in it.
#[derive(Debug, Clone, PartialEq, Eq, Hash)]
pub struct DirStore {
    pub icon: String,
    pub name: String,
    pub outer_size: u64,
    pub inner_size: u64,
}

impl DirStoreView {
    /// The number shown as the share of the row: what is left of its size
    /// after whole multiples of the size of the directory are taken off,
    /// times a hundred.
    pub open spec fn percent(self) -> int {
        (self.inner_size % self.outer_size) * 100
    }
}

impl DirStore {
    /// The number shown as the share of the row, or nothing where the
    /// directory has no size or the number does not fit.
    pub fn percent(&self) -> (share: Option<u64>)
        ensures
            share == if self@.outer_size == 0 || self@.percent() > u64::MAX {
                None
            } else {
                Some(self@.percent() as u64)
            },
    {
        if self.outer_size == 0 {
            None
        } else {
            (self.inner_size % self.outer_size).checked_mul(100)
        }
    }
}

impl View for DirStore {
    type V = DirStoreView;

    open spec fn view(&self) -> DirStoreView {
        DirStoreView {
            icon: self.icon@,
            name: self.name@,
            outer_size: self.outer_size,
            inner_size: self.inner_size,
        }
    }
}

/// A set of rows: a persistent hash set, `HashTrieSet<DirStore, ArcTK>`.
#[verifier::external_body]
pub struct DirStoreSet {
    rows: HashTrieSet<DirStore, ArcTK>,
}

/// The rows that a set of rows holds.
pub uninterp spec fn store_set_contents(set: DirStoreSet) -> Set<DirStoreView>;

/// Calls `HashTrieSet::new_sync`: a set that holds nothing.
#[verifier::external_body]
fn empty_store_set() -> (set: DirStoreSet)
    ensures
        store_set_contents(set) == Set::<DirStoreView>::empty(),
{
    DirStoreSet { rows: HashTrieSet::new_sync() }
}

/// Calls `HashTrieSet::insert_mut`: afterwards the set holds `store` beside
/// what it held. Two rows are one item of the set where their four fields
/// agree, which is how `DirStore` is compared and hashed.
#[verifier::external_body]
fn insert_store(set: &mut DirStoreSet, store: DirStore)
    ensures
        store_set_contents(*final(set)) == store_set_contents(*old(set)).insert(store@),
{
    set.rows.insert_mut(store)
}

/// Calls `HashTrieSet::contains`: whether the set holds a row whose four
/// fields agree with those of `store`.
#[verifier::external_body]
fn store_set_contains(set: &DirStoreSet, store: &DirStore) -> (held: bool)
    ensures
        held == store_set_contents(*set).contains(store@),
{
    set.rows.contains(store)
}

/// Calls `HashTrieSet::iter` and copies what it yields: each row of the set
/// once, in an order that is not fixed.
#[verifier::external_body]
fn store_set_rows(set: &DirStoreSet) -> (rows: Vec<DirStore>)
    ensures
        store_views(rows@).to_set() == store_set_contents(*set),
        store_views(rows@).no_duplicates(),
{
    set.rows.iter().cloned().collect()
}

/// The models of a sequence of rows, one for one.
pub open spec fn store_views(rows: Seq<DirStore>) -> Seq<DirStoreView> {
    rows.map_values(|r: DirStore| r@)
}


impl DirStoreSet {
    /// The rows of the set.
    pub open spec fn contents(self) -> Set<DirStoreView> {
        store_set_contents(self)
    }

    /// Whether the set holds `store`.
    pub fn contains(&self, store: &DirStore) -> (held: bool)
        ensures
            held == self.contents().contains(store@),
    {
        store_set_contains(self, store)
    }

    /// The rows of the set, each once, in no particular order.
    pub fn rows(&self) -> (rows: Vec<DirStore>)
        ensures
            store_views(rows@).to_set() == self.contents(),
            store_views(rows@).no_duplicates(),
    {
        store_set_rows(self)
    }
}

/// The icon of a subdirectory that was read.
pub open spec fn folder_icon() -> Seq<char> {
    "folder"@
}

/// The icon of a subdirectory that reports an error.
pub open spec fn error_icon() -> Seq<char> {
    "dialog-error"@
}

/// The row of the subdirectory `sub` in a view of `shown`.
pub open spec fn directory_row(shown: DirectoryView, sub: DirectoryView) -> DirStoreView {
    DirStoreView {
        icon: if sub.error.is_some() {
            error_icon()
        } else {
            folder_icon()
        },
        name: sub.name,
        outer_size: shown.size,
        inner_size: sub.size,
    }
}

/// The row of `file` in a view of `shown`: its icon is its content type.
pub open spec fn file_row(shown: DirectoryView, file: FileView) -> DirStoreView {
    DirStoreView {
        icon: file.mime,
        name: file.name,
        outer_size: shown.size,
        inner_size: file.size,
    }
}

/// The rows of the first `directories` subdirectories and of the first
/// `files` files of `shown`.
pub open spec fn rows_of_first(shown: DirectoryView, directories: int, files: int) -> Set<
    DirStoreView,
> {
    Set::new(
        |row: DirStoreView|
            {
                ||| exists|i: int|
                    0 <= i < directories && i < shown.directories.len() && row == directory_row(
                        shown,
                        #[trigger] shown.directories[i],
                    )
                ||| exists|j: int|
                    0 <= j < files && j < shown.files.len() && row == file_row(
                        shown,
                        #[trigger] shown.files[j],
                    )
            },
    )
}

/// The rows of a view of `shown`: one for each subdirectory and one for each file.
pub open spec fn rows_of(shown: DirectoryView) -> Set<DirStoreView> {
    rows_of_first(shown, shown.directories.len() as int, shown.files.len() as int)
}

/// The rows of a view of `dir`: for each subdirectory its name and size under
/// a folder icon, or under an error icon where it reports an error; for each
/// file its name and size under its content type. Each row also carries the
/// size of `dir`.
pub fn fill_list_store(dir: &Directory) -> (rows: DirStoreSet)
    ensures
        rows.contents() == rows_of(dir@),
{
    let outer_size = dir.get_size();
    let mut rows = empty_store_set();
    let directories = dir.get_subdirectories();
    let mut i: usize = 0;
    assert(rows.contents() =~= rows_of_first(dir@, 0, 0));
    while i < directories.len()
        invariant
            i <= directories@.len(),
            crate::tree::directory_views(directories@) == dir@.directories,
            outer_size == dir@.size,
            rows.contents() == rows_of_first(dir@, i as int, 0),
        decreases directories@.len() - i,
    {
        let sub = &directories[i];
        assert(sub@ == dir@.directories[i as int]);
        let icon = if sub.has_error() {
            "dialog-error"
        } else {
            "folder"
        };
        let store = DirStore {
            icon: icon.to_string(),
            name: sub.get_name().to_string(),
            outer_size: outer_size,
            inner_size: sub.get_size(),
        };
        assert(store@ == directory_row(dir@, dir@.directories[i as int]));
        let ghost before = rows.contents();
        insert_store(&mut rows, store);
        assert(rows.contents() =~= rows_of_first(dir@, i + 1, 0)) by {
            assert forall|row: DirStoreView|
                before.insert(store@).contains(row) implies rows_of_first(
                dir@,
                i + 1,
                0,
            ).contains(row) by {
                if row != store@ {
                    let k = choose|k: int|
                        0 <= k < i && k < dir@.directories.len() && row == directory_row(
                            dir@,
                            #[trigger] dir@.directories[k],
                        );
                    assert(0 <= k < i + 1 && row == directory_row(dir@, dir@.directories[k]));
                }
            }
        }
        i += 1;
    }
    let files = dir.get_files();
    let mut j: usize = 0;
    while j < files.len()
        invariant
            j <= files@.len(),
            i == dir@.directories.len(),
            crate::tree::file_views(files@) == dir@.files,
            outer_size == dir@.size,
            rows.contents() == rows_of_first(dir@, i as int, j as int),
        decreases files@.len() - j,
    {
        let file = &files[j];
        assert(file@ == dir@.files[j as int]);
        let store = DirStore {
            icon: file.get_mime().to_string(),
            name: file.get_name().to_string(),
            outer_size: outer_size,
            inner_size: file.get_size(),
        };
        assert(store@ == file_row(dir@, dir@.files[j as int]));
        let ghost before = rows.contents();
        insert_store(&mut rows, store);
        assert(rows.contents() =~= rows_of_first(dir@, i as int, j + 1)) by {
            assert forall|row: DirStoreView|
                before.insert(store@).contains(row) implies rows_of_first(
                dir@,
                i as int,
                j + 1,
            ).contains(row) by {
                if row != store@ {
                    if exists|k: int|
                        0 <= k < j && k < dir@.files.len() && row == file_row(
                            dir@,
                            #[trigger] dir@.files[k],
                        ) {
                        let k = choose|k: int|
                            0 <= k < j && k < dir@.files.len() && row == file_row(
                                dir@,
                                #[trigger] dir@.files[k],
                            );
                        assert(0 <= k < j + 1 && row == file_row(dir@, dir@.files[k]));
                    }
                }
            }
        }
        j += 1;
    }
    rows
}


/// What a `ViewColumn` stands for. Its children are keyed, and are held in
/// the order in which their keys were first used.
pub struct ViewColumnView {
    pub pack_start: bool,
    pub title: Seq<char>,
    pub clickable: bool,
    pub sortable: bool,
    pub sort_id: Option<i32>,
    pub children: Seq<(Seq<char>, ViewColumnView)>,
    pub content: Option<Seq<char>>,
}

/// A child of a column under its key.
#[derive(Debug)]
struct KeyedColumn {
    key: String,
    column: ViewColumn,
}

/// A column of a view, with the columns beneath it.
#[derive(Debug)]
pub struct ViewColumn {
    pack_start: bool,
    title: String,
    clickable: bool,
    sortable: bool,
    sort_id: Option<i32>,
    children: Vec<KeyedColumn>,
    content: Option<String>,
}

impl ViewColumn {
    /// The model of this column, built from the models of its children.
    pub closed spec fn model(&self) -> ViewColumnView
        decreases self,
    {
        ViewColumnView {
            pack_start: self.pack_start,
            title: self.title@,
            clickable: self.clickable,
            sortable: self.sortable,
            sort_id: self.sort_id,
            children: Seq::new(
                self.children@.len(),
                |i: int|
                    if 0 <= i < self.children@.len() {
                        (self.children@[i].key@, self.children@[i].column.model())
                    } else {
                        arbitrary()
                    },
            ),
            content: crate::tree::optional_view(self.content),
        }
    }
}

impl View for ViewColumn {
    type V = ViewColumnView;

    open spec fn view(&self) -> ViewColumnView {
        self.model()
    }
}

/// The title of a column that was given none.
pub open spec fn default_title() -> Seq<char> {
    "blair is a weeb"@
}

/// Whether one of `children` has the key `key`.
pub open spec fn has_key(children: Seq<(Seq<char>, ViewColumnView)>, key: Seq<char>) -> bool {
    exists|i: int| 0 <= i < children.len() && (#[trigger] children[i]).0 == key
}

/// Whether the child at `index` is the first with the key `key`.
pub open spec fn first_with_key(
    children: Seq<(Seq<char>, ViewColumnView)>,
    key: Seq<char>,
    index: int,
) -> bool {
    &&& 0 <= index < children.len()
    &&& children[index].0 == key
    &&& forall|j: int| 0 <= j < index ==> (#[trigger] children[j]).0 != key
}

/// `children` with `column` under `key`: in the place of the child that had
/// the key, or at the end where none had it.
pub open spec fn with_child(
    children: Seq<(Seq<char>, ViewColumnView)>,
    key: Seq<char>,
    column: ViewColumnView,
) -> Seq<(Seq<char>, ViewColumnView)> {
    if has_key(children, key) {
        children.update(choose|i: int| first_with_key(children, key, i), (key, column))
    } else {
        children.push((key, column))
    }
}

impl ViewColumnView {
    /// The column that is not packed, not clickable and not sortable, with
    /// the title `title`, no content and no children.
    pub open spec fn plain(title: Seq<char>) -> Self {
        ViewColumnView {
            pack_start: false,
            title: title,
            clickable: false,
            sortable: false,
            sort_id: None,
            children: Seq::empty(),
            content: None,
        }
    }

    /// The packed column number `id` with the title `title`: it is clickable
    /// and sortable, by its number, where `is_sortable` holds.
    pub open spec fn column(
        id: i32,
        title: Seq<char>,
        content: Option<Seq<char>>,
        is_sortable: bool,
    ) -> Self {
        ViewColumnView {
            pack_start: true,
            title: title,
            clickable: is_sortable,
            sortable: is_sortable,
            sort_id: if is_sortable {
                Some(id)
            } else {
                None
            },
            children: Seq::empty(),
            content: content,
        }
    }

    /// This column with `column` as its child under `key`.
    pub open spec fn with_child(self, key: Seq<char>, column: ViewColumnView) -> Self {
        ViewColumnView { children: with_child(self.children, key, column), ..self }
    }

    /// This column with the four columns of the analyzer as its children:
    /// `Icon`, `Name`, `%` and `Size`, of which `Name` and `Size` are sortable.
    pub open spec fn with_analyzer_columns(self) -> Self {
        self.with_child("Icon"@, Self::column(0, "Icon"@, Some("f"@), false)).with_child(
            "Name"@,
            Self::column(1, "Name"@, None, true),
        ).with_child("%"@, Self::column(2, "%"@, Some("10"@), false)).with_child(
            "Size"@,
            Self::column(3, "Size"@, Some("69"@), true),
        )
    }
}

/// Putting a column under a key that no child has adds it at the end.
pub proof fn lemma_with_child_new_key(
    children: Seq<(Seq<char>, ViewColumnView)>,
    key: Seq<char>,
    column: ViewColumnView,
)
    requires
        forall|i: int| 0 <= i < children.len() ==> (#[trigger] children[i]).0 != key,
    ensures
        with_child(children, key, column) == children.push((key, column)),
{
}

/// Putting a column under a key that a child has puts it in the place of
/// the first such child and leaves the number of children as it is.
pub proof fn lemma_with_child_used_key(
    children: Seq<(Seq<char>, ViewColumnView)>,
    key: Seq<char>,
    column: ViewColumnView,
    index: int,
)
    requires
        first_with_key(children, key, index),
    ensures
        with_child(children, key, column) == children.update(index, (key, column)),
{
    let chosen = choose|i: int| first_with_key(children, key, i);
    assert(chosen == index) by {
        if chosen < index {
            assert(children[chosen].0 != key);
        }
        if index < chosen {
            assert(children[index].0 != key);
        }
    }
}

/// No two of `children` have the same key.
pub open spec fn distinct_keys(children: Seq<(Seq<char>, ViewColumnView)>) -> bool {
    forall|i: int, j: int|
        0 <= i < j < children.len() ==> (#[trigger] children[i]).0 != (#[trigger] children[j]).0
}

/// Children whose keys are distinct stay so when a column is put among
/// them, and the column is then found under its key.
pub proof fn lemma_with_child_keeps_keys_distinct(
    children: Seq<(Seq<char>, ViewColumnView)>,
    key: Seq<char>,
    column: ViewColumnView,
)
    requires
        distinct_keys(children),
    ensures
        distinct_keys(with_child(children, key, column)),
        exists|i: int|
            first_with_key(with_child(children, key, column), key, i) && with_child(
                children,
                key,
                column,
            )[i].1 == column,
{
    if has_key(children, key) {
        let index = choose|i: int| 0 <= i < children.len() && (#[trigger] children[i]).0 == key;
        assert(first_with_key(children, key, index)) by {
            assert forall|j: int| 0 <= j < index implies (#[trigger] children[j]).0 != key by {
                assert(children[j].0 != children[index].0);
            }
        }
        lemma_with_child_used_key(children, key, column, index);
        let after = children.update(index, (key, column));
        assert forall|i: int, j: int| 0 <= i < j < after.len() implies (
        #[trigger] after[i]).0 != (#[trigger] after[j]).0 by {
            assert(children[i].0 != children[j].0);
        }
        assert(first_with_key(after, key, index));
    } else {
        lemma_with_child_new_key(children, key, column);
        let after = children.push((key, column));
        assert forall|i: int, j: int| 0 <= i < j < after.len() implies (
        #[trigger] after[i]).0 != (#[trigger] after[j]).0 by {
            if j < children.len() {
                assert(children[i].0 != children[j].0);
            } else {
                assert(children[i].0 != key);
            }
        }
        assert(first_with_key(after, key, children.len() as int));
    }
}

/// A column without children has, with the columns of the analyzer, these
/// four in this order: `Icon`, `Name`, `%` and `Size`.
pub proof fn lemma_analyzer_columns_of_childless(column: ViewColumnView)
    requires
        column.children.len() == 0,
    ensures
        column.with_analyzer_columns().children == seq![
            ("Icon"@, ViewColumnView::column(0, "Icon"@, Some("f"@), false)),
            ("Name"@, ViewColumnView::column(1, "Name"@, None, true)),
            ("%"@, ViewColumnView::column(2, "%"@, Some("10"@), false)),
            ("Size"@, ViewColumnView::column(3, "Size"@, Some("69"@), true)),
        ],
{
    reveal_strlit("Icon");
    reveal_strlit("Name");
    reveal_strlit("%");
    reveal_strlit("Size");
    let icon = ("Icon"@, ViewColumnView::column(0, "Icon"@, Some("f"@), false));
    let name = ("Name"@, ViewColumnView::column(1, "Name"@, None, true));
    let percent = ("%"@, ViewColumnView::column(2, "%"@, Some("10"@), false));
    let size = ("Size"@, ViewColumnView::column(3, "Size"@, Some("69"@), true));
    assert("Icon"@[0] != "Name"@[0]);
    assert("Icon"@.len() != "%"@.len());
    assert("Name"@.len() != "%"@.len());
    assert("Icon"@[0] != "Size"@[0]);
    assert("Name"@[0] != "Size"@[0]);
    assert("%"@.len() != "Size"@.len());
    assert(column.children =~= Seq::empty());
    lemma_with_child_new_key(column.children, icon.0, icon.1);
    let one = column.children.push(icon);
    lemma_with_child_new_key(one, name.0, name.1);
    let two = one.push(name);
    lemma_with_child_new_key(two, percent.0, percent.1);
    let three = two.push(percent);
    lemma_with_child_new_key(three, size.0, size.1);
    assert(three.push(size) =~= seq![icon, name, percent, size]);
}

impl Default for ViewColumn {
    fn default() -> (column: ViewColumn)
        ensures
            column@ == ViewColumnView::plain(default_title()),
    {
        let column = ViewColumn {
            pack_start: false,
            title: "blair is a weeb".to_string(),
            clickable: false,
            sortable: false,
            sort_id: None,
            children: Vec::new(),
            content: None,
        };
        assert(column@.children =~= Seq::empty());
        column
    }
}

impl ViewColumn {
    /// The default column under the title `title`.
    pub fn default_butt_title(title: String) -> (column: ViewColumn)
        ensures
            column@ == ViewColumnView::plain(title@),
    {
        let column = ViewColumn {
            pack_start: false,
            title: title,
            clickable: false,
            sortable: false,
            sort_id: None,
            children: Vec::new(),
            content: None,
        };
        assert(column@.children =~= Seq::empty());
        column
    }

    pub fn get_title(&self) -> (title: &str)
        ensures
            title@ == self@.title,
    {
        self.title.as_str()
    }

    pub fn get_pack_start(&self) -> (pack_start: bool)
        ensures
            pack_start == self@.pack_start,
    {
        self.pack_start
    }

    pub fn is_clickable(&self) -> (clickable: bool)
        ensures
            clickable == self@.clickable,
    {
        self.clickable
    }

    pub fn is_sortable(&self) -> (sortable: bool)
        ensures
            sortable == self@.sortable,
    {
        self.sortable
    }

    pub fn get_sort_id(&self) -> (sort_id: Option<i32>)
        ensures
            sort_id == self@.sort_id,
    {
        self.sort_id
    }

    pub fn get_content(&self) -> (content: &Option<String>)
        ensures
            crate::tree::optional_view(*content) == self@.content,
    {
        &self.content
    }

    /// The number of children.
    pub fn child_count(&self) -> (count: usize)
        ensures
            count == self@.children.len(),
    {
        self.children.len()
    }

    /// The key of the child number `index`.
    pub fn child_key(&self, index: usize) -> (key: &str)
        requires
            index < self@.children.len(),
        ensures
            key@ == self@.children[index as int].0,
    {
        self.children[index].key.as_str()
    }

    /// The child number `index`.
    pub fn child(&self, index: usize) -> (column: &ViewColumn)
        requires
            index < self@.children.len(),
        ensures
            column@ == self@.children[index as int].1,
    {
        &self.children[index].column
    }

    /// The child under `key`, if there is one.
    pub fn get_child(&self, key: &String) -> (column: Option<&ViewColumn>)
        ensures
            match column {
                Some(found) => exists|i: int|
                    first_with_key(self@.children, key@, i) && found@ == self@.children[i].1,
                None => !has_key(self@.children, key@),
            },
    {
        assert(keyed_views(self.children@) =~= self@.children);
        match find_key(&self.children, key) {
            Some(i) => Some(&self.children[i].column),
            None => None,
        }
    }

    /// Puts `column` under `key` among the children: in the place of the
    /// child that had the key, or at the end where none had it.
    pub fn insert_child(self, key: String, column: ViewColumn) -> (parent: ViewColumn)
        ensures
            parent@ == self@.with_child(key@, column@),
    {
        let ghost before = self@.children;
        let found = find_key(&self.children, &key);
        assert(keyed_views(self.children@) =~= before);
        let mut children = self.children;
        match found {
            Some(i) => {
                let ghost chosen = choose|k: int| first_with_key(before, key@, k);
                assert(chosen == i) by {
                    if chosen < i {
                        assert(before[chosen].0 != key@);
                    }
                    if i < chosen {
                        assert(before[i as int].0 != key@);
                    }
                }
                children.set(i, KeyedColumn { key: key, column: column });
            },
            None => {
                children.push(KeyedColumn { key: key, column: column });
            },
        }
        let parent = ViewColumn {
            pack_start: self.pack_start,
            title: self.title,
            clickable: self.clickable,
            sortable: self.sortable,
            sort_id: self.sort_id,
            children: children,
            content: self.content,
        };
        assert(parent@.children =~= with_child(before, key@, column@));
        parent
    }
}

/// The keys and models of a sequence of keyed columns, one for one.
spec fn keyed_views(children: Seq<KeyedColumn>) -> Seq<(Seq<char>, ViewColumnView)> {
    children.map_values(|c: KeyedColumn| (c.key@, c.column.model()))
}

/// The index of the first of `children` that has the key `key`.
fn find_key(children: &Vec<KeyedColumn>, key: &String) -> (found: Option<usize>)
    ensures
        match found {
            Some(i) => first_with_key(keyed_views(children@), key@, i as int),
            None => !has_key(keyed_views(children@), key@),
        },
{
    let mut i: usize = 0;
    while i < children.len()
        invariant
            i <= children@.len(),
            forall|k: int| 0 <= k < i ==> (#[trigger] keyed_views(children@)[k]).0 != key@,
        decreases children@.len() - i,
    {
        if children[i].key == *key {
            assert(keyed_views(children@)[i as int].0 == key@);
            return Some(i);
        }
        i += 1;
    }
    None
}

/// The packed column number `id` with the title `title`.
pub fn create_column(id: i32, title: &str, content: Option<String>, is_sortable: bool) -> (column:
    ViewColumn)
    ensures
        column@ == ViewColumnView::column(
            id,
            title@,
            crate::tree::optional_view(content),
            is_sortable,
        ),
{
    let sort_id = if is_sortable {
        Some(id)
    } else {
        None
    };
    let column = ViewColumn {
        pack_start: true,
        title: title.to_string(),
        clickable: is_sortable,
        sortable: is_sortable,
        sort_id: sort_id,
        children: Vec::new(),
        content: content,
    };
    assert(column@.children =~= Seq::empty());
    column
}

/// `file_list` with the four columns of the analyzer as its children.
pub fn create_analyzer_columns(file_list: ViewColumn) -> (columns: ViewColumn)
    ensures
        columns@ == file_list@.with_analyzer_columns(),
{
    let file_list = file_list.insert_child(
        "Icon".to_string(),
        create_column(0, "Icon", Some("f".to_string()), false),
    );
    let file_list = file_list.insert_child(
        "Name".to_string(),
        create_column(1, "Name", None, true),
    );
    let file_list = file_list.insert_child(
        "%".to_string(),
        create_column(2, "%", Some("10".to_string()), false),
    );
    file_list.insert_child(
        "Size".to_string(),
        create_column(3, "Size", Some("69".to_string()), true),
    )
}


/// What an `AnalyzerModel` stands for: a tree, and the way from its root to
/// the directory that is shown, as the index of a subdirectory at each level.
pub struct AnalyzerModelView {
    pub root: DirectoryView,
    pub current: Seq<int>,
}

/// The directory that `trail` leads to from `root`.
pub open spec fn resolve(root: DirectoryView, trail: Seq<int>) -> DirectoryView
    decreases trail.len(),
{
    if trail.len() == 0 {
        root
    } else {
        resolve(root, trail.drop_last()).directories[trail.last()]
    }
}

/// Every step of `trail` names a subdirectory that is there.
pub open spec fn leads_somewhere(root: DirectoryView, trail: Seq<int>) -> bool
    decreases trail.len(),
{
    trail.len() > 0 ==> {
        &&& leads_somewhere(root, trail.drop_last())
        &&& 0 <= trail.last() < resolve(root, trail.drop_last()).directories.len()
    }
}

impl AnalyzerModelView {
    /// The way to the directory that is shown leads somewhere.
    pub open spec fn well_formed(self) -> bool {
        leads_somewhere(self.root, self.current)
    }

    /// The directory that is shown.
    pub open spec fn shown(self) -> DirectoryView {
        resolve(self.root, self.current)
    }
}

/// A tree and the directory of it that is shown.
#[derive(Debug)]
pub struct AnalyzerModel {
    root: Directory,
    current: Vec<usize>,
}

impl View for AnalyzerModel {
    type V = AnalyzerModelView;

    closed spec fn view(&self) -> AnalyzerModelView {
        AnalyzerModelView {
            root: self.root@,
            current: self.current@.map_values(|i: usize| i as int),
        }
    }
}

impl AnalyzerModel {
    /// A model that shows the root of `root`.
    pub fn new(root: Directory) -> (model: AnalyzerModel)
        ensures
            model@ == (AnalyzerModelView { root: root@, current: Seq::empty() }),
            model@.well_formed(),
    {
        let model = AnalyzerModel { root: root, current: Vec::new() };
        assert(model@.current =~= Seq::empty());
        model
    }

    /// The directory that is shown.
    pub fn current_directory(&self) -> (shown: &Directory)
        requires
            self@.well_formed(),
        ensures
            shown@ == self@.shown(),
    {
        let ghost trail = self@.current;
        let mut shown: &Directory = &self.root;
        let mut depth: usize = 0;
        assert(trail.take(0) =~= Seq::empty());
        while depth < self.current.len()
            invariant
                depth <= self.current@.len(),
                trail == self@.current,
                trail.len() == self.current@.len(),
                leads_somewhere(self@.root, trail),
                shown@ == resolve(self@.root, trail.take(depth as int)),
            decreases self.current@.len() - depth,
        {
            proof {
                lemma_leads_somewhere_prefix(self@.root, trail, depth + 1);
                assert(trail.take(depth + 1).drop_last() =~= trail.take(depth as int));
                assert(trail.take(depth + 1).last() == self.current@[depth as int]);
            }
            let directories = shown.get_subdirectories();
            assert(directories@.len() == shown@.directories.len());
            let next = &directories[self.current[depth]];
            assert(next@ == shown@.directories[self.current@[depth as int] as int]);
            shown = next;
            depth += 1;
        }
        assert(trail.take(depth as int) =~= trail);
        shown
    }
}

/// A trail that leads somewhere does so after each of its steps.
pub proof fn lemma_leads_somewhere_prefix(root: DirectoryView, trail: Seq<int>, steps: int)
    requires
        leads_somewhere(root, trail),
        0 <= steps <= trail.len(),
    ensures
        leads_somewhere(root, trail.take(steps)),
    decreases trail.len(),
{
    if steps < trail.len() {
        lemma_leads_somewhere_prefix(root, trail.drop_last(), steps);
        assert(trail.drop_last().take(steps) =~= trail.take(steps));
    } else {
        assert(trail.take(steps) =~= trail);
    }
}

/// What a click on a row or on the way up does to the view.
#[derive(Debug, Clone, Copy, PartialEq, Eq)]
pub enum AnalyzerMsg {
    Quit,
    RowActivated(usize),
    Up,
}

/// What became of a click.
#[derive(Debug, Clone, Copy, PartialEq, Eq)]
pub enum Navigation {
    /// Another directory is shown now.
    Moved,
    /// The row is a subdirectory whose contents could not be read.
    Unreadable,
    /// Nothing changed.
    Stayed,
    /// The window is to be closed.
    Closed,
}

/// What an `AnalyzerWindow` stands for.
pub struct AnalyzerWindowView {
    pub model: AnalyzerModelView,
    pub rows: Set<DirStoreView>,
    pub subtitle: Seq<char>,
}

impl AnalyzerWindowView {
    /// The window shows the rows and the path of the directory that its
    /// model names.
    pub open spec fn well_formed(self) -> bool {
        &&& self.model.well_formed()
        &&& self.rows == rows_of(self.model.shown())
        &&& self.subtitle == self.model.shown().path
    }

    /// The window on the directory that `trail` leads to.
    pub open spec fn showing(root: DirectoryView, trail: Seq<int>) -> Self {
        AnalyzerWindowView {
            model: AnalyzerModelView { root: root, current: trail },
            rows: rows_of(resolve(root, trail)),
            subtitle: resolve(root, trail).path,
        }
    }

    /// Whether row number `index` is a subdirectory.
    pub open spec fn is_directory_row(self, index: int) -> bool {
        0 <= index < self.model.shown().directories.len()
    }

    /// The window after a click on row number `index`: it shows the
    /// subdirectory of that number, unless there is none or it reports an
    /// error.
    pub open spec fn row_activated(self, index: int) -> Self {
        if self.is_directory_row(index) && self.model.shown().directories[index].error.is_none() {
            Self::showing(self.model.root, self.model.current.push(index))
        } else {
            self
        }
    }

    /// The window after a click on the way up: it shows the directory above,
    /// unless the root is shown.
    pub open spec fn up_clicked(self) -> Self {
        if self.model.current.len() > 0 {
            Self::showing(self.model.root, self.model.current.drop_last())
        } else {
            self
        }
    }
}

/// A window on one directory of a tree: its rows, and its path as subtitle.
pub struct AnalyzerWindow {
    model: AnalyzerModel,
    list_store: DirStoreSet,
    subtitle: String,
}

impl View for AnalyzerWindow {
    type V = AnalyzerWindowView;

    closed spec fn view(&self) -> AnalyzerWindowView {
        AnalyzerWindowView {
            model: self.model@,
            rows: self.list_store.contents(),
            subtitle: self.subtitle@,
        }
    }
}

impl AnalyzerWindow {
    /// A window on the root of `root`.
    pub fn new(root: Directory) -> (window: AnalyzerWindow)
        ensures
            window@ == AnalyzerWindowView::showing(root@, Seq::empty()),
            window@.well_formed(),
    {
        let list_store = fill_list_store(&root);
        let subtitle = root.get_path().to_string();
        let window = AnalyzerWindow {
            model: AnalyzerModel::new(root),
            list_store: list_store,
            subtitle: subtitle,
        };
        window
    }

    /// The directory that is shown.
    pub fn current_directory(&self) -> (shown: &Directory)
        requires
            self@.well_formed(),
        ensures
            shown@ == self@.model.shown(),
    {
        self.model.current_directory()
    }

    /// The rows that are shown.
    pub fn rows(&self) -> (rows: &DirStoreSet)
        ensures
            rows.contents() == self@.rows,
    {
        &self.list_store
    }

    /// The path of the directory that is shown.
    pub fn subtitle(&self) -> (subtitle: &str)
        ensures
            subtitle@ == self@.subtitle,
    {
        self.subtitle.as_str()
    }

    /// Puts the window on the directory that its model names.
    fn refresh(model: AnalyzerModel) -> (window: AnalyzerWindow)
        requires
            model@.well_formed(),
        ensures
            window@ == AnalyzerWindowView::showing(model@.root, model@.current),
            window@.well_formed(),
    {
        let shown = model.current_directory();
        let list_store = fill_list_store(shown);
        let subtitle = shown.get_path().to_string();
        AnalyzerWindow { model: model, list_store: list_store, subtitle: subtitle }
    }

    /// A click on row number `index`, where the rows of the subdirectories
    /// come first. A subdirectory that was read is entered; one that reports
    /// an error is not, and neither is a file.
    pub fn on_row_activated(self, index: usize) -> (clicked: (AnalyzerWindow, Navigation))
        requires
            self@.well_formed(),
        ensures
            clicked.0@ == self@.row_activated(index as int),
            clicked.0@.well_formed(),
            clicked.1 == if !self@.is_directory_row(index as int) {
                Navigation::Stayed
            } else if self@.model.shown().directories[index as int].error.is_some() {
                Navigation::Unreadable
            } else {
                Navigation::Moved
            },
    {
        let shown = self.model.current_directory();
        let directories = shown.get_subdirectories();
        assert(directories@.len() == shown@.directories.len());
        if index < directories.len() {
            let chosen = &directories[index];
            assert(chosen@ == shown@.directories[index as int]);
            if chosen.has_error() {
                (self, Navigation::Unreadable)
            } else {
                let ghost trail = self@.model.current;
                let mut current = self.model.current;
                current.push(index);
                let model = AnalyzerModel { root: self.model.root, current: current };
                assert(model@.current =~= trail.push(index as int));
                assert(model@.current.drop_last() =~= trail);
                (AnalyzerWindow::refresh(model), Navigation::Moved)
            }
        } else {
            (self, Navigation::Stayed)
        }
    }

    /// A click on the way up: the directory above is shown, unless the root is.
    pub fn on_up_clicked(self) -> (clicked: (AnalyzerWindow, Navigation))
        requires
            self@.well_formed(),
        ensures
            clicked.0@ == self@.up_clicked(),
            clicked.0@.well_formed(),
            clicked.1 == if self@.model.current.len() > 0 {
                Navigation::Moved
            } else {
                Navigation::Stayed
            },
    {
        if self.model.current.len() > 0 {
            let ghost trail = self@.model.current;
            let mut current = self.model.current;
            current.pop();
            let model = AnalyzerModel { root: self.model.root, current: current };
            assert(model@.current =~= trail.drop_last());
            (AnalyzerWindow::refresh(model), Navigation::Moved)
        } else {
            (self, Navigation::Stayed)
        }
    }

    /// What a message does to the window.
    pub fn update(self, event: AnalyzerMsg) -> (updated: (AnalyzerWindow, Navigation))
        requires
            self@.well_formed(),
        ensures
            updated.0@ == match event {
                AnalyzerMsg::Quit => self@,
                AnalyzerMsg::RowActivated(index) => self@.row_activated(index as int),
                AnalyzerMsg::Up => self@.up_clicked(),
            },
            updated.0@.well_formed(),
            event == AnalyzerMsg::Quit ==> updated.1 == Navigation::Closed,
    {
        match event {
            AnalyzerMsg::Quit => (self, Navigation::Closed),
            AnalyzerMsg::RowActivated(index) => self.on_row_activated(index),
            AnalyzerMsg::Up => self.on_up_clicked(),
        }
    }
}

} // verus!
