use disk_analyzer::analyzer::{
    create_analyzer_columns, create_column, fill_list_store, AnalyzerMsg, AnalyzerWindow,
    DirStore, Navigation, ViewColumn,
};
use disk_analyzer::entry::{Entry, EntryKind};
use disk_analyzer::scan::{Action, Event, Scanner};
use disk_analyzer::tree::Directory;
use std::io::ErrorKind;

fn listing_of(path: &str) -> Result<Vec<Entry>, ErrorKind> {
    let file = |name: &str, size: u64| Entry {
        name: name.to_string(),
        path: format!("{}/{}", path, name),
        metadata: Ok(EntryKind::File(size)),
    };
    let dir = |name: &str| Entry {
        name: name.to_string(),
        path: format!("{}/{}", path, name),
        metadata: Ok(EntryKind::Directory),
    };
    match path {
        "/top" => Ok(vec![file("a.txt", 100), dir("pictures"), dir("locked"), file("b.png", 20)]),
        "/top/pictures" => Ok(vec![file("c.jpg", 80), dir("old")]),
        "/top/pictures/old" => Ok(vec![file("d.gif", 50)]),
        _ => Err(ErrorKind::PermissionDenied),
    }
}

fn scanned_tree() -> Directory {
    let mut scanner = Scanner::new("top", "/top");
    let mut action = scanner.action();
    loop {
        let event = match &action {
            Action::Poll => Event::Polled(false),
            Action::List(path) => Event::Listed(listing_of(path)),
            Action::Done => break,
        };
        let (next, asked) = scanner.step(event);
        scanner = next;
        action = asked;
    }
    scanner.finish().unwrap()
}

fn row(icon: &str, name: &str, outer_size: u64, inner_size: u64) -> DirStore {
    DirStore { icon: icon.to_string(), name: name.to_string(), outer_size, inner_size }
}

#[test]
fn rows_of_a_directory_are_its_subdirectories_and_files() {
    let tree = scanned_tree();
    assert_eq!(tree.get_size(), 250);
    let rows = fill_list_store(&tree);
    assert!(rows.contains(&row("folder", "pictures", 250, 130)));
    assert!(rows.contains(&row("dialog-error", "locked", 250, 0)));
    assert!(rows.contains(&row("text/plain", "a.txt", 250, 100)));
    assert!(rows.contains(&row("image/png", "b.png", 250, 20)));
    assert!(!rows.contains(&row("folder", "locked", 250, 0)));
    assert!(!rows.contains(&row("folder", "pictures", 250, 131)));
    assert!(!rows.contains(&row("image/jpeg", "c.jpg", 250, 80)));
    let mut listed = rows.rows();
    listed.sort_by(|a, b| a.name.cmp(&b.name));
    assert_eq!(
        listed,
        vec![
            row("text/plain", "a.txt", 250, 100),
            row("image/png", "b.png", 250, 20),
            row("dialog-error", "locked", 250, 0),
            row("folder", "pictures", 250, 130),
        ]
    );
}

#[test]
fn empty_directory_has_no_rows() {
    let rows = fill_list_store(&Directory::empty("e", None, "/e"));
    assert!(rows.rows().is_empty());
    assert!(!rows.contains(&row("folder", "e", 0, 0)));
}

#[test]
fn share_of_a_row_is_its_remainder_times_a_hundred() {
    assert_eq!(row("folder", "a", 250, 130).percent(), Some(13000));
    assert_eq!(row("folder", "a", 250, 250).percent(), Some(0));
    assert_eq!(row("folder", "a", 100, 350).percent(), Some(5000));
    assert_eq!(row("folder", "a", 0, 130).percent(), None);
    assert_eq!(row("folder", "a", u64::MAX, u64::MAX - 1).percent(), None);
}

#[test]
fn default_column_has_its_title_and_nothing_else() {
    let column = ViewColumn::default();
    assert_eq!(column.get_title(), "blair is a weeb");
    assert!(!column.get_pack_start());
    assert!(!column.is_clickable());
    assert!(!column.is_sortable());
    assert_eq!(column.get_sort_id(), None);
    assert_eq!(*column.get_content(), None);
    assert_eq!(column.child_count(), 0);
    let titled = ViewColumn::default_butt_title("root".to_string());
    assert_eq!(titled.get_title(), "root");
    assert!(!titled.get_pack_start());
    assert_eq!(titled.child_count(), 0);
}

#[test]
fn column_is_sortable_by_its_number_only_where_asked() {
    let sortable = create_column(3, "Size", Some("69".to_string()), true);
    assert_eq!(sortable.get_title(), "Size");
    assert!(sortable.get_pack_start());
    assert!(sortable.is_clickable());
    assert!(sortable.is_sortable());
    assert_eq!(sortable.get_sort_id(), Some(3));
    assert_eq!(sortable.get_content().as_deref(), Some("69"));
    let fixed = create_column(0, "Icon", None, false);
    assert!(fixed.get_pack_start());
    assert!(!fixed.is_clickable());
    assert!(!fixed.is_sortable());
    assert_eq!(fixed.get_sort_id(), None);
    assert_eq!(*fixed.get_content(), None);
}

#[test]
fn analyzer_has_four_columns() {
    let columns = create_analyzer_columns(ViewColumn::default_butt_title("root".to_string()));
    assert_eq!(columns.get_title(), "root");
    assert_eq!(columns.child_count(), 4);
    let keys: Vec<&str> = (0..4).map(|i| columns.child_key(i)).collect();
    assert_eq!(keys, vec!["Icon", "Name", "%", "Size"]);
    let icon = columns.get_child(&"Icon".to_string()).unwrap();
    assert_eq!(icon.get_sort_id(), None);
    assert_eq!(icon.get_content().as_deref(), Some("f"));
    let name = columns.get_child(&"Name".to_string()).unwrap();
    assert_eq!(name.get_sort_id(), Some(1));
    assert_eq!(*name.get_content(), None);
    let percent = columns.child(2);
    assert_eq!(percent.get_title(), "%");
    assert_eq!(percent.get_content().as_deref(), Some("10"));
    assert!(!percent.is_sortable());
    let size = columns.get_child(&"Size".to_string()).unwrap();
    assert_eq!(size.get_sort_id(), Some(3));
    assert_eq!(size.get_content().as_deref(), Some("69"));
    assert!(columns.get_child(&"size".to_string()).is_none());
}

#[test]
fn child_under_a_used_key_takes_the_place_of_the_old_one() {
    let columns = create_analyzer_columns(ViewColumn::default());
    let columns = columns.insert_child("Name".to_string(), create_column(9, "Renamed", None, true));
    assert_eq!(columns.child_count(), 4);
    assert_eq!(columns.child_key(1), "Name");
    assert_eq!(columns.child(1).get_title(), "Renamed");
    assert_eq!(columns.child(1).get_sort_id(), Some(9));
    assert_eq!(columns.child(0).get_title(), "Icon");
    assert_eq!(columns.child(3).get_title(), "Size");
    let again = create_analyzer_columns(columns);
    assert_eq!(again.child_count(), 4);
    assert_eq!(again.child(1).get_title(), "Name");
}

#[test]
fn window_opens_on_the_root() {
    let window = AnalyzerWindow::new(scanned_tree());
    assert_eq!(window.subtitle(), "/top");
    assert_eq!(window.current_directory().get_name(), "top");
    assert!(window.rows().contains(&row("folder", "pictures", 250, 130)));
}

#[test]
fn click_on_a_subdirectory_enters_it() {
    let window = AnalyzerWindow::new(scanned_tree());
    let (window, outcome) = window.on_row_activated(0);
    assert_eq!(outcome, Navigation::Moved);
    assert_eq!(window.subtitle(), "/top/pictures");
    assert_eq!(window.current_directory().get_size(), 130);
    assert!(window.rows().contains(&row("image/jpeg", "c.jpg", 130, 80)));
    assert!(window.rows().contains(&row("folder", "old", 130, 50)));
    assert!(!window.rows().contains(&row("folder", "pictures", 250, 130)));
    let (window, outcome) = window.on_row_activated(0);
    assert_eq!(outcome, Navigation::Moved);
    assert_eq!(window.subtitle(), "/top/pictures/old");
    assert!(window.rows().contains(&row("image/gif", "d.gif", 50, 50)));
}

#[test]
fn click_on_an_unreadable_subdirectory_or_a_file_stays() {
    let window = AnalyzerWindow::new(scanned_tree());
    let (window, outcome) = window.on_row_activated(1);
    assert_eq!(outcome, Navigation::Unreadable);
    assert_eq!(window.subtitle(), "/top");
    let (window, outcome) = window.on_row_activated(2);
    assert_eq!(outcome, Navigation::Stayed);
    assert_eq!(window.subtitle(), "/top");
    let (window, outcome) = window.on_row_activated(usize::MAX);
    assert_eq!(outcome, Navigation::Stayed);
    assert_eq!(window.current_directory().get_name(), "top");
}

#[test]
fn way_up_leads_to_the_directory_above() {
    let window = AnalyzerWindow::new(scanned_tree());
    let (window, outcome) = window.on_up_clicked();
    assert_eq!(outcome, Navigation::Stayed);
    assert_eq!(window.subtitle(), "/top");
    let (window, _) = window.on_row_activated(0);
    let (window, _) = window.on_row_activated(0);
    let (window, outcome) = window.on_up_clicked();
    assert_eq!(outcome, Navigation::Moved);
    assert_eq!(window.subtitle(), "/top/pictures");
    assert!(window.rows().contains(&row("folder", "old", 130, 50)));
    let (window, outcome) = window.on_up_clicked();
    assert_eq!(outcome, Navigation::Moved);
    assert_eq!(window.subtitle(), "/top");
    assert!(window.rows().contains(&row("text/plain", "a.txt", 250, 100)));
}

#[test]
fn messages_are_dispatched() {
    let window = AnalyzerWindow::new(scanned_tree());
    let (window, outcome) = window.update(AnalyzerMsg::RowActivated(0));
    assert_eq!(outcome, Navigation::Moved);
    let (window, outcome) = window.update(AnalyzerMsg::Quit);
    assert_eq!(outcome, Navigation::Closed);
    assert_eq!(window.subtitle(), "/top/pictures");
    let (window, outcome) = window.update(AnalyzerMsg::Up);
    assert_eq!(outcome, Navigation::Moved);
    assert_eq!(window.subtitle(), "/top");
}

#[test]
fn tree_is_written_with_everything_beneath_it() {
    let tree = scanned_tree();
    let old = "----- old 50 ------\n\nd.gif 50\n";
    let pictures = format!("----- pictures 130 ------\n{}\n\nc.jpg 80\n", old);
    let locked = "----- locked 0 ------\n\n";
    let expected =
        format!("----- top 250 ------\n{}\n{}\n\na.txt 100\nb.png 20\n", pictures, locked);
    assert_eq!(tree.to_string(), expected);
}
