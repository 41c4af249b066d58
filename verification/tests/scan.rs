use disk_analyzer::entry::{Entry, EntryKind};
use disk_analyzer::scan::{read_dir, Action, Event, Scanner};
use disk_analyzer::tree::{Directory, ReadError, ScanOutcome};
use std::io::ErrorKind;
use std::sync::mpsc::channel;

fn file(name: &str, dir: &str, size: u64) -> Entry {
    Entry {
        name: name.to_string(),
        path: format!("{}/{}", dir, name),
        metadata: Ok(EntryKind::File(size)),
    }
}

fn dir(name: &str, parent: &str) -> Entry {
    Entry {
        name: name.to_string(),
        path: format!("{}/{}", parent, name),
        metadata: Ok(EntryKind::Directory),
    }
}

fn broken(name: &str, parent: &str, kind: ErrorKind) -> Entry {
    Entry { name: name.to_string(), path: format!("{}/{}", parent, name), metadata: Err(kind) }
}

fn expect_poll(action: &Action) {
    assert!(matches!(action, Action::Poll));
}

fn expect_list(action: &Action, path: &str) {
    match action {
        Action::List(p) => assert_eq!(p, path),
        other => panic!("expected a listing of {}, got {:?}", path, other),
    }
}

fn finished(scanner: Scanner) -> Directory {
    assert!(scanner.is_finished());
    scanner.finish().unwrap()
}

/// Runs a scan of `/root` in which no poll finds the signal fired and each
/// directory is listed as `listing` says.
fn scan_quietly(listing: fn(&str) -> Result<Vec<Entry>, ErrorKind>) -> Directory {
    let mut scanner = Scanner::new("root", "/root");
    let mut action = scanner.action();
    loop {
        let event = match &action {
            Action::Poll => Event::Polled(false),
            Action::List(path) => Event::Listed(listing(path)),
            Action::Done => break,
        };
        let (next, asked) = scanner.step(event);
        scanner = next;
        action = asked;
    }
    finished(scanner)
}

fn small_tree(path: &str) -> Result<Vec<Entry>, ErrorKind> {
    match path {
        "/root" => Ok(vec![file("a.txt", "/root", 100), dir("sub", "/root")]),
        "/root/sub" => Ok(vec![file("b.txt", "/root/sub", 50)]),
        _ => Err(ErrorKind::NotFound),
    }
}

fn tree_with_a_locked_directory(path: &str) -> Result<Vec<Entry>, ErrorKind> {
    match path {
        "/root" => Ok(vec![
            dir("locked", "/root"),
            file("top.bin", "/root", 7),
            dir("open", "/root"),
            dir("deep", "/root"),
        ]),
        "/root/locked" => Err(ErrorKind::PermissionDenied),
        "/root/open" => Ok(vec![file("x.png", "/root/open", 1000), file("y", "/root/open", 24)]),
        "/root/deep" => Ok(vec![dir("deeper", "/root/deep"), file("z.txt", "/root/deep", 1)]),
        "/root/deep/deeper" => Ok(vec![file("w.txt", "/root/deep/deeper", 300)]),
        _ => Err(ErrorKind::NotFound),
    }
}

#[test]
fn scan_of_file_and_subdirectory_rolls_sizes_up() {
    let scanner = Scanner::new("root", "/root");
    expect_poll(&scanner.action());
    let (scanner, action) = scanner.step(Event::Polled(false));
    expect_list(&action, "/root");
    let listing = vec![file("a.txt", "/root", 100), dir("sub", "/root")];
    let (scanner, action) = scanner.step(Event::Listed(Ok(listing)));
    expect_poll(&action);
    let (scanner, action) = scanner.step(Event::Polled(false));
    expect_poll(&action);
    let (scanner, action) = scanner.step(Event::Polled(false));
    expect_list(&action, "/root/sub");
    let (scanner, action) = scanner.step(Event::Listed(Ok(vec![file("b.txt", "/root/sub", 50)])));
    assert!(matches!(action, Action::Done));
    let root = finished(scanner);
    assert_eq!(root.get_size(), 150);
    assert_eq!(root.get_name(), "root");
    assert_eq!(root.get_path(), "/root");
    assert_eq!(*root.get_error(), None);
    assert!(!root.has_error());
    assert_eq!(root.get_files().len(), 1);
    assert_eq!(root.get_files()[0].get_name(), "a.txt");
    assert_eq!(root.get_files()[0].get_size(), 100);
    assert_eq!(root.get_files()[0].get_mime(), "text/plain");
    assert_eq!(root.get_subdirectories().len(), 1);
    let sub = &root.get_subdirectories()[0];
    assert_eq!(sub.get_name(), "sub");
    assert_eq!(sub.get_path(), "/root/sub");
    assert_eq!(sub.get_size(), 50);
    assert_eq!(*sub.get_error(), None);
    assert_eq!(sub.get_files().len(), 1);
    assert_eq!(sub.get_files()[0].get_name(), "b.txt");
    assert_eq!(sub.get_files()[0].get_size(), 50);
    assert!(sub.get_subdirectories().is_empty());
    assert_eq!(sub.get_parent().as_deref(), Some("/root"));
    assert_eq!(*root.get_parent(), None);
}

#[test]
fn cancellation_between_subdirectories_keeps_what_was_scanned() {
    let scanner = Scanner::new("root", "/root");
    let (scanner, _) = scanner.step(Event::Polled(false));
    let listing = vec![dir("sub", "/root"), dir("sub2", "/root")];
    let (scanner, _) = scanner.step(Event::Listed(Ok(listing)));
    let (scanner, _) = scanner.step(Event::Polled(false));
    let (scanner, action) = scanner.step(Event::Polled(false));
    expect_list(&action, "/root/sub");
    let (scanner, action) = scanner.step(Event::Listed(Ok(vec![file("b.txt", "/root/sub", 50)])));
    expect_poll(&action);
    assert!(!scanner.is_finished());
    let (scanner, action) = scanner.step(Event::Polled(true));
    assert!(matches!(action, Action::Done));
    let root = finished(scanner);
    assert_eq!(*root.get_error(), Some(ReadError::OperationCancelled));
    assert_eq!(root.get_size(), 50);
    assert_eq!(root.get_subdirectories().len(), 1);
    assert_eq!(root.get_subdirectories()[0].get_name(), "sub");
    assert_eq!(root.get_subdirectories()[0].get_size(), 50);
    assert_eq!(*root.get_subdirectories()[0].get_error(), None);
}

#[test]
fn cancellation_before_listing_gives_an_empty_cancelled_node() {
    let scanner = Scanner::new("root", "/root");
    let (scanner, action) = scanner.step(Event::Polled(true));
    assert!(matches!(action, Action::Done));
    let root = finished(scanner);
    assert_eq!(*root.get_error(), Some(ReadError::OperationCancelled));
    assert_eq!(root.get_size(), 0);
    assert!(root.get_files().is_empty());
    assert!(root.get_subdirectories().is_empty());
    assert_eq!(root.get_name(), "root");
    assert_eq!(root.get_path(), "/root");
}

#[test]
fn listing_failure_gives_an_empty_errored_node() {
    let scanner = Scanner::new("gone", "/gone");
    let (scanner, _) = scanner.step(Event::Polled(false));
    let (scanner, action) = scanner.step(Event::Listed(Err(ErrorKind::NotFound)));
    assert!(matches!(action, Action::Done));
    let root = finished(scanner);
    assert_eq!(*root.get_error(), Some(ReadError::IOError(ErrorKind::NotFound)));
    assert!(root.has_error());
    assert_eq!(root.get_size(), 0);
    assert!(root.get_files().is_empty());
    assert!(root.get_subdirectories().is_empty());
}

#[test]
fn unreadable_entry_fails_the_whole_directory() {
    let scanner = Scanner::new("root", "/root");
    let (scanner, _) = scanner.step(Event::Polled(false));
    let listing = vec![
        file("a.txt", "/root", 100),
        broken("b", "/root", ErrorKind::PermissionDenied),
        dir("sub", "/root"),
        broken("c", "/root", ErrorKind::NotFound),
    ];
    let (scanner, action) = scanner.step(Event::Listed(Ok(listing)));
    assert!(matches!(action, Action::Done));
    let root = finished(scanner);
    assert_eq!(*root.get_error(), Some(ReadError::IOError(ErrorKind::PermissionDenied)));
    assert_eq!(root.get_size(), 0);
    assert!(root.get_files().is_empty());
    assert!(root.get_subdirectories().is_empty());
}

#[test]
fn failed_subdirectory_does_not_fail_its_parent() {
    let root = scan_quietly(tree_with_a_locked_directory);
    assert_eq!(*root.get_error(), None);
    assert_eq!(root.get_size(), 7 + 0 + 1024 + 301);
    let names: Vec<&str> = root.get_subdirectories().iter().map(|d| d.get_name()).collect();
    assert_eq!(names, vec!["locked", "open", "deep"]);
    let locked = &root.get_subdirectories()[0];
    assert_eq!(*locked.get_error(), Some(ReadError::IOError(ErrorKind::PermissionDenied)));
    assert_eq!(locked.get_size(), 0);
    assert!(locked.get_files().is_empty());
    assert!(locked.get_subdirectories().is_empty());
    let open = &root.get_subdirectories()[1];
    assert_eq!(*open.get_error(), None);
    assert_eq!(open.get_size(), 1024);
    assert_eq!(open.get_files()[0].get_mime(), "image/png");
    assert_eq!(open.get_files()[1].get_mime(), "text/plain");
    let deep = &root.get_subdirectories()[2];
    assert_eq!(deep.get_size(), 301);
    assert_eq!(deep.get_subdirectories()[0].get_size(), 300);
    assert_eq!(deep.get_subdirectories()[0].get_parent().as_deref(), Some("/root/deep"));
}

#[test]
fn every_node_of_a_scanned_tree_is_rolled_up() {
    fn check(node: &Directory) {
        let files: u64 = node.get_files().iter().map(|f| f.get_size()).sum();
        let directories: u64 = node.get_subdirectories().iter().map(|d| d.get_size()).sum();
        assert_eq!(node.get_size(), files + directories);
        for sub in node.get_subdirectories() {
            check(sub);
        }
    }
    check(&scan_quietly(small_tree));
    check(&scan_quietly(tree_with_a_locked_directory));
}

#[test]
fn scanning_twice_gives_the_same_tree() {
    let first = scan_quietly(tree_with_a_locked_directory);
    let second = scan_quietly(tree_with_a_locked_directory);
    assert_eq!(first, second);
    assert_eq!(first.to_string(), second.to_string());
    assert_ne!(first, scan_quietly(small_tree));
}

#[test]
fn cancellation_deep_in_the_tree_reaches_the_root() {
    let scanner = Scanner::new("root", "/root");
    let (scanner, _) = scanner.step(Event::Polled(false));
    let listing = vec![file("a", "/root", 5), dir("one", "/root"), dir("two", "/root")];
    let (scanner, _) = scanner.step(Event::Listed(Ok(listing)));
    let (scanner, _) = scanner.step(Event::Polled(false));
    let (scanner, action) = scanner.step(Event::Polled(false));
    expect_list(&action, "/root/one");
    let inner = vec![file("b", "/root/one", 10), dir("in", "/root/one")];
    let (scanner, _) = scanner.step(Event::Listed(Ok(inner)));
    let (scanner, action) = scanner.step(Event::Polled(false));
    expect_poll(&action);
    // The signal fires after the innermost directory was entered.
    let (scanner, action) = scanner.step(Event::Polled(true));
    assert!(matches!(action, Action::Done));
    let root = finished(scanner);
    assert_eq!(*root.get_error(), Some(ReadError::OperationCancelled));
    assert_eq!(root.get_size(), 15);
    assert_eq!(root.get_subdirectories().len(), 1);
    let one = &root.get_subdirectories()[0];
    assert_eq!(*one.get_error(), Some(ReadError::OperationCancelled));
    assert_eq!(one.get_size(), 10);
    assert_eq!(one.get_subdirectories().len(), 1);
    let innermost = &one.get_subdirectories()[0];
    assert_eq!(innermost.get_name(), "in");
    assert_eq!(*innermost.get_error(), Some(ReadError::OperationCancelled));
    assert_eq!(innermost.get_size(), 0);
}

#[test]
fn event_that_was_not_asked_for_changes_nothing() {
    let scanner = Scanner::new("root", "/root");
    let (scanner, action) = scanner.step(Event::Listed(Ok(vec![file("a", "/root", 1)])));
    expect_poll(&action);
    assert!(!scanner.is_finished());
    let (scanner, action) = scanner.step(Event::Polled(false));
    expect_list(&action, "/root");
    let (scanner, action) = scanner.step(Event::Polled(true));
    expect_list(&action, "/root");
    let (scanner, action) = scanner.step(Event::Listed(Ok(vec![file("a", "/root", 1)])));
    assert!(matches!(action, Action::Done));
    let (scanner, action) = scanner.step(Event::Polled(true));
    assert!(matches!(action, Action::Done));
    let root = finished(scanner);
    assert_eq!(root.get_size(), 1);
    assert_eq!(*root.get_error(), None);
}

#[test]
fn unfinished_scan_has_no_tree() {
    let scanner = Scanner::new("root", "/root");
    assert!(!scanner.is_finished());
    assert!(scanner.finish().is_none());
}

#[test]
fn repeated_names_are_kept_once() {
    let scanner = Scanner::new("root", "/root");
    let (scanner, _) = scanner.step(Event::Polled(false));
    let listing = vec![
        file("a", "/root", 5),
        dir("d", "/root"),
        file("a", "/root", 7),
        dir("d", "/root"),
        file("b", "/root", 1),
    ];
    let (scanner, _) = scanner.step(Event::Listed(Ok(listing)));
    let (scanner, _) = scanner.step(Event::Polled(false));
    let (scanner, _) = scanner.step(Event::Polled(false));
    let (scanner, action) = scanner.step(Event::Listed(Ok(vec![])));
    assert!(matches!(action, Action::Done));
    let root = finished(scanner);
    assert_eq!(root.get_files().len(), 2);
    assert_eq!(root.get_files()[0].get_size(), 5);
    assert_eq!(root.get_files()[1].get_name(), "b");
    assert_eq!(root.get_subdirectories().len(), 1);
    assert_eq!(root.get_size(), 6);
}

#[test]
fn sizes_beyond_the_largest_number_stop_there() {
    let scanner = Scanner::new("root", "/root");
    let (scanner, _) = scanner.step(Event::Polled(false));
    let listing = vec![file("a", "/root", u64::MAX - 1), file("b", "/root", 5), dir("d", "/root")];
    let (scanner, _) = scanner.step(Event::Listed(Ok(listing)));
    let (scanner, _) = scanner.step(Event::Polled(false));
    let (scanner, _) = scanner.step(Event::Polled(false));
    let (scanner, _) = scanner.step(Event::Listed(Ok(vec![file("c", "/root/d", 9)])));
    let root = finished(scanner);
    assert_eq!(root.get_size(), u64::MAX);
    assert_eq!(root.get_subdirectories()[0].get_size(), 9);
}

#[test]
fn root_is_named_by_the_last_component_of_its_path() {
    let scanner = read_dir("/var/log");
    expect_poll(&scanner.action());
    let (scanner, action) = scanner.step(Event::Polled(false));
    expect_list(&action, "/var/log");
    let (scanner, _) = scanner.step(Event::Listed(Ok(vec![])));
    let root = finished(scanner);
    assert_eq!(root.get_name(), "log");
    assert_eq!(root.get_path(), "/var/log");
    assert_eq!(*root.get_parent(), None);
}

#[test]
fn root_without_a_last_component_has_the_empty_name() {
    let (scanner, _) = read_dir("/").step(Event::Polled(true));
    let root = finished(scanner);
    assert_eq!(root.get_name(), "");
    assert_eq!(root.get_path(), "/");
}

#[test]
fn three_ways_for_a_scan_to_end_are_told_apart() {
    assert_eq!(scan_quietly(tree_with_a_locked_directory).outcome(), ScanOutcome::Complete);
    let (scanner, _) = Scanner::new("root", "/root").step(Event::Polled(false));
    let (scanner, _) = scanner.step(Event::Listed(Err(ErrorKind::PermissionDenied)));
    assert_eq!(finished(scanner).outcome(), ScanOutcome::Failed);
    let (scanner, _) = Scanner::new("root", "/root").step(Event::Polled(true));
    assert_eq!(finished(scanner).outcome(), ScanOutcome::Cancelled);
}

#[test]
fn scanner_polls_until_it_needs_a_listing() {
    let (_sender, cancel_checker) = channel::<()>();
    let (scanner, action) = Scanner::new("root", "/root").poll(&cancel_checker);
    expect_list(&action, "/root");
    let listing = vec![file("a.txt", "/root", 100), dir("sub", "/root")];
    let (scanner, action) = scanner.step(Event::Listed(Ok(listing)));
    expect_poll(&action);
    let (scanner, action) = scanner.poll(&cancel_checker);
    expect_list(&action, "/root/sub");
    let (scanner, action) = scanner.step(Event::Listed(Ok(vec![file("b.txt", "/root/sub", 50)])));
    assert!(matches!(action, Action::Done));
    let (scanner, action) = scanner.poll(&cancel_checker);
    assert!(matches!(action, Action::Done));
    assert_eq!(finished(scanner).get_size(), 150);
}

#[test]
fn fired_signal_is_seen_at_the_next_poll() {
    let (sender, cancel_checker) = channel::<()>();
    let (scanner, _) = Scanner::new("root", "/root").poll(&cancel_checker);
    let listing = vec![file("a.txt", "/root", 100), dir("sub", "/root"), dir("sub2", "/root")];
    let (scanner, _) = scanner.step(Event::Listed(Ok(listing)));
    let (scanner, _) = scanner.poll(&cancel_checker);
    let (scanner, action) = scanner.step(Event::Listed(Ok(vec![file("b.txt", "/root/sub", 50)])));
    expect_poll(&action);
    sender.send(()).unwrap();
    sender.send(()).unwrap();
    let (scanner, action) = scanner.poll(&cancel_checker);
    assert!(matches!(action, Action::Done));
    let root = finished(scanner);
    assert_eq!(*root.get_error(), Some(ReadError::OperationCancelled));
    assert_eq!(root.get_size(), 150);
    assert_eq!(root.get_subdirectories().len(), 1);
}

#[test]
fn signal_fired_before_the_scan_leaves_nothing_to_list() {
    let (sender, cancel_checker) = channel::<()>();
    sender.send(()).unwrap();
    let (scanner, action) = read_dir("/var/log").poll(&cancel_checker);
    assert!(matches!(action, Action::Done));
    let root = finished(scanner);
    assert_eq!(*root.get_error(), Some(ReadError::OperationCancelled));
    assert_eq!(root.get_size(), 0);
    assert!(root.get_files().is_empty());
    assert!(root.get_subdirectories().is_empty());
}

#[test]
fn signal_without_a_sender_never_fires() {
    let (sender, cancel_checker) = channel::<()>();
    drop(sender);
    let (_, action) = Scanner::new("root", "/root").poll(&cancel_checker);
    expect_list(&action, "/root");
}
