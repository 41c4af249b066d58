use disk_analyzer::entry::{
    classify_entries, collect_files, collect_subdirectories, Constrained, EntriesWithMetadata,
    Entry, EntryKind,
};
use std::io::ErrorKind;

fn entry(name: &str, metadata: Result<EntryKind, ErrorKind>) -> Entry {
    Entry { name: name.to_string(), path: format!("/top/{}", name), metadata }
}

fn mixed_listing() -> Vec<Entry> {
    vec![
        entry("notes.txt", Ok(EntryKind::File(12))),
        entry("photos", Ok(EntryKind::Directory)),
        entry("logo.png", Ok(EntryKind::File(3000))),
        entry("src", Ok(EntryKind::Directory)),
        entry("empty", Ok(EntryKind::File(0))),
    ]
}

#[test]
fn readable_entry_is_constrained() {
    let checked = EntriesWithMetadata::constrain(entry("a", Ok(EntryKind::File(1)))).unwrap();
    assert_eq!(checked.get_name(), "a");
    assert_eq!(checked.get_path(), "/top/a");
    assert_eq!(checked.get_kind(), EntryKind::File(1));
    let checked = EntriesWithMetadata::constrain(entry("d", Ok(EntryKind::Directory))).unwrap();
    assert_eq!(checked.get_kind(), EntryKind::Directory);
}

#[test]
fn unreadable_entry_is_refused_with_its_error() {
    let checked = EntriesWithMetadata::constrain(entry("a", Err(ErrorKind::PermissionDenied)));
    assert_eq!(checked.err(), Some(ErrorKind::PermissionDenied));
}

#[test]
fn listing_of_readable_entries_is_classified_whole() {
    let checked = classify_entries(&mixed_listing()).unwrap();
    assert_eq!(checked.len(), 5);
    let names: Vec<&str> = checked.iter().map(|e| e.get_name()).collect();
    assert_eq!(names, vec!["notes.txt", "photos", "logo.png", "src", "empty"]);
    assert_eq!(checked[2].get_kind(), EntryKind::File(3000));
    assert_eq!(classify_entries(&Vec::new()).unwrap().len(), 0);
}

#[test]
fn first_unreadable_entry_fails_the_listing() {
    let mut listing = mixed_listing();
    listing.insert(2, entry("gone", Err(ErrorKind::NotFound)));
    listing.push(entry("locked", Err(ErrorKind::PermissionDenied)));
    assert_eq!(classify_entries(&listing).err(), Some(ErrorKind::NotFound));
}

#[test]
fn files_are_collected_in_the_order_of_the_listing() {
    let checked = classify_entries(&mixed_listing()).unwrap();
    let files = collect_files(&checked);
    let seen: Vec<(&str, u64, &str)> =
        files.iter().map(|f| (f.get_name(), f.get_size(), f.get_mime())).collect();
    assert_eq!(
        seen,
        vec![
            ("notes.txt", 12, "text/plain"),
            ("logo.png", 3000, "image/png"),
            ("empty", 0, "text/plain"),
        ]
    );
}

#[test]
fn subdirectories_are_collected_with_their_paths() {
    let checked = classify_entries(&mixed_listing()).unwrap();
    let pending = collect_subdirectories(&checked);
    let seen: Vec<(&str, &str)> = pending.iter().map(|p| (p.get_name(), p.get_path())).collect();
    assert_eq!(seen, vec![("photos", "/top/photos"), ("src", "/top/src")]);
}

#[test]
fn first_of_several_entries_with_one_name_is_kept() {
    let listing = vec![
        entry("a", Ok(EntryKind::File(1))),
        entry("a", Ok(EntryKind::Directory)),
        entry("a", Ok(EntryKind::File(2))),
        Entry {
            name: "a".to_string(),
            path: "/other/a".to_string(),
            metadata: Ok(EntryKind::Directory),
        },
    ];
    let checked = classify_entries(&listing).unwrap();
    let files = collect_files(&checked);
    assert_eq!(files.len(), 1);
    assert_eq!(files[0].get_size(), 1);
    let pending = collect_subdirectories(&checked);
    assert_eq!(pending.len(), 1);
    assert_eq!(pending[0].get_path(), "/top/a");
}

#[test]
fn clone_of_an_entry_keeps_every_field() {
    let first = entry("a", Err(ErrorKind::Other));
    let copy = first.clone();
    assert_eq!(copy.name, "a");
    assert_eq!(copy.path, "/top/a");
    assert_eq!(copy.metadata, Err(ErrorKind::Other));
}
