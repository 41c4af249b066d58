use disk_analyzer::mime::{extension_of, resolve_mime};

#[test]
fn extension_follows_the_last_dot() {
    assert_eq!(extension_of("a.txt"), "txt");
    assert_eq!(extension_of("archive.tar.gz"), "gz");
    assert_eq!(extension_of("a."), "");
    assert_eq!(extension_of("Makefile"), "");
    assert_eq!(extension_of(""), "");
    assert_eq!(extension_of("\u{e9}t\u{e9}.jp\u{e9}g"), "jp\u{e9}g");
}

#[test]
fn leading_dot_starts_no_extension() {
    assert_eq!(extension_of(".bashrc"), "");
    assert_eq!(extension_of(".config.toml"), "toml");
    assert_eq!(extension_of("."), "");
    assert_eq!(extension_of(".."), "");
}

#[test]
fn known_extensions_have_their_content_type() {
    assert_eq!(resolve_mime("photo.png"), "image/png");
    assert_eq!(resolve_mime("index.html"), "text/html");
    assert_eq!(resolve_mime("PHOTO.JPG"), "image/jpeg");
    assert_eq!(resolve_mime("data.json"), "application/json");
}

#[test]
fn unknown_extensions_are_plain_text() {
    assert_eq!(resolve_mime("Makefile"), "text/plain");
    assert_eq!(resolve_mime("a."), "text/plain");
    assert_eq!(resolve_mime(".bashrc"), "text/plain");
    assert_eq!(resolve_mime("file.surely-not-an-extension"), "text/plain");
    assert_eq!(resolve_mime("notes.txt"), "text/plain");
}

#[test]
fn content_type_agrees_with_the_guess_for_the_path() {
    for name in ["a.png", "b.tar.gz", "c", ".d", "e.", "f.PDF", "g.rs"] {
        let guessed = mime_guess::from_path(name).first_or_text_plain().to_string();
        assert_eq!(resolve_mime(name), guessed);
    }
}
