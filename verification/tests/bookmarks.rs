use pickle::desktop::bookmarks::{
    Bookmark, BookmarkError, BookmarkInput, Bookmarks, StoredBookmarks,
};
use pickle::identity::keystore::FileRead;

fn open(file: FileRead<StoredBookmarks>) -> Result<Bookmarks, BookmarkError> {
    Bookmarks::open("bookmarks.json", file)
}

fn nothing() -> FileRead<StoredBookmarks> {
    FileRead::Missing("not found".into())
}

fn written(stored: StoredBookmarks) -> FileRead<StoredBookmarks> {
    FileRead::Read {
        mode: Some(0o100600),
        document: Some(stored),
    }
}

fn input(label: &str, address: &str) -> BookmarkInput {
    BookmarkInput {
        label: label.into(),
        address: address.into(),
        password: None,
        identity: None,
    }
}

#[test]
fn save_then_open_round_trips() {

    let mut store = open(nothing()).unwrap();
    store.add(input("Friends", "example.com:42071"));
    store.add(BookmarkInput {
        password: Some("hunter2".into()),
        identity: Some("abc123".into()),
        ..input("Work", "10.0.0.5")
    });
    let file = store.stored();

    let reopened = open(written(file)).unwrap();
    assert_eq!(reopened.list().len(), 2);
    assert_eq!(reopened.list()[0].label, "Friends");
    assert_eq!(reopened.list()[1].password.as_deref(), Some("hunter2"));
    assert_eq!(reopened.list()[1].identity.as_deref(), Some("abc123"));
}

#[test]
fn a_missing_file_opens_as_an_empty_store() {
    let store = open(nothing()).unwrap();
    assert!(store.list().is_empty());
}

#[test]
fn ids_are_not_reused_after_a_removal() {
    // A stale reference must fail to resolve rather than address whichever
    // server happened to take the freed id.
    let mut store = open(nothing()).unwrap();

    let first = store.add(input("One", "a")).id;
    let second = store.add(input("Two", "b")).id;
    assert!(store.remove(second));

    let third = store.add(input("Three", "c")).id;
    assert_ne!(third, second);
    assert_ne!(third, first);
}

#[test]
fn ids_are_not_reused_across_a_reopen() {
    // The counter has to survive on disk; deriving it from the entries on
    // load would reuse the id of whichever bookmark was deleted last.

    let mut store = open(nothing()).unwrap();
    store.add(input("One", "a"));
    let second = store.add(input("Two", "b")).id;
    store.remove(second);
    let file = store.stored();

    let mut reopened = open(written(file)).unwrap();
    assert_ne!(reopened.add(input("Three", "c")).id, second);
}

#[test]
fn a_counter_behind_the_entries_is_corrected_on_load() {
    // Guards against a hand-edited file handing out a colliding id.
    let file = StoredBookmarks {
        version: 1,
        next_id: 1,
        entries: vec![Bookmark {
            id: 7,
            label: "One".into(),
            address: "a".into(),
            password: None,
            identity: None,
        }],
    };

    let mut store = open(written(file)).unwrap();
    assert_eq!(store.add(input("Two", "b")).id, 8);
}

#[test]
fn removing_an_absent_bookmark_reports_it() {
    let mut store = open(nothing()).unwrap();
    assert!(!store.remove(99));
}

#[test]
fn updating_an_absent_bookmark_is_an_error() {
    let mut store = open(nothing()).unwrap();
    assert!(matches!(
        store.update(99, input("x", "y")),
        Err(BookmarkError::NotFound(99))
    ));
}

#[test]
fn an_empty_password_is_stored_as_absent() {
    // Otherwise the connect form would send "" and look like a remembered
    // password that happens to be blank.
    let mut store = open(nothing()).unwrap();
    let added = store.add(BookmarkInput {
        password: Some(String::new()),
        ..input("One", "a")
    });
    assert_eq!(added.password, None);
}

#[test]
fn opening_a_world_readable_file_is_refused() {

    let mut store = open(nothing()).unwrap();
    store.add(input("One", "a"));
    let file = store.stored();
    let file = FileRead::Read {
        mode: Some(0o100644),
        document: Some(file),
    };

    assert!(matches!(
        open(file),
        Err(BookmarkError::PermissionsTooOpen { .. })
    ));
}

#[test]
fn a_future_version_is_refused_rather_than_silently_emptied() {

    let mut store = open(nothing()).unwrap();
    store.add(input("One", "a"));
    let mut file = store.stored();

    file.version = 99;

    assert!(matches!(
        open(written(file)),
        Err(BookmarkError::UnsupportedVersion { found: 99, .. })
    ));
}

#[test]
fn an_edit_keeps_the_id_and_replaces_the_rest() {
    let mut store = open(nothing()).unwrap();
    let id = store.add(input("One", "a")).id;
    store.add(input("Two", "b"));
    let edited = store.update(id, input("Uno", "c")).unwrap();
    assert_eq!(edited.id, id);
    assert_eq!(edited.label, "Uno");
    assert_eq!(store.list()[0].address, "c");
    assert_eq!(store.list()[1].address, "b");
}

#[test]
fn unreadable_bookmarks_say_why() {
    assert!(matches!(
        open(FileRead::Failed("disk on fire".into())),
        Err(BookmarkError::Io { .. })
    ));
    let garbage = FileRead::Read {
        mode: Some(0o600),
        document: None,
    };
    assert!(matches!(open(garbage), Err(BookmarkError::Malformed(_))));
    assert_eq!(BookmarkError::NotFound(9).message().contains('9'), true);
}

#[test]
fn a_new_id_is_above_every_id_ever_used() {
    let mut store = open(nothing()).unwrap();
    let mut highest = 0;
    for round in 0..4 {
        for _ in 0..3 {
            let id = store.add(input("x", "example.com")).id;
            assert!(id > highest);
            highest = id;
        }
        assert!(store.remove(highest));
        assert!(store.update(1, input("y", "example.org")).is_ok());
        store = open(written(store.stored())).unwrap();
        assert_eq!(store.list().len(), 2 * (round + 1));
    }
}
