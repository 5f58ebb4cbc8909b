use bookmark::bookmark::{Bookmark, Manager, Stored, BOOKMARK_PATH};
use bookmark::error::BookmarkError;

fn three() -> Vec<Bookmark> {
    vec![
        Bookmark::new("test1", "/tmp/test1"),
        Bookmark::new("test2", "/tmp/test2"),
        Bookmark::new("test3", "/tmp/test3"),
    ]
}

fn manager_at(file_path: &str) -> Manager {
    Manager {
        file_path: file_path.to_string(),
    }
}

#[test]
fn test_read_bookmarks_not_found_file() {
    let manager = manager_at("/tmp/test_read_bookmarks_not_found.json");
    let bookmarks = manager.read_bookmarks(Stored::Missing).unwrap();
    assert!(bookmarks.is_empty());
}

#[test]
fn test_read_bookmarks() {
    let manager = manager_at("/tmp/test_read_bookmarks.json");
    let bookmarks = manager.read_bookmarks(Stored::Bookmarks(three())).unwrap();
    assert_eq!(bookmarks.len(), 3);
    assert_eq!(bookmarks[0].name, "test1");
    assert_eq!(bookmarks[0].path, "/tmp/test1");
    assert_eq!(bookmarks[1].name, "test2");
    assert_eq!(bookmarks[1].path, "/tmp/test2");
    assert_eq!(bookmarks[2].name, "test3");
    assert_eq!(bookmarks[2].path, "/tmp/test3");
}

#[test]
fn test_add_bookmark_to_empty_file() {
    let name = "test4";
    let path = "/tmp";
    let manager = manager_at("/tmp/test_add_bookmark_to_empty_file.json");
    let mut bookmarks = manager.read_bookmarks(Stored::Missing).unwrap();
    manager.add_bookmark(&mut bookmarks, name, path).unwrap();
    assert_eq!(bookmarks.len(), 1);
    assert_eq!(&bookmarks[0].name, &name);
    assert_eq!(&bookmarks[0].path, &path);
}

#[test]
fn test_add_bookmark_to_not_empty_file() {
    let name = "test4";
    let path = "/tmp";
    let manager = manager_at("/tmp/test_add_bookmark_to_not_empty_file.json");
    let mut bookmarks = manager.read_bookmarks(Stored::Bookmarks(three())).unwrap();
    manager.add_bookmark(&mut bookmarks, name, path).unwrap();
    assert_eq!(bookmarks.len(), 4);
    assert_eq!(&bookmarks[..3], &three()[..]);
    assert_eq!(&bookmarks[3].name, &name);
    assert_eq!(&bookmarks[3].path, &path);
}

#[test]
#[should_panic(expected = "test3 is already registered. (test3 = /tmp/test3)")]
fn test_add_bookmark_already_registered() {
    let manager = manager_at("/tmp/test_add_bookmark_already_registered.json");
    let mut bookmarks = manager.read_bookmarks(Stored::Bookmarks(three())).unwrap();
    if let Err(e) = manager.add_bookmark(&mut bookmarks, "test3", "/tmp") {
        panic!("{}", e.message());
    }
}

#[test]
fn test_remove_bookmark() {
    let manager = manager_at("/tmp/test_remove_bookmark.json");
    let mut bookmarks = manager.read_bookmarks(Stored::Bookmarks(three())).unwrap();
    manager.remove_bookmark(&mut bookmarks, "test2").unwrap();
    let expected = vec![
        Bookmark::new("test1", "/tmp/test1"),
        Bookmark::new("test3", "/tmp/test3"),
    ];
    assert_eq!(bookmarks, expected);
}

#[test]
#[should_panic(expected = "test4 is not found.")]
fn test_remove_bookmark_not_found() {
    let manager = manager_at("/tmp/test_remove_bookmark_not_found.json");
    let mut bookmarks = manager.read_bookmarks(Stored::Bookmarks(three())).unwrap();
    if let Err(e) = manager.remove_bookmark(&mut bookmarks, "test4") {
        panic!("{}", e.message());
    }
}

#[test]
fn test_get_bookmark() {
    let manager = manager_at("/tmp/test_get_bookmark.json");
    let bookmarks = manager.read_bookmarks(Stored::Bookmarks(three())).unwrap();
    let bookmark = manager.get_bookmark(&bookmarks, "test3").unwrap();
    assert_eq!(bookmark, "/tmp/test3");
}

#[test]
#[should_panic(expected = "test4 is not found.")]
fn test_get_bookmark_is_not_found() {
    let manager = manager_at("/tmp/test_get_bookmark_is_not_found.json");
    let bookmarks = manager.read_bookmarks(Stored::Bookmarks(three())).unwrap();
    if let Err(e) = manager.get_bookmark(&bookmarks, "test4") {
        panic!("{}", e.message());
    }
}

#[test]
fn bookmark_new_keeps_name_and_path() {
    let bookmark = Bookmark::new("proj", "/srv/proj");
    assert_eq!(bookmark.name, "proj");
    assert_eq!(bookmark.path, "/srv/proj");
    assert_ne!(bookmark.name, bookmark.path);
}

#[test]
fn manager_new_places_the_file_below_home() {
    let manager = Manager::new("/home/alice");
    assert_eq!(manager.file_path, "/home/alice/.cache/bm-bookmark");
    assert_eq!(BOOKMARK_PATH, ".cache/bm-bookmark");
    assert_eq!(Manager::new("").file_path, "/.cache/bm-bookmark");
}

#[test]
fn read_bookmarks_reports_an_unreadable_file() {
    let manager = Manager::new("/home/alice");
    let loaded = manager.read_bookmarks(Stored::Unreadable("Permission denied".to_string()));
    assert_eq!(
        loaded,
        Err(BookmarkError::Io {
            reason: "Permission denied".to_string()
        })
    );
}

#[test]
fn read_bookmarks_reports_a_corrupt_file() {
    let manager = Manager::new("/home/alice");
    let loaded = manager.read_bookmarks(Stored::Corrupt("expected value at line 1".to_string()));
    assert_eq!(
        loaded,
        Err(BookmarkError::Decode {
            reason: "expected value at line 1".to_string()
        })
    );
}

#[test]
fn read_bookmarks_keeps_order_and_duplicates() {
    let manager = Manager::new("/home/alice");
    let list = vec![
        Bookmark::new("b", "/2"),
        Bookmark::new("a", "/1"),
        Bookmark::new("b", "/3"),
    ];
    let loaded = manager.read_bookmarks(Stored::Bookmarks(list.clone())).unwrap();
    assert_eq!(loaded, list);
}

#[test]
fn find_returns_each_inserted_path() {
    let manager = Manager::new("/home/alice");
    let items = [
        ("alpha", "/a"),
        ("beta", "/b"),
        ("gamma", "/c"),
        ("delta", "/a"),
    ];
    let mut bookmarks = Vec::new();
    for (name, path) in items.iter() {
        assert_eq!(manager.add_bookmark(&mut bookmarks, name, path), Ok(()));
    }
    assert_eq!(bookmarks.len(), items.len());
    for (i, (name, path)) in items.iter().enumerate() {
        assert_eq!(bookmarks[i], Bookmark::new(name, path));
        assert_eq!(manager.get_bookmark(&bookmarks, name), Ok(path.to_string()));
    }
}

#[test]
fn duplicate_name_fails_and_changes_nothing() {
    let manager = Manager::new("/home/alice");
    let mut bookmarks = three();
    let done = manager.add_bookmark(&mut bookmarks, "test2", "/elsewhere");
    assert_eq!(
        done,
        Err(BookmarkError::DuplicateName {
            name: "test2".to_string(),
            path: "/tmp/test2".to_string()
        })
    );
    assert_eq!(bookmarks, three());
}

#[test]
fn removing_a_missing_name_fails_and_changes_nothing() {
    let manager = Manager::new("/home/alice");
    let mut bookmarks = three();
    let done = manager.remove_bookmark(&mut bookmarks, "test9");
    assert_eq!(
        done,
        Err(BookmarkError::NotFound {
            name: "test9".to_string()
        })
    );
    assert_eq!(bookmarks, three());

    let mut empty: Vec<Bookmark> = Vec::new();
    assert_eq!(
        manager.remove_bookmark(&mut empty, "test1"),
        Err(BookmarkError::NotFound {
            name: "test1".to_string()
        })
    );
    assert!(empty.is_empty());
}

#[test]
fn insert_then_remove_restores_the_collection() {
    let manager = Manager::new("/home/alice");
    let mut bookmarks = three();
    assert_eq!(manager.add_bookmark(&mut bookmarks, "extra", "/opt"), Ok(()));
    assert_ne!(bookmarks, three());
    assert_eq!(manager.remove_bookmark(&mut bookmarks, "extra"), Ok(()));
    assert_eq!(bookmarks, three());
}

#[test]
fn get_bookmark_reports_a_missing_name() {
    let manager = Manager::new("/home/alice");
    assert_eq!(
        manager.get_bookmark(&three(), "test4"),
        Err(BookmarkError::NotFound {
            name: "test4".to_string()
        })
    );
    assert_eq!(
        manager.get_bookmark(&Vec::new(), "test1"),
        Err(BookmarkError::NotFound {
            name: "test1".to_string()
        })
    );
}

#[test]
fn names_match_exactly() {
    let manager = Manager::new("/home/alice");
    let mut bookmarks = three();
    assert!(manager.get_bookmark(&bookmarks, "Test1").is_err());
    assert!(manager.get_bookmark(&bookmarks, "test").is_err());
    assert!(manager.get_bookmark(&bookmarks, "test1 ").is_err());
    assert!(manager.get_bookmark(&bookmarks, "").is_err());
    assert_eq!(manager.add_bookmark(&mut bookmarks, "Test1", "/upper"), Ok(()));
    assert_eq!(manager.get_bookmark(&bookmarks, "test1"), Ok("/tmp/test1".to_string()));
    assert_eq!(manager.get_bookmark(&bookmarks, "Test1"), Ok("/upper".to_string()));
}

#[test]
fn the_first_of_two_equal_names_is_found_and_removed() {
    let manager = Manager::new("/home/alice");
    let mut bookmarks = vec![
        Bookmark::new("a", "/1"),
        Bookmark::new("b", "/2"),
        Bookmark::new("a", "/3"),
    ];
    assert_eq!(manager.get_bookmark(&bookmarks, "a"), Ok("/1".to_string()));
    assert_eq!(
        manager.add_bookmark(&mut bookmarks, "a", "/4"),
        Err(BookmarkError::DuplicateName {
            name: "a".to_string(),
            path: "/1".to_string()
        })
    );
    assert_eq!(manager.remove_bookmark(&mut bookmarks, "a"), Ok(()));
    assert_eq!(
        bookmarks,
        vec![Bookmark::new("b", "/2"), Bookmark::new("a", "/3")]
    );
    assert_eq!(manager.get_bookmark(&bookmarks, "a"), Ok("/3".to_string()));
}

#[test]
fn remove_keeps_the_order_of_the_rest() {
    let manager = Manager::new("/home/alice");
    let mut bookmarks = vec![
        Bookmark::new("a", "/1"),
        Bookmark::new("b", "/2"),
        Bookmark::new("c", "/3"),
    ];
    assert_eq!(manager.remove_bookmark(&mut bookmarks, "b"), Ok(()));
    assert_eq!(
        bookmarks,
        vec![Bookmark::new("a", "/1"), Bookmark::new("c", "/3")]
    );
    assert_eq!(manager.remove_bookmark(&mut bookmarks, "a"), Ok(()));
    assert_eq!(bookmarks, vec![Bookmark::new("c", "/3")]);
    assert_eq!(manager.remove_bookmark(&mut bookmarks, "c"), Ok(()));
    assert!(bookmarks.is_empty());
}
