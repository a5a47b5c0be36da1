use vault::file::File;
use vault::store::{DuplicateKey, FileSystem, NotFound};

fn file(name: &str, extension: &str, content: &[u8]) -> File {
    File::new(name.to_string(), extension.to_string(), content.to_vec())
}

fn names(fs: &FileSystem) -> Vec<String> {
    fs.list().iter().map(|f| format!("{}.{}", f.name, f.extension)).collect()
}

#[test]
fn new_store_is_empty() {
    let fs = FileSystem::new();
    assert!(fs.list().is_empty());
    assert!(!fs.file_exists(&"a".to_string(), &"txt".to_string()));
}

#[test]
fn added_file_is_found() {
    let mut fs = FileSystem::new();
    assert_eq!(fs.add_file(file("a", "txt", b"one"), false), Ok(()));
    assert!(fs.file_exists(&"a".to_string(), &"txt".to_string()));
    assert_eq!(
        fs.get_file(&"a".to_string(), &"txt".to_string()),
        Ok(&file("a", "txt", b"one"))
    );
}

#[test]
fn key_is_name_and_extension_together() {
    let mut fs = FileSystem::new();
    fs.add_file(file("a", "txt", b"one"), false).unwrap();
    assert!(!fs.file_exists(&"a".to_string(), &"md".to_string()));
    assert!(!fs.file_exists(&"b".to_string(), &"txt".to_string()));
    assert!(!fs.file_exists(&"txt".to_string(), &"a".to_string()));
    assert!(!fs.file_exists(&"A".to_string(), &"txt".to_string()));
    assert_eq!(fs.add_file(file("a", "md", b"two"), false), Ok(()));
    assert_eq!(fs.add_file(file("b", "txt", b"three"), false), Ok(()));
    assert_eq!(names(&fs), vec!["a.txt", "a.md", "b.txt"]);
}

#[test]
fn files_are_listed_in_the_order_of_adding() {
    let mut fs = FileSystem::new();
    for name in ["z", "m", "a", "q"] {
        fs.add_file(file(name, "bin", name.as_bytes()), false).unwrap();
    }
    assert_eq!(names(&fs), vec!["z.bin", "m.bin", "a.bin", "q.bin"]);
}

#[test]
fn duplicate_without_overwrite_is_refused_and_changes_nothing() {
    let mut fs = FileSystem::new();
    fs.add_file(file("a", "txt", b"old"), false).unwrap();
    fs.add_file(file("b", "txt", b"other"), false).unwrap();
    let before: Vec<File> = fs.list().clone();
    assert_eq!(fs.add_file(file("a", "txt", b"new"), false), Err(DuplicateKey));
    assert_eq!(fs.list(), &before);
    assert_eq!(fs.list().len(), 2);
    assert_eq!(
        fs.get_file(&"a".to_string(), &"txt".to_string()).unwrap().content,
        b"old".to_vec()
    );
}

#[test]
fn keys_stay_distinct_over_many_adds() {
    let mut fs = FileSystem::new();
    let mut accepted = 0;
    for round in 0..3 {
        for name in ["a", "b", "c"] {
            for extension in ["txt", "md"] {
                if fs.add_file(file(name, extension, &[round]), false).is_ok() {
                    accepted += 1;
                }
            }
        }
    }
    assert_eq!(accepted, 6);
    assert_eq!(fs.list().len(), 6);
    let listed = names(&fs);
    for (i, one) in listed.iter().enumerate() {
        for other in &listed[i + 1..] {
            assert_ne!(one, other);
        }
    }
    for f in fs.list() {
        assert_eq!(f.content, vec![0]);
    }
}

#[test]
fn overwrite_replaces_the_file() {
    let mut fs = FileSystem::new();
    fs.add_file(file("a", "txt", b"old"), false).unwrap();
    fs.add_file(file("b", "txt", b"other"), false).unwrap();
    assert_eq!(fs.add_file(file("a", "txt", b"new"), true), Ok(()));
    let with_key: Vec<&File> = fs
        .list()
        .iter()
        .filter(|f| f.name == "a" && f.extension == "txt")
        .collect();
    assert_eq!(with_key.len(), 1);
    assert_eq!(with_key[0].content, b"new".to_vec());
    assert_eq!(fs.list().len(), 2);
}

#[test]
fn overwritten_file_moves_to_the_end() {
    let mut fs = FileSystem::new();
    fs.add_file(file("a", "txt", b"old"), false).unwrap();
    fs.add_file(file("b", "txt", b"other"), false).unwrap();
    fs.add_file(file("c", "txt", b"third"), false).unwrap();
    fs.add_file(file("a", "txt", b"new"), true).unwrap();
    assert_eq!(names(&fs), vec!["b.txt", "c.txt", "a.txt"]);
}

#[test]
fn overwrite_of_an_absent_file_appends_it() {
    let mut fs = FileSystem::new();
    fs.add_file(file("a", "txt", b"one"), false).unwrap();
    assert_eq!(fs.add_file(file("b", "txt", b"two"), true), Ok(()));
    assert_eq!(names(&fs), vec!["a.txt", "b.txt"]);
}

#[test]
fn get_of_an_absent_file_is_not_found() {
    let mut fs = FileSystem::new();
    assert_eq!(fs.get_file(&"a".to_string(), &"txt".to_string()), Err(NotFound));
    fs.add_file(file("a", "txt", b"one"), false).unwrap();
    assert_eq!(fs.get_file(&"a".to_string(), &"md".to_string()), Err(NotFound));
    assert_eq!(fs.get_file(&"b".to_string(), &"txt".to_string()), Err(NotFound));
    assert_eq!(fs.list().len(), 1);
}

#[test]
fn delete_removes_the_file() {
    let mut fs = FileSystem::new();
    fs.add_file(file("a", "txt", b"one"), false).unwrap();
    assert_eq!(fs.delete_file(&"a".to_string(), &"txt".to_string()), Ok(()));
    assert!(fs.list().is_empty());
    assert!(!fs.file_exists(&"a".to_string(), &"txt".to_string()));
}

#[test]
fn delete_leaves_the_same_name_with_another_extension() {
    let mut fs = FileSystem::new();
    fs.add_file(file("a", "txt", b"text"), false).unwrap();
    fs.add_file(file("a", "md", b"mark"), false).unwrap();
    assert_eq!(fs.delete_file(&"a".to_string(), &"txt".to_string()), Ok(()));
    assert_eq!(fs.list(), &vec![file("a", "md", b"mark")]);
    assert!(fs.file_exists(&"a".to_string(), &"md".to_string()));
}

#[test]
fn delete_leaves_every_other_file_untouched() {
    let mut fs = FileSystem::new();
    fs.add_file(file("a", "md", b"1"), false).unwrap();
    fs.add_file(file("b", "txt", b"2"), false).unwrap();
    fs.add_file(file("a", "txt", b"3"), false).unwrap();
    fs.add_file(file("b", "md", b"4"), false).unwrap();
    fs.add_file(file("c", "rs", b"5"), false).unwrap();
    assert_eq!(fs.delete_file(&"a".to_string(), &"txt".to_string()), Ok(()));
    assert_eq!(
        fs.list(),
        &vec![
            file("a", "md", b"1"),
            file("b", "txt", b"2"),
            file("b", "md", b"4"),
            file("c", "rs", b"5"),
        ]
    );
}

#[test]
fn delete_of_an_absent_file_changes_nothing() {
    let mut fs = FileSystem::new();
    fs.add_file(file("a", "txt", b"one"), false).unwrap();
    fs.add_file(file("b", "md", b"two"), false).unwrap();
    let before: Vec<File> = fs.list().clone();
    assert_eq!(fs.delete_file(&"a".to_string(), &"md".to_string()), Err(NotFound));
    assert_eq!(fs.delete_file(&"c".to_string(), &"txt".to_string()), Err(NotFound));
    assert_eq!(fs.list(), &before);
    let mut empty = FileSystem::new();
    assert_eq!(empty.delete_file(&"a".to_string(), &"txt".to_string()), Err(NotFound));
    assert!(empty.list().is_empty());
}

#[test]
fn deleted_file_can_be_added_again() {
    let mut fs = FileSystem::new();
    fs.add_file(file("a", "txt", b"one"), false).unwrap();
    fs.add_file(file("b", "txt", b"two"), false).unwrap();
    fs.delete_file(&"a".to_string(), &"txt".to_string()).unwrap();
    assert_eq!(fs.add_file(file("a", "txt", b"again"), false), Ok(()));
    assert_eq!(names(&fs), vec!["b.txt", "a.txt"]);
}

#[test]
fn empty_name_and_extension_are_taken_as_they_are() {
    let mut fs = FileSystem::new();
    assert_eq!(fs.add_file(file("", "", b""), false), Ok(()));
    assert!(fs.file_exists(&String::new(), &String::new()));
    assert_eq!(fs.add_file(file("", "", b"x"), false), Err(DuplicateKey));
}

#[test]
fn store_errors_in_words() {
    assert_eq!(DuplicateKey.message(), "file already exists");
    assert_eq!(NotFound.message(), "file does not exist");
}
