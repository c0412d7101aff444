use arbor_git::git::commits::{commit_to_info, is_complete, GitActor};
use arbor_git::git::objects::{
    entry_kind, is_binary_content, make_person, read_commit, read_tree, EntryKind,
};
use arbor_git::git::trees::EntryType;
use arbor_git::host::Outcome;

#[test]
fn test_is_binary_content() {
    assert!(!is_binary_content(b"hello world"));
    assert!(!is_binary_content(b"fn main() {\n    println!(\"test\");\n}"));
    assert!(is_binary_content(b"\x00\x01\x02\x03"));
    assert!(is_binary_content(b"PNG\x00\x00\x00"));
}

#[test]
fn only_the_first_bytes_show_what_is_binary() {
    let mut data = vec![b'a'; 8192];
    data.push(0);
    assert!(!is_binary_content(&data));
    data[8191] = 0;
    assert!(is_binary_content(&data));
    assert!(!is_binary_content(b""));
}

#[test]
fn test_entry_type_from_kind() {
    assert_eq!(EntryType::from(EntryKind::Blob), EntryType::Blob);
    assert_eq!(EntryType::from(EntryKind::BlobExecutable), EntryType::Blob);
    assert_eq!(EntryType::from(EntryKind::Tree), EntryType::Tree);
    assert_eq!(EntryType::from(EntryKind::Commit), EntryType::Commit);
    assert_eq!(EntryType::from(EntryKind::Link), EntryType::Link);
}

#[test]
fn modes_have_kinds() {
    assert_eq!(entry_kind(0o100644), EntryKind::Blob);
    assert_eq!(entry_kind(0o100755), EntryKind::BlobExecutable);
    assert_eq!(entry_kind(0o120000), EntryKind::Link);
    assert_eq!(entry_kind(0o040000), EntryKind::Tree);
    assert_eq!(entry_kind(0o160000), EntryKind::Commit);
    assert_eq!(entry_kind(0), EntryKind::Commit);
}

#[test]
fn test_git_actor_creation() {
    let actor = GitActor {
        name: "Test User".to_string(),
        email: "test@example.com".to_string(),
        timestamp: 1704067200,
        offset_minutes: 0,
    };

    assert_eq!(actor.name, "Test User");
    assert_eq!(actor.email, "test@example.com");
}

const TREE: &str = "4b825dc642cb6eb9a060e54bf8d69288fbee4904";
const PARENT: &str = "0123456789abcdef0123456789abcdef01234567";

#[test]
fn a_commit_is_read_from_its_bytes() {
    let data = format!(
        "tree {TREE}\nparent {PARENT}\nauthor Ann <ann@example.com> 1700000000 +0100\ncommitter  Bob  <bob@example.com> 1700000001 -0030\n\nA title\n\nA body\n"
    );
    let record = read_commit(data.as_bytes());
    assert!(matches!(&record.tree, Outcome::Got(tree) if tree == TREE));
    assert_eq!(record.parents, vec![PARENT]);
    let author = record.author.as_ref().unwrap();
    assert_eq!(author.name, "Ann");
    assert_eq!(author.email, "ann@example.com");
    assert_eq!(author.timestamp, 1700000000);
    assert_eq!(author.offset_minutes, 3600);
    let committer = record.committer.as_ref().unwrap();
    assert_eq!(committer.name, "Bob");
    assert_eq!(committer.timestamp, 1700000001);
    assert_eq!(committer.offset_minutes, -1800);
    assert_eq!(record.title, "A title");
    assert!(is_complete(&record));
    let info = commit_to_info(PARENT, &record);
    assert_eq!(info.oid, PARENT);
    assert_eq!(info.message, "A title");
    assert_eq!(info.tree_oid, TREE);
    assert_eq!(info.parent_oids, vec![PARENT]);
    assert_eq!(info.author.name, "Ann");
    assert_eq!(info.committer.email, "bob@example.com");
}

#[test]
fn bytes_that_are_no_commit_are_not_complete() {
    let record = read_commit(b"nonsense");
    assert!(matches!(record.tree, Outcome::Error(_)));
    assert!(record.parents.is_empty());
    assert!(record.author.is_none());
    assert!(record.committer.is_none());
    assert_eq!(record.title, "");
    assert!(!is_complete(&record));
}

#[test]
fn a_tree_is_read_from_its_bytes() {
    let mut data: Vec<u8> = Vec::new();
    data.extend_from_slice(b"100644 a.txt\0");
    data.extend_from_slice(&[0x11; 20]);
    data.extend_from_slice(b"40000 dir\0");
    data.extend_from_slice(&[0xab; 20]);
    let items = read_tree(&data);
    assert_eq!(items.len(), 2);
    match (&items[0], &items[1]) {
        (Outcome::Got(file), Outcome::Got(dir)) => {
            assert_eq!(file.name, "a.txt");
            assert_eq!(file.mode, 0o100644);
            assert_eq!(file.oid, "11".repeat(20));
            assert_eq!(dir.name, "dir");
            assert_eq!(dir.mode, 0o040000);
            assert_eq!(dir.oid, "ab".repeat(20));
        }
        _ => panic!("both entries can be read"),
    }
    data.truncate(30);
    assert!(matches!(read_tree(&data).last(), Some(Outcome::Error(_))));
    assert!(read_tree(b"").is_empty());
}

#[test]
fn a_person_without_a_time_is_not_told() {
    let ann = make_person("Ann".to_string(), "a@b".to_string(), Some((5, -60))).unwrap();
    assert_eq!((ann.name.as_str(), ann.email.as_str()), ("Ann", "a@b"));
    assert_eq!((ann.timestamp, ann.offset_minutes), (5, -60));
    assert!(make_person("Ann".to_string(), "a@b".to_string(), None).is_none());

    // a time that spells none, and a signature whose parts have whitespace round them
    let data = format!(
        "tree {TREE}\nauthor Ann <a@b> +-\ncommitter  B\u{f6}b  < b@c > 7 +0000\n\n\tT \n"
    );
    let record = read_commit(data.as_bytes());
    assert!(record.author.is_none());
    let committer = record.committer.as_ref().unwrap();
    assert_eq!((committer.name.as_str(), committer.email.as_str()), ("B\u{f6}b", "b@c"));
    assert_eq!((committer.timestamp, committer.offset_minutes), (7, 0));
    assert!(!is_complete(&record));
    assert!(record.title.contains('T'));
}
