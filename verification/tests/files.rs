use botkit::file_key::{
    entry_key, key_from_str, key_to_string, DotJson, FileKeyError, FileKeySerializer,
};
use botkit::multifile_db::{Load, LoadEvent, MultifileDb};

fn name(pk: u64) -> String {
    <DotJson as FileKeySerializer<u64>>::to_string(pk)
}

fn key(s: &str) -> Option<u64> {
    <DotJson as FileKeySerializer<u64>>::from_str(s).ok()
}

fn step(load: Load<u64, &'static str, i32>, event: LoadEvent<&'static str, i32>) -> Load<u64, &'static str, i32> {
    load.step::<DotJson>(event)
}

fn entry(name: &str) -> LoadEvent<&'static str, i32> {
    LoadEvent::Entry(Some(name.as_bytes().to_vec()))
}

#[test]
fn a_key_names_its_file() {
    assert_eq!(key_to_string(&42), "42.json");
    assert_eq!(key_to_string(&"guild"), "guild.json");
    assert_eq!(name(0), "0.json");
    assert_eq!(name(1234567890), "1234567890.json");
    assert_eq!(name(u64::MAX), "18446744073709551615.json");
}

#[test]
fn a_file_names_its_key() {
    assert_eq!(key("42.json"), Some(42));
    assert_eq!(key("+42.json"), Some(42));
    assert_eq!(key("007.json"), Some(7));
    assert_eq!(key("18446744073709551615.json"), Some(u64::MAX));
    assert_eq!(key_from_str("42.json", |s| s.parse::<i8>()), Ok(42));
}

#[test]
fn other_files_name_no_key() {
    assert_eq!(key(".json"), None);
    assert_eq!(key("+.json"), None);
    assert_eq!(key("-0.json"), None);
    assert_eq!(key("4 2.json"), None);
    assert_eq!(key("42.json.json"), None);
    assert_eq!(key("18446744073709551616.json"), None);
    assert_eq!(key("json"), None);
    assert_eq!(key(""), None);
}

#[test]
fn errors_say_what_is_wrong() {
    assert_eq!(
        <DotJson as FileKeySerializer<u64>>::from_str("42.txt"),
        Err(FileKeyError::NotJson { message: "not json: 42.txt".to_string() })
    );
    assert_eq!(
        <DotJson as FileKeySerializer<u64>>::from_str("forty.json"),
        Err(FileKeyError::Parse("forty".parse::<u64>().unwrap_err()))
    );
}

#[test]
fn names_are_read_back() {
    for pk in [0, 9, 10, 99, 100, 184467440737095, u64::MAX] {
        assert_eq!(key(&name(pk)), Some(pk));
        assert_eq!(entry_key::<u64, DotJson>(name(pk).as_bytes()), Some(pk));
    }
}

#[test]
fn names_that_are_not_text_are_no_keys() {
    assert_eq!(entry_key::<u64, DotJson>(b"\xff.json"), None);
    assert_eq!(entry_key::<u64, DotJson>("é.json".as_bytes()), None);
    assert_eq!(entry_key::<u64, DotJson>(b"5.json"), Some(5));
}

#[test]
fn a_database_is_opened_once() {
    let mut dbs: MultifileDb<u64, &str> = MultifileDb::new();
    assert!(dbs.get(&3).is_none());
    assert_eq!(dbs.get_or_default::<DotJson>(3), Some("3.json".to_string()));
    dbs.opened(3, "three");
    assert_eq!(dbs.get_or_default::<DotJson>(3), None);
    assert_eq!(dbs.get(&3), Some(&"three"));
    assert!(dbs.get(&4).is_none());
}

#[test]
fn all_databases_can_be_looked_at() {
    let mut dbs: MultifileDb<u64, &str> = MultifileDb::new();
    assert!(dbs.iter_guard().iter().is_empty());
    dbs.opened(1, "one");
    dbs.opened(2, "two");
    dbs.opened(1, "uno");
    let mut all = dbs.iter_guard().iter();
    all.sort();
    assert_eq!(all, vec![(&1, &"uno"), (&2, &"two")]);
}

#[test]
fn a_directory_is_loaded_entry_by_entry() {
    let load = step(Load::Opening, LoadEvent::DirOpened);
    let load = step(load, entry("README.md"));
    assert!(matches!(load, Load::Reading(_)));
    let load = step(load, LoadEvent::Entry(None));
    assert!(matches!(load, Load::Reading(_)));
    let load = step(load, entry("7.json"));
    assert!(matches!(load, Load::OpeningDb(_, 7)));
    let load = step(load, LoadEvent::DbOpened("seven"));
    let load = step(load, entry("8.json"));
    let load = step(load, LoadEvent::DbOpened("eight"));
    let load = step(load, entry("+7.json"));
    let load = step(load, LoadEvent::DbOpened("plus seven"));
    match step(load, LoadEvent::EndOfDir) {
        Load::Done(dbs) => {
            assert_eq!(dbs.get(&7), Some(&"plus seven"));
            assert_eq!(dbs.get(&8), Some(&"eight"));
            assert_eq!(dbs.iter_guard().iter().len(), 2);
        }
        _ => panic!("not done"),
    }
}

#[test]
fn a_missing_directory_holds_no_databases() {
    match step(Load::Opening, LoadEvent::DirNotFound) {
        Load::Done(dbs) => assert!(dbs.iter_guard().iter().is_empty()),
        _ => panic!("not done"),
    }
}

#[test]
fn loading_fails_with_the_first_error() {
    assert!(matches!(step(Load::Opening, LoadEvent::DirFailed(1)), Load::Failed(1)));
    let load = step(Load::Opening, LoadEvent::DirOpened);
    assert!(matches!(step(load, LoadEvent::EntryFailed(2)), Load::Failed(2)));
    let load = step(Load::Opening, LoadEvent::DirOpened);
    let load = step(load, entry("7.json"));
    let load = step(load, LoadEvent::DbFailed(3));
    assert!(matches!(load, Load::Failed(3)));
    assert!(matches!(step(load, LoadEvent::DirOpened), Load::Failed(3)));
}

#[test]
fn an_event_nobody_waits_for_is_ignored() {
    let load = step(Load::Opening, LoadEvent::EndOfDir);
    assert!(matches!(load, Load::Opening));
    let load = step(load, LoadEvent::DbOpened("x"));
    assert!(matches!(load, Load::Opening));
}

#[test]
fn a_file_that_was_made_is_found_again() {
    let dbs: MultifileDb<u64, &str> = MultifileDb::new();
    let file = dbs.get_or_default::<DotJson>(99).unwrap();
    let load = step(Load::Opening, LoadEvent::DirOpened);
    assert!(matches!(step(load, entry(&file)), Load::OpeningDb(_, 99)));
}

#[test]
fn everything_is_visited_once() {
    let mut dbs: MultifileDb<u64, &str> = MultifileDb::new();
    dbs.opened(3, "three");
    dbs.opened(5, "five");
    dbs.opened(3, "drei");
    let mut all = dbs.for_each();
    all.sort();
    assert_eq!(all, vec![(3, &"drei"), (5, &"five")]);
    let mut walk = dbs.try_for_each::<i32>();
    let mut visited = Vec::new();
    while let Some((pk, db)) = walk.next() {
        visited.push((*pk, *db));
        walk.visited(Ok(()));
    }
    visited.sort();
    assert_eq!(visited, vec![(3, "drei"), (5, "five")]);
    assert_eq!(walk.finish(), Ok(()));
}

#[test]
fn a_walk_ends_at_the_first_error() {
    let mut dbs: MultifileDb<u64, &str> = MultifileDb::new();
    for pk in 0..4 {
        dbs.opened(pk, "db");
    }
    let mut walk = dbs.try_for_each::<i32>();
    let first = walk.next().map(|(pk, _)| *pk);
    walk.visited(Ok(()));
    let second = walk.next().map(|(pk, _)| *pk);
    assert!(second.is_some());
    assert_ne!(first, second);
    walk.visited(Err(13));
    assert!(walk.next().is_none());
    walk.visited(Err(14));
    assert!(walk.next().is_none());
    assert_eq!(walk.finish(), Err(13));
}

#[test]
fn a_failed_load_keeps_nothing_and_can_be_started_again() {
    let load = step(Load::new(), LoadEvent::DirOpened);
    let Err(load) = load.finish() else {
        panic!("loading is not over");
    };
    let load = step(step(load, entry("1.json")), LoadEvent::DbOpened("one"));
    let load = step(step(load, entry("2.json")), LoadEvent::DbFailed(9));
    assert!(matches!(load.finish(), Ok(Err(9))));
    let load = step(Load::new(), LoadEvent::DirOpened);
    let load = step(step(load, entry("2.json")), LoadEvent::DbOpened("two"));
    let Ok(Ok(dbs)) = step(load, LoadEvent::EndOfDir).finish() else {
        panic!("loading succeeds");
    };
    assert_eq!(dbs.for_each(), vec![(2, &"two")]);
}

#[test]
fn the_last_file_of_a_key_wins() {
    let load = step(Load::new(), LoadEvent::DirOpened);
    let load = step(step(load, entry("7.json")), LoadEvent::DbOpened("plain"));
    let load = step(step(load, entry("07.json")), LoadEvent::DbOpened("padded"));
    let Ok(Ok(dbs)) = step(load, LoadEvent::EndOfDir).finish() else {
        panic!("loading succeeds");
    };
    assert_eq!(dbs.for_each(), vec![(7, &"padded")]);
}
