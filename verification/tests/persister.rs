use std::collections::HashMap;

use lwk_wollet::persister::{join_path, FsPersister, MemoryPersister, NoPersist, Persister};
use lwk_wollet::{Counter, IntErrorKind, WolletError};

/// Serialized updates used as test data: the second one differs from the first by an extra
/// trailing record, as an update with one more timestamp would.
fn test_updates() -> (Vec<u8>, Vec<u8>) {
    let update1: Vec<u8> = (0u8..64).collect();
    let mut update2 = update1.clone();
    update2.extend_from_slice(&[22, 0, 0, 0, 55, 0, 0, 0]);
    (update1, update2)
}

fn inner_test_persister(mut persister: Box<dyn Persister>, first_time: bool) {
    if first_time {
        assert_eq!(persister.iter().len(), 0);
    }

    let (update1, update2) = test_updates();
    assert_ne!(&update1, &update2);

    if first_time {
        persister.push(update1.clone()).unwrap();
        let mut iter = persister.iter().into_iter();
        assert_eq!(iter.len(), 1);
        assert_eq!(iter.next().unwrap().unwrap(), update1.clone());
        assert!(iter.next().is_none());
        drop(iter);

        persister.push(update2.clone()).unwrap();
    }
    let mut iter = persister.iter().into_iter();
    assert_eq!(iter.len(), 2);
    assert_eq!(iter.next().unwrap().unwrap(), update1);
    assert_eq!(iter.next().unwrap().unwrap(), update2);
    assert!(iter.next().is_none());
}

#[test]
fn test_memory_persister() {
    let persister = MemoryPersister::new();
    inner_test_persister(persister, true);
}

#[test]
fn test_no_persist() {
    let mut persister = NoPersist {};
    assert_eq!(persister.iter().len(), 0);
    let (update, _) = test_updates();
    persister.push(update).unwrap();
    assert_eq!(persister.iter().len(), 0);
}

/// A directory held in memory: file names mapped to their bytes.
#[derive(Default)]
struct Dir {
    files: HashMap<String, Vec<u8>>,
}

impl Dir {
    fn names(&self, dir: &str) -> Vec<String> {
        let mut names: Vec<String> = self
            .files
            .keys()
            .filter_map(|p| p.strip_prefix(&format!("{dir}/")).map(|n| n.to_string()))
            .collect();
        names.sort();
        names.reverse();
        names
    }
}

/// The operations of a file persister, with the reads and writes done on `Dir`.
struct MemFsPersister<'a> {
    state: Box<FsPersister>,
    dir: &'a mut Dir,
}

impl<'a> MemFsPersister<'a> {
    fn open(path: &str, dir: &'a mut Dir) -> Self {
        let names = dir.names(path);
        let state = FsPersister::new(path.to_string(), &names).unwrap();
        MemFsPersister { state, dir }
    }

    fn push(&mut self, update: Vec<u8>) -> Result<usize, WolletError> {
        let path = self.state.next_path();
        let len = update.len();
        self.dir.files.insert(path, update);
        self.state.push(Ok(len))
    }

    fn iter(&self) -> Vec<Result<Vec<u8>, WolletError>> {
        let mut it = self.state.iter();
        assert_eq!(it.size_hint(&self.state), (self.state.len(), Some(self.state.len())));
        let mut items = vec![];
        while let Some(path) = it.next_path(&self.state) {
            let read = self
                .dir
                .files
                .get(&path)
                .cloned()
                .ok_or(WolletError::Generic(path));
            items.push(it.next(&self.state, read).unwrap());
        }
        items
    }
}

fn inner_test_fs_persister(mut persister: MemFsPersister, first_time: bool) {
    if first_time {
        assert_eq!(persister.iter().len(), 0);
    }
    let (update1, update2) = test_updates();
    if first_time {
        assert_eq!(persister.push(update1.clone()).unwrap(), 1);
        let items = persister.iter();
        assert_eq!(items.len(), 1);
        assert_eq!(items[0].as_ref().unwrap(), &update1);
        assert_eq!(persister.push(update2.clone()).unwrap(), 2);
    }
    let items = persister.iter();
    assert_eq!(items.len(), 2);
    assert_eq!(items[0].as_ref().unwrap(), &update1);
    assert_eq!(items[1].as_ref().unwrap(), &update2);
}

#[test]
fn test_fs_persister() {
    let mut dir = Dir::default();
    let persister = MemFsPersister::open("/tmp/updates", &mut dir);
    inner_test_fs_persister(persister, true);
    let persister = MemFsPersister::open("/tmp/updates", &mut dir);
    inner_test_fs_persister(persister, false);
    let mut names = dir.names("/tmp/updates");
    names.sort();
    assert_eq!(names, vec!["000000000000".to_string(), "000000000001".to_string()]);
}

#[test]
fn fs_persister_paths_and_positions() {
    let p = FsPersister::new("/data".to_string(), &vec![]).unwrap();
    assert_eq!(p.len(), 0);
    assert_eq!(p.next_path(), "/data/000000000000");
    assert_eq!(p.path(&Counter::from(42)), "/data/000000000042");
    assert_eq!(p.path(&Counter::from(1_000_000_000_000)), "/data/1000000000000");
}

#[test]
fn fs_persister_reopen_finds_one_past_the_largest() {
    let names = vec![
        "000000000003".to_string(),
        "000000000000".to_string(),
        "000000000007".to_string(),
    ];
    let p = FsPersister::new("dir".to_string(), &names).unwrap();
    assert_eq!(p.len(), 8);
    assert_eq!(p.next_path(), "dir/000000000008");
}

#[test]
fn fs_persister_refuses_foreign_files() {
    let names = vec!["000000000001".to_string(), "notes.txt".to_string()];
    match FsPersister::new("dir".to_string(), &names) {
        Err(WolletError::Generic(m)) if m == "Not 12 chars" => {}
        other => panic!("unexpected: {:?}", other.map(|p| p.len())),
    }
    let names = vec!["0000000000x1".to_string(), "short".to_string()];
    match FsPersister::new("dir".to_string(), &names) {
        Err(WolletError::ParseInt(IntErrorKind::InvalidDigit)) => {}
        other => panic!("unexpected: {:?}", other.map(|p| p.len())),
    }
}

#[test]
fn fs_persister_failed_write_changes_nothing() {
    let mut p = FsPersister::new("dir".to_string(), &vec![]).unwrap();
    match p.push(Err(WolletError::Generic("disk full".to_string()))) {
        Err(WolletError::Generic(m)) => assert_eq!(m, "disk full"),
        other => panic!("unexpected: {:?}", other),
    }
    assert_eq!(p.len(), 0);
    assert_eq!(p.push(Ok(10)).unwrap(), 1);
    assert_eq!(p.next_path(), "dir/000000000001");
}

#[test]
fn fs_iterator_retries_a_failed_read() {
    let mut p = FsPersister::new("d".to_string(), &vec![]).unwrap();
    p.push(Ok(1)).unwrap();
    let mut it = p.iter();
    assert_eq!(it.next_path(&p).unwrap(), "d/000000000000");
    assert!(it.next(&p, Err(WolletError::Decode)).unwrap().is_err());
    assert_eq!(it.next_path(&p).unwrap(), "d/000000000000");
    assert_eq!(it.next(&p, Ok(vec![7])).unwrap().unwrap(), vec![7]);
    assert!(it.next_path(&p).is_none());
    assert!(it.next(&p, Ok(vec![8])).is_none());
}

#[test]
fn join_path_follows_path_push() {
    assert_eq!(join_path("a", "b"), "a/b");
    assert_eq!(join_path("a/", "b"), "a/b");
    assert_eq!(join_path("", "b"), "b");
    assert_eq!(join_path("a", "/b"), "/b");
}

#[test]
fn desc_path_uses_sha256_of_descriptor() {
    assert_eq!(
        FsPersister::desc_path("/root", "liquid", "abc"),
        "/root/liquid/ba7816bf8f01cfea414140de5dae2223b00361a396177a9cb410ff61f20015ad"
    );
    let p = FsPersister::new_with_desc("/root", "liquid", "", &vec![]).unwrap();
    assert_eq!(
        p.next_path(),
        "/root/liquid/e3b0c44298fc1c149afbf4c8996fb92427ae41e4649b934ca495991b7852b855/000000000000"
    );
}

#[test]
fn wallets_get_distinct_stores() {
    let a = FsPersister::desc_path("/r", "liquid", "desc-a");
    let b = FsPersister::desc_path("/r", "liquid", "desc-b");
    let c = FsPersister::desc_path("/r", "liquidtestnet", "desc-a");
    assert_ne!(a, b);
    assert_ne!(a, c);
    assert!(a.starts_with("/r/liquid/"));
    assert!(c.starts_with("/r/liquidtestnet/"));
}

#[test]
fn file_names_read_back_as_counters() {
    let p = FsPersister::new("/d".to_string(), &vec![]).unwrap();
    let path = p.path(&Counter::from(123));
    let name = path.rsplit('/').next().unwrap();
    assert_eq!(Counter::from_str(name).unwrap(), Counter::from(123));
}
