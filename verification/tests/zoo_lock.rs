use std::collections::BTreeMap;
use std::sync::{Arc, Mutex};

use utility::errors::RcpError;
use utility::zoo_lock::{
    GuardAction, GuardEvent, LockAction, LockEvent, LockType, ZkCriticalSection, ZkDistrLock,
};
use zookeeper::ZkError;

/// A stand-in for a ZooKeeper ensemble that answers the lock's requests from
/// memory: nodes by path, and a sequence counter per parent.
struct Ensemble {
    nodes: BTreeMap<String, Vec<u8>>,
    counters: BTreeMap<String, u32>,
}

fn parent_of(path: &str) -> String {
    match path.rfind('/') {
        Some(0) => "/".to_string(),
        Some(i) => path[..i].to_string(),
        None => "/".to_string(),
    }
}

impl Ensemble {
    fn new() -> Ensemble {
        let mut nodes = BTreeMap::new();
        nodes.insert("/".to_string(), Vec::new());
        Ensemble { nodes, counters: BTreeMap::new() }
    }

    fn children(&self, dir: &str) -> Vec<String> {
        let start = format!("{}/", dir);
        let mut out = Vec::new();
        for p in self.nodes.keys() {
            if p.starts_with(&start) && !p[start.len()..].contains('/') {
                out.push(p[start.len()..].to_string());
            }
        }
        // The server lists children in no promised order.
        out.reverse();
        out
    }

    /// Answers a request; `None` for a watch that has not fired yet.
    fn answer(&mut self, action: LockAction) -> Option<LockEvent> {
        match action {
            LockAction::CheckPath(p) => Some(LockEvent::PathChecked(Ok(self.nodes.contains_key(&p)))),
            LockAction::EnsurePath(p) => {
                let mut cur = String::new();
                for part in p.split('/').filter(|s| !s.is_empty()) {
                    cur = format!("{}/{}", cur, part);
                    self.nodes.entry(cur.clone()).or_insert_with(Vec::new);
                }
                Some(LockEvent::PathEnsured)
            },
            LockAction::CreateNode(p, data) => {
                let dir = parent_of(&p);
                if !self.nodes.contains_key(&dir) {
                    return Some(LockEvent::Created(Err(ZkError::NoNode)));
                }
                let counter = self.counters.entry(dir).or_insert(0);
                let path = format!("{}{:010}", p, *counter);
                *counter += 1;
                self.nodes.insert(path.clone(), data);
                Some(LockEvent::Created(Ok(path)))
            },
            LockAction::ListChildren(p) => {
                if self.nodes.contains_key(&p) {
                    Some(LockEvent::Children(Ok(self.children(&p))))
                } else {
                    Some(LockEvent::Children(Err(ZkError::NoNode)))
                }
            },
            LockAction::WatchAndWait(p) => {
                if self.nodes.contains_key(&p) {
                    None
                } else {
                    Some(LockEvent::Woken)
                }
            },
            LockAction::DeleteNode(p) => {
                if self.nodes.remove(&p).is_some() {
                    Some(LockEvent::Deleted(Ok(())))
                } else {
                    Some(LockEvent::Deleted(Err(ZkError::NoNode)))
                }
            },
            LockAction::Finished(_) => None,
        }
    }
}

/// How far a lock got: finished, or parked on a watch of this path.
enum Outcome {
    Done(Result<bool, RcpError>),
    Waiting(String),
}

fn drive_acquire(lock: &mut ZkDistrLock, zk: &mut Ensemble, mut event: LockEvent) -> Outcome {
    loop {
        assert!(lock.acquire_accepts(&event));
        match lock.acquire(event) {
            LockAction::Finished(r) => return Outcome::Done(r),
            LockAction::WatchAndWait(p) => match zk.answer(LockAction::WatchAndWait(p.clone())) {
                Some(e) => event = e,
                None => return Outcome::Waiting(p),
            },
            other => event = zk.answer(other).expect("an answer"),
        }
    }
}

fn acquire(lock: &mut ZkDistrLock, zk: &mut Ensemble) -> Result<bool, RcpError> {
    match drive_acquire(lock, zk, LockEvent::Begin) {
        Outcome::Done(r) => r,
        Outcome::Waiting(p) => panic!("waiting on {}", p),
    }
}

fn release(lock: &mut ZkDistrLock, zk: &mut Ensemble) -> Result<bool, RcpError> {
    let mut event = LockEvent::Begin;
    loop {
        assert!(lock.release_accepts(&event));
        match lock.release(event) {
            LockAction::Finished(r) => return r,
            other => event = zk.answer(other).expect("an answer"),
        }
    }
}

#[test]
fn test_internal_lock() {
    let mut zk = Ensemble::new();
    let mut in_lock = ZkDistrLock::new("/test/lock".to_string(), "test".to_string(), LockType::Lock);
    let result = acquire(&mut in_lock, &mut zk).expect("debug 2");
    assert_eq!(result, true);
    let result2 = release(&mut in_lock, &mut zk).expect("debug 3");
    assert_eq!(result2, true);
}

#[test]
fn test_two_internal_lock() {
    let mut zk = Ensemble::new();
    let mut clock = 0u32;
    let mut in_lock_1 =
        ZkDistrLock::new("/test/lock2".to_string(), "main".to_string(), LockType::Lock);
    let mut in_lock_2 =
        ZkDistrLock::new("/test/lock2".to_string(), "thread".to_string(), LockType::Lock);

    let result = acquire(&mut in_lock_1, &mut zk).expect("debug main 2");
    assert_eq!(result, true);
    let got_lock = clock;

    // The second lock comes later and has to wait for the first.
    clock += 1;
    let watched = match drive_acquire(&mut in_lock_2, &mut zk, LockEvent::Begin) {
        Outcome::Waiting(p) => p,
        Outcome::Done(_) => panic!("the second lock must wait"),
    };
    assert_eq!(watched, format!("/test/lock2/{}", in_lock_1.node()));

    clock += 4;
    let elapse = clock - got_lock;
    let result2 = release(&mut in_lock_1, &mut zk).expect("debug main 3");
    assert_eq!(result2, true);

    // The watch fires after the release; only then does the second lock look again.
    let woken = zk.answer(LockAction::WatchAndWait(watched)).expect("the watch fires");
    clock += 1;
    let thread_got_lock = match drive_acquire(&mut in_lock_2, &mut zk, woken) {
        Outcome::Done(r) => {
            assert_eq!(r.expect("debug thread 2"), true);
            clock
        },
        Outcome::Waiting(p) => panic!("still waiting on {}", p),
    };
    let result3 = release(&mut in_lock_2, &mut zk).expect("debug thread 3");
    assert_eq!(result3, true);

    let time_diff = thread_got_lock - got_lock;
    assert!(time_diff > elapse);
}

#[test]
fn test_two_lock() {
    // Each lock behind a mutex, as threads of one process share it.
    let mut zk = Ensemble::new();
    let mut clock = 0u32;
    let in_lock_1 =
        Mutex::new(ZkDistrLock::new("/test/lock3".to_string(), "main".to_string(), LockType::Lock));
    let in_lock_2 =
        Mutex::new(ZkDistrLock::new("/test/lock3".to_string(), "thread".to_string(), LockType::Lock));

    let result = acquire(&mut in_lock_1.lock().unwrap_or_else(|e| e.into_inner()), &mut zk)
        .expect("debug main 2");
    assert_eq!(result, true);
    let got_lock = clock;

    clock += 1;
    let watched = match drive_acquire(
        &mut in_lock_2.lock().unwrap_or_else(|e| e.into_inner()),
        &mut zk,
        LockEvent::Begin,
    ) {
        Outcome::Waiting(p) => p,
        Outcome::Done(_) => panic!("the second lock must wait"),
    };

    clock += 4;
    let elapse = clock - got_lock;
    let result2 = release(&mut in_lock_1.lock().unwrap_or_else(|e| e.into_inner()), &mut zk)
        .expect("debug main 3");
    assert_eq!(result2, true);

    let woken = zk.answer(LockAction::WatchAndWait(watched)).expect("the watch fires");
    clock += 1;
    let thread_got_lock = match drive_acquire(
        &mut in_lock_2.lock().unwrap_or_else(|e| e.into_inner()),
        &mut zk,
        woken,
    ) {
        Outcome::Done(r) => {
            assert_eq!(r.expect("debug thread 2"), true);
            clock
        },
        Outcome::Waiting(p) => panic!("still waiting on {}", p),
    };
    let result3 = release(&mut in_lock_2.lock().unwrap_or_else(|e| e.into_inner()), &mut zk)
        .expect("debug thread 3");
    assert_eq!(result3, true);

    let time_diff = thread_got_lock - got_lock;
    assert!(time_diff > elapse);
}

fn run_section(cs: &Arc<Mutex<ZkCriticalSection>>, zk: &mut Ensemble, body: &mut dyn FnMut()) -> Result<(), RcpError> {
    let mut section = cs.lock().unwrap_or_else(|e| e.into_inner());
    let mut event = GuardEvent::Begin;
    loop {
        assert!(section.guard_accepts(&event));
        match section.guard(event) {
            GuardAction::Finished(r) => return r,
            GuardAction::RunBody => {
                body();
                event = GuardEvent::BodyDone;
            },
            GuardAction::Lock(a) => {
                event = GuardEvent::Lock(zk.answer(a).expect("an answer"));
            },
        }
    }
}

#[test]
fn test_critical_section() {
    let mut zk = Ensemble::new();
    let cs = Arc::new(Mutex::new(ZkCriticalSection::new("/test/lock4".to_string(), "".to_string())));
    let mut counter = 0usize;
    for _ in 0..10 {
        let cs_tmp = cs.clone();
        run_section(&cs_tmp, &mut zk, &mut || counter += 1).expect("debug main 2");
    }
    assert_eq!(counter, 10);
    // Every section released its lock: no node is left in the directory.
    assert!(zk.children("/test/lock4").is_empty());
}

#[test]
fn chose_leader_process() {
    // Several processes run for leadership on one path; the one whose node
    // comes first wins, and the others wait in line.
    let mut zk = Ensemble::new();
    let mut candidates: Vec<ZkDistrLock> = (0..3)
        .map(|i| ZkDistrLock::new("/election".to_string(), format!("p{}", i), LockType::Lock))
        .collect();
    let mut leaders = 0;
    let mut waiting = 0;
    for c in candidates.iter_mut() {
        match drive_acquire(c, &mut zk, LockEvent::Begin) {
            Outcome::Done(r) => {
                assert!(r.expect("election"));
                leaders += 1;
            },
            Outcome::Waiting(_) => waiting += 1,
        }
    }
    assert_eq!(leaders, 1);
    assert_eq!(waiting, 2);
    assert!(candidates[0].is_acquired());
    assert!(!candidates[1].is_acquired());
    assert!(!candidates[2].is_acquired());
}

#[test]
fn new_lock_names_its_nodes_with_a_uuid() {
    let a = ZkDistrLock::new("/x".to_string(), "id".to_string(), LockType::Lock);
    let b = ZkDistrLock::new("/x".to_string(), "id".to_string(), LockType::ReadLock);
    let w = ZkDistrLock::new("/x".to_string(), "id".to_string(), LockType::WriteLock);
    for (lock, name) in [(&a, "__lock__"), (&b, "__rlock__"), (&w, "__lock__")] {
        let p = lock.prefix();
        assert_eq!(p.len(), 36 + name.len());
        assert!(p.ends_with(name));
        for (i, c) in p[..36].chars().enumerate() {
            if i == 8 || i == 13 || i == 18 || i == 23 {
                assert_eq!(c, '-');
            } else {
                assert!(c.is_ascii_digit() || ('a'..='f').contains(&c));
            }
        }
        assert_eq!(lock.node(), "");
        assert!(!lock.is_acquired());
    }
    assert_ne!(a.prefix()[..36], b.prefix()[..36]);
}

#[test]
fn with_uuid_builds_the_create_path() {
    let uuid = "123e4567-e89b-42d3-a456-426614174000".to_string();
    let mut lock = ZkDistrLock::with_uuid("/a/b".to_string(), "me".to_string(), LockType::ReadLock, uuid);
    assert_eq!(lock.prefix(), "123e4567-e89b-42d3-a456-426614174000__rlock__");
    match lock.acquire(LockEvent::Begin) {
        LockAction::CheckPath(p) => assert_eq!(p, "/a/b"),
        other => panic!("{:?}", other),
    }
    match lock.acquire(LockEvent::PathChecked(Ok(true))) {
        LockAction::CreateNode(p, data) => {
            assert_eq!(p, "/a/b/123e4567-e89b-42d3-a456-426614174000__rlock__");
            assert_eq!(data, b"me".to_vec());
        },
        other => panic!("{:?}", other),
    }
}

#[test]
fn missing_path_is_ensured_first() {
    let mut lock = ZkDistrLock::new("/fresh/dir".to_string(), "x".to_string(), LockType::Lock);
    lock.acquire(LockEvent::Begin);
    match lock.acquire(LockEvent::PathChecked(Ok(false))) {
        LockAction::EnsurePath(p) => assert_eq!(p, "/fresh/dir"),
        other => panic!("{:?}", other),
    }
    match lock.acquire(LockEvent::PathEnsured) {
        LockAction::CreateNode(p, _) => assert!(p.starts_with("/fresh/dir/")),
        other => panic!("{:?}", other),
    }
}

#[test]
fn errors_of_the_server_end_acquiring() {
    let mut lock = ZkDistrLock::new("/e".to_string(), "x".to_string(), LockType::Lock);
    lock.acquire(LockEvent::Begin);
    match lock.acquire(LockEvent::PathChecked(Err(ZkError::ConnectionLoss))) {
        LockAction::Finished(Err(RcpError::ZkErr(ZkError::ConnectionLoss))) => {},
        other => panic!("{:?}", other),
    }
    lock.acquire(LockEvent::Begin);
    lock.acquire(LockEvent::PathChecked(Ok(true)));
    match lock.acquire(LockEvent::Created(Err(ZkError::NoAuth))) {
        LockAction::Finished(Err(RcpError::ZkErr(ZkError::NoAuth))) => {},
        other => panic!("{:?}", other),
    }
    lock.acquire(LockEvent::Begin);
    lock.acquire(LockEvent::PathChecked(Ok(true)));
    lock.acquire(LockEvent::Created(Ok("/e/n0000000003".to_string())));
    assert_eq!(lock.node(), "n0000000003");
    match lock.acquire(LockEvent::Children(Err(ZkError::SessionExpired))) {
        LockAction::Finished(Err(RcpError::ZkErr(ZkError::SessionExpired))) => {},
        other => panic!("{:?}", other),
    }
    assert!(!lock.is_acquired());
}

fn created_lock(node: &str) -> ZkDistrLock {
    let mut lock = ZkDistrLock::new("/d".to_string(), "x".to_string(), LockType::Lock);
    lock.acquire(LockEvent::Begin);
    lock.acquire(LockEvent::PathChecked(Ok(true)));
    lock.acquire(LockEvent::Created(Ok(format!("/d/{}", node))));
    lock
}

#[test]
fn empty_listing_is_an_internal_error() {
    let mut lock = created_lock("a__lock__0000000001");
    match lock.acquire(LockEvent::Children(Ok(vec![]))) {
        LockAction::Finished(Err(RcpError::InternalError)) => {},
        other => panic!("{:?}", other),
    }
}

#[test]
fn lost_node_is_an_internal_error() {
    let mut lock = created_lock("a__lock__0000000005");
    let others = vec!["b__lock__0000000001".to_string()];
    match lock.acquire(LockEvent::Children(Ok(others.clone()))) {
        LockAction::ListChildren(p) => assert_eq!(p, "/d"),
        other => panic!("{:?}", other),
    }
    match lock.acquire(LockEvent::Children(Ok(others))) {
        LockAction::Finished(Err(RcpError::InternalError)) => {},
        other => panic!("{:?}", other),
    }
}

#[test]
fn waits_on_the_node_just_before_its_own() {
    let mut lock = created_lock("me__lock__0000000007");
    let children = vec![
        "c__lock__0000000009".to_string(),
        "me__lock__0000000007".to_string(),
        "a__lock__0000000002".to_string(),
        "b__rlock__0000000005".to_string(),
    ];
    lock.acquire(LockEvent::Children(Ok(children.clone())));
    match lock.acquire(LockEvent::Children(Ok(children))) {
        LockAction::WatchAndWait(p) => assert_eq!(p, "/d/b__rlock__0000000005"),
        other => panic!("{:?}", other),
    }
    assert!(!lock.is_acquired());
}

#[test]
fn woken_lock_looks_again() {
    let mut lock = created_lock("me__lock__0000000007");
    let children = vec!["a__lock__0000000002".to_string(), "me__lock__0000000007".to_string()];
    lock.acquire(LockEvent::Children(Ok(children.clone())));
    lock.acquire(LockEvent::Children(Ok(children)));
    match lock.acquire(LockEvent::Woken) {
        LockAction::ListChildren(p) => assert_eq!(p, "/d"),
        other => panic!("{:?}", other),
    }
    match lock.acquire(LockEvent::Children(Ok(vec!["me__lock__0000000007".to_string()]))) {
        LockAction::Finished(Ok(true)) => {},
        other => panic!("{:?}", other),
    }
    assert!(lock.is_acquired());
}

#[test]
fn a_node_first_in_the_listing_cannot_look_for_its_predecessor() {
    let mut lock = created_lock("a__lock__0000000001");
    let children = vec!["b__lock__0000000002".to_string()];
    lock.acquire(LockEvent::Children(Ok(children)));
    let first = LockEvent::Children(Ok(vec![
        "a__lock__0000000001".to_string(),
        "b__lock__0000000002".to_string(),
    ]));
    assert!(!lock.acquire_accepts(&first));
    assert!(!lock.acquire_accepts(&LockEvent::Begin));
    assert!(!lock.release_accepts(&LockEvent::Begin));
}

#[test]
fn created_path_must_extend_the_lock_path() {
    let mut lock = ZkDistrLock::new("/long/path".to_string(), "x".to_string(), LockType::Lock);
    lock.acquire(LockEvent::Begin);
    lock.acquire(LockEvent::PathChecked(Ok(true)));
    assert!(!lock.acquire_accepts(&LockEvent::Created(Ok("/short".to_string()))));
    assert!(lock.acquire_accepts(&LockEvent::Created(Ok("/long/path/n1".to_string()))));
    assert!(lock.acquire_accepts(&LockEvent::Created(Err(ZkError::NoNode))));
}

#[test]
fn release_without_the_lock_answers_false() {
    let mut zk = Ensemble::new();
    let mut lock = ZkDistrLock::new("/r".to_string(), "x".to_string(), LockType::Lock);
    assert_eq!(release(&mut lock, &mut zk).expect("release"), false);
}

#[test]
fn failed_delete_keeps_the_lock() {
    let mut zk = Ensemble::new();
    let mut lock = ZkDistrLock::new("/f".to_string(), "x".to_string(), LockType::Lock);
    assert!(acquire(&mut lock, &mut zk).expect("acquire"));
    match lock.release(LockEvent::Begin) {
        LockAction::DeleteNode(p) => assert_eq!(p, format!("/f/{}", lock.node())),
        other => panic!("{:?}", other),
    }
    match lock.release(LockEvent::Deleted(Err(ZkError::ConnectionLoss))) {
        LockAction::Finished(Err(RcpError::ZkErr(ZkError::ConnectionLoss))) => {},
        other => panic!("{:?}", other),
    }
    assert!(lock.is_acquired());
    assert_eq!(release(&mut lock, &mut zk).expect("release"), true);
    assert!(!lock.is_acquired());
    assert_eq!(lock.node(), "");
}

#[test]
fn critical_section_stops_on_an_error() {
    let cs = ZkCriticalSection::new("/c".to_string(), "x".to_string());
    let mut cs = cs;
    match cs.guard(GuardEvent::Begin) {
        GuardAction::Lock(LockAction::CheckPath(p)) => assert_eq!(p, "/c"),
        other => panic!("{:?}", other),
    }
    match cs.guard(GuardEvent::Lock(LockEvent::PathChecked(Err(ZkError::NoAuth)))) {
        GuardAction::Finished(Err(RcpError::ZkErr(ZkError::NoAuth))) => {},
        other => panic!("{:?}", other),
    }
    assert!(cs.guard_accepts(&GuardEvent::Begin));
    assert!(!cs.guard_accepts(&GuardEvent::BodyDone));
}

#[test]
fn critical_section_runs_the_body_only_once_held() {
    let mut cs = ZkCriticalSection::new("/c".to_string(), "x".to_string());
    cs.guard(GuardEvent::Begin);
    cs.guard(GuardEvent::Lock(LockEvent::PathChecked(Ok(true))));
    let node = format!("{}0000000004", cs.lock().prefix());
    cs.guard(GuardEvent::Lock(LockEvent::Created(Ok(format!("/c/{}", node)))));
    let children = vec!["a__lock__0000000001".to_string(), node.clone()];
    cs.guard(GuardEvent::Lock(LockEvent::Children(Ok(children.clone()))));
    match cs.guard(GuardEvent::Lock(LockEvent::Children(Ok(children)))) {
        GuardAction::Lock(LockAction::WatchAndWait(p)) => assert_eq!(p, "/c/a__lock__0000000001"),
        other => panic!("{:?}", other),
    }
    assert!(!cs.guard_accepts(&GuardEvent::BodyDone));
    match cs.guard(GuardEvent::Lock(LockEvent::Woken)) {
        GuardAction::Lock(LockAction::ListChildren(p)) => assert_eq!(p, "/c"),
        other => panic!("{:?}", other),
    }
    assert!(!cs.lock().is_acquired());
    match cs.guard(GuardEvent::Lock(LockEvent::Children(Ok(vec![node.clone()])))) {
        GuardAction::RunBody => {},
        other => panic!("{:?}", other),
    }
    assert!(cs.lock().is_acquired());
    match cs.guard(GuardEvent::BodyDone) {
        GuardAction::Lock(LockAction::DeleteNode(p)) => assert_eq!(p, format!("/c/{}", node)),
        other => panic!("{:?}", other),
    }
    match cs.guard(GuardEvent::Lock(LockEvent::Deleted(Ok(())))) {
        GuardAction::Finished(Ok(())) => {},
        other => panic!("{:?}", other),
    }
    assert!(!cs.lock().is_acquired());
}

#[test]
fn one_listing_has_one_holder() {
    let mut a = created_lock("a__lock__0000000001");
    let mut b = created_lock("b__lock__0000000002");
    let listing = vec!["b__lock__0000000002".to_string(), "a__lock__0000000001".to_string()];
    let ra = a.acquire(LockEvent::Children(Ok(listing.clone())));
    let rb = b.acquire(LockEvent::Children(Ok(listing)));
    assert!(matches!(ra, LockAction::Finished(Ok(true))));
    assert!(matches!(rb, LockAction::ListChildren(_)));
    assert!(a.is_acquired());
    assert!(!b.is_acquired());
}

#[test]
fn release_returns_the_lock_to_its_fresh_state() {
    let mut zk = Ensemble::new();
    let mut lock = ZkDistrLock::new("/again".to_string(), "x".to_string(), LockType::WriteLock);
    let prefix = lock.prefix().clone();
    for _ in 0..3 {
        assert!(acquire(&mut lock, &mut zk).expect("acquire"));
        assert!(lock.node().starts_with(&prefix));
        assert!(release(&mut lock, &mut zk).expect("release"));
        assert!(!lock.is_acquired());
        assert_eq!(lock.node(), "");
        assert_eq!(lock.prefix(), &prefix);
    }
    assert!(zk.children("/again").is_empty());
}

#[test]
fn created_nodes_are_keyed_by_their_sequence_number() {
    for t in [LockType::Lock, LockType::ReadLock, LockType::WriteLock] {
        let lock = ZkDistrLock::new("/k".to_string(), "x".to_string(), t);
        let node = format!("{}0000000042", lock.prefix());
        assert_eq!(utility::children::sort_key_of(&node), b"0000000042".to_vec());
    }
}
