//! The ZooKeeper lock recipe as a state machine.
//!
//! A lock creates an ephemeral sequential node under its directory, lists
//! the directory, and holds the lock when its node comes first in key order;
//! otherwise it watches the node just before its own and looks again when that
//! node changes. Every round trip to the server is an action that the caller
//! performs and answers with an event; the decisions between them are here.
use vstd::prelude::*;
use vstd::string::*;
use vstd::utf8::{encode_utf8, decode_utf8, is_char_boundary};
use zookeeper::ZkError;
use crate::errors::RcpError;
use crate::children::{names, name_key, lex_lt, sorted_by_key, get_sorted_children, lemma_sorted_by_key};

verus! {

broadcast use vstd::utf8::encode_utf8_decode_utf8, vstd::utf8::encode_utf8_valid_utf8;

/// The kinds of lock: an exclusive lock, and the read and write halves of a
/// read-write lock.
#[derive(Clone, Copy, Debug, PartialEq, Eq, Structural)]
pub enum LockType {
    Lock,
    ReadLock,
    WriteLock,
}

/// Where a lock stands in its protocol: idle, or waiting for the answer to
/// one of its requests.
#[derive(Clone, Copy, Debug, PartialEq, Eq, Structural)]
pub enum Phase {
    Idle,
    CheckingPath,
    EnsuringPath,
    CreatingNode,
    CheckingFirst,
    FindingPredecessor,
    Watching,
    Deleting,
}

/// `__lock__`, the node name of exclusive and write locks.
pub open spec fn lock_name() -> Seq<char> {
    seq!['_', '_', 'l', 'o', 'c', 'k', '_', '_']
}

/// `__rlock__`, the node name of read locks.
pub open spec fn rlock_name() -> Seq<char> {
    seq!['_', '_', 'r', 'l', 'o', 'c', 'k', '_', '_']
}

/// The name that nodes of a lock of this kind carry.
pub open spec fn node_name_of(t: LockType) -> Seq<char> {
    match t {
        LockType::ReadLock => rlock_name(),
        _ => lock_name(),
    }
}

/// The node names that a lock of this kind must wait for.
pub open spec fn exclude_names_of(t: LockType) -> Seq<Seq<char>> {
    match t {
        LockType::ReadLock => seq![lock_name()],
        _ => seq![lock_name(), rlock_name()],
    }
}

/// The path of the child `name` of the node at `dir`.
pub open spec fn child_path(dir: Seq<char>, name: Seq<char>) -> Seq<char> {
    dir + seq!['/'] + name
}

/// A lower-case hexadecimal digit.
pub open spec fn is_lower_hex(c: char) -> bool {
    ('0' <= c <= '9') || ('a' <= c <= 'f')
}

/// The hyphenated lower-case text of a UUID.
pub open spec fn is_uuid_text(u: Seq<char>) -> bool {
    &&& u.len() == 36
    &&& forall|i: int|
        #![trigger u[i]]
        0 <= i < 36 ==> if i == 8 || i == 13 || i == 18 || i == 23 {
            u[i] == '-'
        } else {
            is_lower_hex(u[i])
        }
}

/// `uuid::Uuid::new_v4`, rendered by the `Display` impl of `uuid::Uuid`.
/// The UUID is random; what holds of every outcome is the shape of its text,
/// which `format_hyphenated` in the crate's `fmt.rs` writes: 36 characters,
/// `-` at positions 8, 13, 18 and 23 and lower-case hexadecimal digits
/// elsewhere. Nothing is claimed of which UUID comes out.
#[verifier::external_body]
fn fresh_uuid_text() -> (text: String)
    ensures
        is_uuid_text(text@),
{
    uuid::Uuid::new_v4().to_string()
}

/// The state of a lock, as plain values.
pub struct LockView {
    pub is_acquired: bool,
    pub path: Seq<char>,
    pub identifier: Seq<char>,
    pub node_name: Seq<char>,
    pub exclude_names: Seq<Seq<char>>,
    pub ensure_path: bool,
    pub prefix: Seq<char>,
    pub create_path: Seq<char>,
    pub node: Seq<char>,
    pub phase: Phase,
}

impl LockView {
    /// What every lock keeps: a node name and exclusion list of one of the
    /// lock kinds, a prefix that ends with the node name, nodes created as
    /// children of the lock's path, and a delete in flight only while held.
    pub open spec fn wf(self) -> bool {
        &&& {
            ||| self.node_name == lock_name() && self.exclude_names == seq![lock_name(), rlock_name()]
            ||| self.node_name == rlock_name() && self.exclude_names == seq![lock_name()]
        }
        &&& self.prefix.len() >= self.node_name.len()
        &&& self.prefix.subrange(
            self.prefix.len() - self.node_name.len(),
            self.prefix.len() as int,
        ) == self.node_name
        &&& self.create_path == child_path(self.path, self.prefix)
        &&& self.phase == Phase::Deleting ==> self.is_acquired
        &&& !self.ensure_path
    }

    /// Everything but the protocol's progress (phase, node, whether held).
    pub open spec fn same_config(self, other: LockView) -> bool {
        &&& self.path == other.path
        &&& self.identifier == other.identifier
        &&& self.node_name == other.node_name
        &&& self.exclude_names == other.exclude_names
        &&& self.ensure_path == other.ensure_path
        &&& self.prefix == other.prefix
        &&& self.create_path == other.create_path
    }
}

/// A lock fresh from its constructor, for a given UUID text.
pub open spec fn initial_view(
    path: Seq<char>,
    identifier: Seq<char>,
    t: LockType,
    uuid: Seq<char>,
) -> LockView {
    LockView {
        is_acquired: false,
        path: path,
        identifier: identifier,
        node_name: node_name_of(t),
        exclude_names: exclude_names_of(t),
        ensure_path: false,
        prefix: uuid + node_name_of(t),
        create_path: child_path(path, uuid + node_name_of(t)),
        node: Seq::empty(),
        phase: Phase::Idle,
    }
}

/// A lock on a ZooKeeper path.
pub struct ZkDistrLock {
    is_acquired: bool,
    path: String,
    identifier: String,
    node_name: String,
    exclude_names: Vec<String>,
    ensure_path: bool,
    prefix: String,
    create_path: String,
    node: String,
    phase: Phase,
}

impl View for ZkDistrLock {
    type V = LockView;

    closed spec fn view(&self) -> LockView {
        LockView {
            is_acquired: self.is_acquired,
            path: self.path@,
            identifier: self.identifier@,
            node_name: self.node_name@,
            exclude_names: names(self.exclude_names@),
            ensure_path: self.ensure_path,
            prefix: self.prefix@,
            create_path: self.create_path@,
            node: self.node@,
            phase: self.phase,
        }
    }
}

impl ZkDistrLock {
    #[verifier::type_invariant]
    closed spec fn inv(self) -> bool {
        self@.wf()
    }

    /// A lock of kind `lock_type` on `path`, whose nodes carry `identifier`
    /// as their data and a fresh random UUID in their names.
    pub fn new(path: String, identifier: String, lock_type: LockType) -> (lock: ZkDistrLock)
        ensures
            exists|u: Seq<char>|
                is_uuid_text(u) && lock@ == #[trigger] initial_view(
                    path@,
                    identifier@,
                    lock_type,
                    u,
                ),
    {
        let uid = fresh_uuid_text();
        let lock = Self::with_uuid(path, identifier, lock_type, uid);
        assert(is_uuid_text(uid@) && lock@ == initial_view(path@, identifier@, lock_type, uid@));
        lock
    }

    /// The lock that `new` builds, for the UUID text `uuid`.
    pub fn with_uuid(path: String, identifier: String, lock_type: LockType, uuid: String) -> (lock:
        ZkDistrLock)
        ensures
            lock@ == initial_view(path@, identifier@, lock_type, uuid@),
    {
        proof {
            reveal_strlit("__lock__");
            reveal_strlit("__rlock__");
            reveal_strlit("/");
        }
        let lock_text = String::from_str("__lock__");
        let rlock_text = String::from_str("__rlock__");
        assert(lock_text@ == lock_name());
        assert(rlock_text@ == rlock_name());
        let mut exclude_names: Vec<String> = Vec::new();
        exclude_names.push(lock_text.clone());
        let node_name = match lock_type {
            LockType::ReadLock => rlock_text,
            _ => {
                exclude_names.push(rlock_text);
                lock_text
            },
        };
        assert(node_name@ == node_name_of(lock_type));
        assert(names(exclude_names@) =~= exclude_names_of(lock_type));
        let prefix = uuid.concat(node_name.as_str());
        let mut create_path = path.clone();
        create_path.append("/");
        create_path.append(prefix.as_str());
        assert(prefix@.subrange(prefix@.len() - node_name@.len(), prefix@.len() as int)
            =~= node_name@);
        assert("/"@ =~= seq!['/']);
        assert(create_path@ =~= child_path(path@, prefix@));
        assert(prefix@.len() >= node_name@.len());
        ZkDistrLock {
            is_acquired: false,
            path: path,
            identifier: identifier,
            node_name: node_name,
            exclude_names: exclude_names,
            ensure_path: false,
            prefix: prefix,
            create_path: create_path,
            node: String::new(),
            phase: Phase::Idle,
        }
    }
}

/// What the caller reports back to the lock: the start of an operation, or
/// the server's answer to the lock's last request.
#[derive(Debug)]
pub enum LockEvent {
    /// Start acquiring, or start releasing.
    Begin,
    /// The answer to `exists` on the lock's path: whether the path exists.
    PathChecked(Result<bool, ZkError>),
    /// `ensure_path` on the lock's path succeeded.
    PathEnsured,
    /// The answer to creating the lock's node: the path it was given.
    Created(Result<String, ZkError>),
    /// The answer to listing the lock's directory.
    Children(Result<Vec<String>, ZkError>),
    /// The watch on the predecessor fired.
    Woken,
    /// The answer to deleting the lock's node.
    Deleted(Result<(), ZkError>),
}

/// What the lock asks the caller to do next.
#[derive(Debug)]
pub enum LockAction {
    /// Ask whether the node at this path exists, without a watch.
    CheckPath(String),
    /// Create the node at this path and any missing parents.
    EnsurePath(String),
    /// Create an ephemeral sequential node at this path, open to all, with
    /// these bytes as data.
    CreateNode(String, Vec<u8>),
    /// List the children of the node at this path, without a watch.
    ListChildren(String),
    /// Read the node at this path with a watch, then wait until the watch
    /// fires.
    WatchAndWait(String),
    /// Delete the node at this path, whatever its version.
    DeleteNode(String),
    /// The operation is over, with this result.
    Finished(Result<bool, RcpError>),
}

/// A [`LockEvent`] as plain values.
pub enum LockEventView {
    Begin,
    PathChecked(Result<bool, ZkError>),
    PathEnsured,
    Created(Result<Seq<char>, ZkError>),
    Children(Result<Seq<Seq<char>>, ZkError>),
    Woken,
    Deleted(Result<(), ZkError>),
}

/// A [`LockAction`] as plain values.
pub enum LockActionView {
    CheckPath(Seq<char>),
    EnsurePath(Seq<char>),
    CreateNode(Seq<char>, Seq<u8>),
    ListChildren(Seq<char>),
    WatchAndWait(Seq<char>),
    DeleteNode(Seq<char>),
    Finished(Result<bool, RcpError>),
}

impl View for LockEvent {
    type V = LockEventView;

    open spec fn view(&self) -> LockEventView {
        match self {
            LockEvent::Begin => LockEventView::Begin,
            LockEvent::PathChecked(r) => LockEventView::PathChecked(*r),
            LockEvent::PathEnsured => LockEventView::PathEnsured,
            LockEvent::Created(r) => LockEventView::Created(
                match r {
                    Ok(p) => Ok(p@),
                    Err(e) => Err(*e),
                },
            ),
            LockEvent::Children(r) => LockEventView::Children(
                match r {
                    Ok(c) => Ok(names(c@)),
                    Err(e) => Err(*e),
                },
            ),
            LockEvent::Woken => LockEventView::Woken,
            LockEvent::Deleted(r) => LockEventView::Deleted(*r),
        }
    }
}

impl View for LockAction {
    type V = LockActionView;

    open spec fn view(&self) -> LockActionView {
        match self {
            LockAction::CheckPath(p) => LockActionView::CheckPath(p@),
            LockAction::EnsurePath(p) => LockActionView::EnsurePath(p@),
            LockAction::CreateNode(p, d) => LockActionView::CreateNode(p@, d@),
            LockAction::ListChildren(p) => LockActionView::ListChildren(p@),
            LockAction::WatchAndWait(p) => LockActionView::WatchAndWait(p@),
            LockAction::DeleteNode(p) => LockActionView::DeleteNode(p@),
            LockAction::Finished(r) => LockActionView::Finished(*r),
        }
    }
}

/// The path that the server gave a created node can be cut after the lock's
/// path and the `/` that follows it.
pub open spec fn created_path_fits(path: Seq<char>, created: Seq<char>) -> bool {
    is_char_boundary(encode_utf8(created), encode_utf8(path).len() + 1int)
}

/// The name of a created node: its path without the lock's path and `/`.
pub open spec fn node_of_created(path: Seq<char>, created: Seq<char>) -> Seq<char> {
    decode_utf8(
        encode_utf8(created).subrange(
            encode_utf8(path).len() + 1int,
            encode_utf8(created).len() as int,
        ),
    )
}

/// The event can be handed to a lock that is acquiring (or about to).
/// Besides the events that the lock waits for, this rules out a created path
/// that cannot be cut after the lock's path, and a listing in which, looking
/// for the predecessor, the lock's node comes first: on both the lock has no
/// defined answer.
pub open spec fn acquire_enabled(s: LockView, e: LockEventView) -> bool {
    match e {
        LockEventView::Begin => s.phase == Phase::Idle,
        LockEventView::PathChecked(_) => s.phase == Phase::CheckingPath,
        LockEventView::PathEnsured => s.phase == Phase::EnsuringPath,
        LockEventView::Created(r) => s.phase == Phase::CreatingNode && (r matches Ok(p)
            ==> created_path_fits(s.path, p)),
        LockEventView::Children(r) => {
            ||| s.phase == Phase::CheckingFirst
            ||| s.phase == Phase::FindingPredecessor && (r matches Ok(c) ==> sorted_by_key(
                c,
            ).index_of_first(s.node) != Some(0int))
        },
        LockEventView::Woken => s.phase == Phase::Watching,
        LockEventView::Deleted(_) => false,
    }
}

/// One step of acquiring: the lock's next state and what it asks for next.
pub open spec fn acquire_next(s: LockView, e: LockEventView) -> (LockView, LockActionView) {
    let create = LockActionView::CreateNode(s.create_path, encode_utf8(s.identifier));
    let idle = LockView { phase: Phase::Idle, ..s };
    match e {
        LockEventView::Begin => (
            LockView { phase: Phase::CheckingPath, ..s },
            LockActionView::CheckPath(s.path),
        ),
        LockEventView::PathChecked(Ok(true)) => (
            LockView { phase: Phase::CreatingNode, ..s },
            create,
        ),
        LockEventView::PathChecked(Ok(false)) => (
            LockView { phase: Phase::EnsuringPath, ..s },
            LockActionView::EnsurePath(s.path),
        ),
        LockEventView::PathChecked(Err(err)) => (
            idle,
            LockActionView::Finished(Err(RcpError::ZkErr(err))),
        ),
        LockEventView::PathEnsured => (LockView { phase: Phase::CreatingNode, ..s }, create),
        LockEventView::Created(Ok(p)) => (
            LockView { phase: Phase::CheckingFirst, node: node_of_created(s.path, p), ..s },
            LockActionView::ListChildren(s.path),
        ),
        LockEventView::Created(Err(err)) => (
            idle,
            LockActionView::Finished(Err(RcpError::ZkErr(err))),
        ),
        LockEventView::Children(Err(err)) => (
            idle,
            LockActionView::Finished(Err(RcpError::ZkErr(err))),
        ),
        LockEventView::Children(Ok(c)) => {
            let sorted = sorted_by_key(c);
            if s.phase == Phase::CheckingFirst {
                if sorted.len() == 0 {
                    (idle, LockActionView::Finished(Err(RcpError::InternalError)))
                } else if sorted[0] == s.node {
                    (
                        LockView { phase: Phase::Idle, is_acquired: true, ..s },
                        LockActionView::Finished(Ok(true)),
                    )
                } else {
                    (
                        LockView { phase: Phase::FindingPredecessor, ..s },
                        LockActionView::ListChildren(s.path),
                    )
                }
            } else {
                match sorted.index_of_first(s.node) {
                    None => (idle, LockActionView::Finished(Err(RcpError::InternalError))),
                    Some(p) => (
                        LockView { phase: Phase::Watching, ..s },
                        LockActionView::WatchAndWait(child_path(s.path, sorted[p - 1])),
                    ),
                }
            }
        },
        LockEventView::Woken => (
            LockView { phase: Phase::CheckingFirst, ..s },
            LockActionView::ListChildren(s.path),
        ),
        LockEventView::Deleted(_) => (s, LockActionView::Finished(Err(RcpError::InternalError))),
    }
}

/// The event can be handed to a lock that is releasing (or about to).
pub open spec fn release_enabled(s: LockView, e: LockEventView) -> bool {
    match e {
        LockEventView::Begin => s.phase == Phase::Idle,
        LockEventView::Deleted(_) => s.phase == Phase::Deleting,
        _ => false,
    }
}

/// One step of releasing: the lock's next state and what it asks for next.
pub open spec fn release_next(s: LockView, e: LockEventView) -> (LockView, LockActionView) {
    match e {
        LockEventView::Begin => if !s.is_acquired {
            (s, LockActionView::Finished(Ok(false)))
        } else {
            (
                LockView { phase: Phase::Deleting, ..s },
                LockActionView::DeleteNode(child_path(s.path, s.node)),
            )
        },
        LockEventView::Deleted(Ok(())) => (
            LockView { phase: Phase::Idle, is_acquired: false, node: Seq::empty(), ..s },
            LockActionView::Finished(Ok(true)),
        ),
        LockEventView::Deleted(Err(err)) => (
            LockView { phase: Phase::Idle, ..s },
            LockActionView::Finished(Err(RcpError::ZkErr(err))),
        ),
        _ => (s, LockActionView::Finished(Err(RcpError::InternalError))),
    }
}

/// The index of the first child named `node`.
fn position_of(sorted: &Vec<String>, node: &String) -> (r: Option<usize>)
    ensures
        match r {
            Some(p) => names(sorted@).index_of_first(node@) == Some(p as int),
            None => names(sorted@).index_of_first(node@) is None,
        },
{
    let ghost s = names(sorted@);
    proof {
        s.index_of_first_ensures(node@);
    }
    let mut i: usize = 0;
    while i < sorted.len()
        invariant
            i <= sorted@.len(),
            s == names(sorted@),
            forall|m: int| 0 <= m < i ==> s[m] != node@,
        decreases sorted@.len() - i,
    {
        if sorted[i].eq(node) {
            assert(s[i as int] == node@);
            assert(s.contains(node@));
            proof {
                s.index_of_first_ensures(node@);
            }
            let ghost idx = s.index_of_first(node@)->Some_0;
            assert(s[idx] == node@);
            assert(!(idx < i)) by {
                if idx < i {
                    assert(s[idx] != node@);
                }
            }
            assert(!(i < idx)) by {
                if i < idx {
                    assert(s[i as int] != node@);
                }
            }
            return Some(i);
        }
        i += 1;
    }
    assert(!s.contains(node@));
    None
}

impl ZkDistrLock {
    /// Whether the lock's node comes first among the listed children, in key
    /// order; an error when the directory has no children at all.
    fn is_first(&self, children: &Vec<String>) -> (r: Result<bool, RcpError>)
        ensures
            ({
                let sorted = sorted_by_key(names(children@));
                if sorted.len() == 0 {
                    r == Err::<bool, RcpError>(RcpError::InternalError)
                } else {
                    r == Ok::<bool, RcpError>(sorted[0] == self@.node)
                }
            }),
    {
        let sorted = get_sorted_children(children);
        if sorted.len() < 1 {
            return Err(RcpError::InternalError);
        }
        Ok(sorted[0].eq(&self.node))
    }

    /// The child just before the lock's node, in key order; an error when the
    /// lock's node is not among the children.
    fn predecessor(&self, children: &Vec<String>) -> (r: Result<String, RcpError>)
        requires
            sorted_by_key(names(children@)).index_of_first(self@.node) != Some(0int),
        ensures
            ({
                let sorted = sorted_by_key(names(children@));
                match sorted.index_of_first(self@.node) {
                    None => r == Err::<String, RcpError>(RcpError::InternalError),
                    Some(p) => r is Ok && r->Ok_0@ == sorted[p - 1],
                }
            }),
    {
        let sorted = get_sorted_children(children);
        let pos = match position_of(&sorted, &self.node) {
            Some(pos) => pos,
            None => {
                return Err(RcpError::InternalError);
            },
        };
        proof {
            names(sorted@).index_of_first_ensures(self.node@);
        }
        Ok(sorted[pos - 1].clone())
    }

    /// The name of the node created at `created`: what follows the lock's
    /// path and the `/` after it.
    fn node_of(&self, created: &String) -> (node: String)
        requires
            created_path_fits(self@.path, created@),
        ensures
            node@ == node_of_created(self@.path, created@),
    {
        let n = created.as_str().as_bytes().len();
        let l = self.path.as_str().as_bytes().len();
        let (_, tail) = created.as_str().split_at(l + 1);
        String::from_str(tail)
    }

    /// The path of the child `name` of the lock's directory.
    fn child_of(&self, name: &String) -> (p: String)
        ensures
            p@ == child_path(self@.path, name@),
    {
        proof {
            reveal_strlit("/");
        }
        let mut p = self.path.clone();
        p.append("/");
        p.append(name.as_str());
        assert("/"@ =~= seq!['/']);
        p
    }
}

impl ZkDistrLock {
    /// One step of acquiring the lock: from `Begin` in an idle lock, through
    /// the answers to the requests it makes, to `Finished` with `Ok(true)`
    /// when the lock is held, or with the error that stopped it.
    pub fn acquire(&mut self, event: LockEvent) -> (action: LockAction)
        requires
            acquire_enabled(old(self)@, event@),
        ensures
            (final(self)@, action@) == acquire_next(old(self)@, event@),
    {
        proof {
            use_type_invariant(&*self);
        }
        match event {
            LockEvent::Begin => {
                self.phase = Phase::CheckingPath;
                LockAction::CheckPath(self.path.clone())
            },
            LockEvent::PathChecked(r) => match r {
                Ok(exists) => {
                    if exists {
                        self.phase = Phase::CreatingNode;
                        LockAction::CreateNode(
                            self.create_path.clone(),
                            self.identifier.as_str().as_bytes_vec(),
                        )
                    } else {
                        self.phase = Phase::EnsuringPath;
                        LockAction::EnsurePath(self.path.clone())
                    }
                },
                Err(e) => {
                    self.phase = Phase::Idle;
                    LockAction::Finished(Err(RcpError::ZkErr(e)))
                },
            },
            LockEvent::PathEnsured => {
                self.phase = Phase::CreatingNode;
                LockAction::CreateNode(
                    self.create_path.clone(),
                    self.identifier.as_str().as_bytes_vec(),
                )
            },
            LockEvent::Created(r) => match r {
                Ok(node_path) => {
                    self.node = self.node_of(&node_path);
                    self.phase = Phase::CheckingFirst;
                    LockAction::ListChildren(self.path.clone())
                },
                Err(e) => {
                    self.phase = Phase::Idle;
                    LockAction::Finished(Err(RcpError::from(e)))
                },
            },
            LockEvent::Children(r) => match r {
                Ok(children) => {
                    if self.phase == Phase::CheckingFirst {
                        match self.is_first(&children) {
                            Ok(first) => {
                                if first {
                                    self.phase = Phase::Idle;
                                    self.is_acquired = true;
                                    LockAction::Finished(Ok(true))
                                } else {
                                    self.phase = Phase::FindingPredecessor;
                                    LockAction::ListChildren(self.path.clone())
                                }
                            },
                            Err(err) => {
                                self.phase = Phase::Idle;
                                LockAction::Finished(Err(err))
                            },
                        }
                    } else {
                        match self.predecessor(&children) {
                            Ok(pre) => {
                                let watched = self.child_of(&pre);
                                self.phase = Phase::Watching;
                                LockAction::WatchAndWait(watched)
                            },
                            Err(err) => {
                                self.phase = Phase::Idle;
                                LockAction::Finished(Err(err))
                            },
                        }
                    }
                },
                Err(e) => {
                    self.phase = Phase::Idle;
                    LockAction::Finished(Err(RcpError::from(e)))
                },
            },
            LockEvent::Woken => {
                self.phase = Phase::CheckingFirst;
                LockAction::ListChildren(self.path.clone())
            },
            LockEvent::Deleted(_) => LockAction::Finished(Err(RcpError::InternalError)),
        }
    }

    /// One step of releasing the lock: `Begin` answers `Ok(false)` at once
    /// when the lock is not held, and otherwise asks to delete its node; the
    /// answer to that delete ends the release.
    pub fn release(&mut self, event: LockEvent) -> (action: LockAction)
        requires
            release_enabled(old(self)@, event@),
        ensures
            (final(self)@, action@) == release_next(old(self)@, event@),
    {
        proof {
            use_type_invariant(&*self);
        }
        match event {
            LockEvent::Begin => {
                if !self.is_acquired {
                    return LockAction::Finished(Ok(false));
                }
                let target = self.child_of(&self.node);
                self.phase = Phase::Deleting;
                LockAction::DeleteNode(target)
            },
            LockEvent::Deleted(r) => match r {
                Ok(()) => {
                    self.phase = Phase::Idle;
                    self.is_acquired = false;
                    self.node = String::new();
                    LockAction::Finished(Ok(true))
                },
                Err(e) => {
                    self.phase = Phase::Idle;
                    LockAction::Finished(Err(RcpError::from(e)))
                },
            },
            _ => LockAction::Finished(Err(RcpError::InternalError)),
        }
    }

    /// Whether `acquire` accepts this event now; a caller tests it before
    /// each step.
    pub fn acquire_accepts(&self, event: &LockEvent) -> (b: bool)
        ensures
            b == acquire_enabled(self@, event@),
    {
        match event {
            LockEvent::Begin => self.phase == Phase::Idle,
            LockEvent::PathChecked(_) => self.phase == Phase::CheckingPath,
            LockEvent::PathEnsured => self.phase == Phase::EnsuringPath,
            LockEvent::Created(r) => {
                if self.phase != Phase::CreatingNode {
                    return false;
                }
                match r {
                    Ok(p) => {
                        let n = p.as_str().as_bytes().len();
                        let l = self.path.as_str().as_bytes().len();
                        if l >= n {
                            false
                        } else {
                            p.as_str().is_char_boundary(l + 1)
                        }
                    },
                    Err(_) => true,
                }
            },
            LockEvent::Children(r) => {
                if self.phase == Phase::CheckingFirst {
                    return true;
                }
                if self.phase != Phase::FindingPredecessor {
                    return false;
                }
                match r {
                    Ok(children) => {
                        let sorted = get_sorted_children(children);
                        match position_of(&sorted, &self.node) {
                            Some(p) => p != 0,
                            None => true,
                        }
                    },
                    Err(_) => true,
                }
            },
            LockEvent::Woken => self.phase == Phase::Watching,
            LockEvent::Deleted(_) => false,
        }
    }

    /// Whether `release` accepts this event now.
    pub fn release_accepts(&self, event: &LockEvent) -> (b: bool)
        ensures
            b == release_enabled(self@, event@),
    {
        match event {
            LockEvent::Begin => self.phase == Phase::Idle,
            LockEvent::Deleted(_) => self.phase == Phase::Deleting,
            _ => false,
        }
    }

    /// Whether the lock is held.
    pub fn is_acquired(&self) -> (b: bool)
        ensures
            b == self@.is_acquired,
    {
        self.is_acquired
    }

    /// The name of the lock's node, empty before one is created.
    pub fn node(&self) -> (n: &String)
        ensures
            n@ == self@.node,
    {
        &self.node
    }

    /// The prefix of the lock's node names: a UUID text and the node name.
    pub fn prefix(&self) -> (p: &String)
        ensures
            p@ == self@.prefix,
    {
        &self.prefix
    }
}

// ---------------------------------------------------------------------------
// Critical sections
// ---------------------------------------------------------------------------

/// Where a critical section stands: idle, acquiring its lock, running its
/// body, or releasing its lock.
#[derive(Clone, Copy, Debug, PartialEq, Eq, Structural)]
pub enum GuardStage {
    Idle,
    Acquiring,
    InBody,
    Releasing,
}

/// A section of code that runs only while an exclusive lock is held.
pub struct ZkCriticalSection {
    lock: ZkDistrLock,
    stage: GuardStage,
}

/// A critical section as plain values.
pub struct GuardView {
    pub lock: LockView,
    pub stage: GuardStage,
}

/// What the caller reports back to a critical section.
#[derive(Debug)]
pub enum GuardEvent {
    /// Start the section.
    Begin,
    /// The server's answer to the lock's last request.
    Lock(LockEvent),
    /// The body has run.
    BodyDone,
}

/// What a critical section asks the caller to do next.
#[derive(Debug)]
pub enum GuardAction {
    /// A request of the lock.
    Lock(LockAction),
    /// Run the body.
    RunBody,
    /// The section is over, with this result.
    Finished(Result<(), RcpError>),
}

/// A [`GuardEvent`] as plain values.
pub enum GuardEventView {
    Begin,
    Lock(LockEventView),
    BodyDone,
}

/// A [`GuardAction`] as plain values.
pub enum GuardActionView {
    Lock(LockActionView),
    RunBody,
    Finished(Result<(), RcpError>),
}

impl View for GuardEvent {
    type V = GuardEventView;

    open spec fn view(&self) -> GuardEventView {
        match self {
            GuardEvent::Begin => GuardEventView::Begin,
            GuardEvent::Lock(e) => GuardEventView::Lock(e@),
            GuardEvent::BodyDone => GuardEventView::BodyDone,
        }
    }
}

impl View for GuardAction {
    type V = GuardActionView;

    open spec fn view(&self) -> GuardActionView {
        match self {
            GuardAction::Lock(a) => GuardActionView::Lock(a@),
            GuardAction::RunBody => GuardActionView::RunBody,
            GuardAction::Finished(r) => GuardActionView::Finished(*r),
        }
    }
}

impl View for ZkCriticalSection {
    type V = GuardView;

    closed spec fn view(&self) -> GuardView {
        GuardView { lock: self.lock@, stage: self.stage }
    }
}

/// The phases in which a lock waits for an answer while acquiring.
pub open spec fn is_acquiring_phase(p: Phase) -> bool {
    p != Phase::Idle && p != Phase::Deleting
}

/// The event can be handed to the critical section: its stage agrees with
/// its lock's phase, and the event is one that the stage waits for.
pub open spec fn guard_enabled(g: GuardView, e: GuardEventView) -> bool {
    match e {
        GuardEventView::Begin => g.stage == GuardStage::Idle && g.lock.phase == Phase::Idle,
        GuardEventView::Lock(ev) => {
            ||| g.stage == GuardStage::Acquiring && is_acquiring_phase(g.lock.phase)
                && acquire_enabled(g.lock, ev)
            ||| g.stage == GuardStage::Releasing && release_enabled(g.lock, ev)
        },
        GuardEventView::BodyDone => g.stage == GuardStage::InBody && g.lock.phase == Phase::Idle,
    }
}

/// After a step of acquiring: run the body once the lock is held, stop on
/// an error, and otherwise pass the lock's request on.
pub open spec fn after_acquire_step(r: (LockView, LockActionView)) -> (GuardView, GuardActionView) {
    match r.1 {
        LockActionView::Finished(Ok(_)) => (
            GuardView { lock: r.0, stage: GuardStage::InBody },
            GuardActionView::RunBody,
        ),
        LockActionView::Finished(Err(err)) => (
            GuardView { lock: r.0, stage: GuardStage::Idle },
            GuardActionView::Finished(Err(err)),
        ),
        _ => (GuardView { lock: r.0, stage: GuardStage::Acquiring }, GuardActionView::Lock(r.1)),
    }
}

/// After a step of releasing: done once the lock answered, and otherwise
/// pass the lock's request on.
pub open spec fn after_release_step(r: (LockView, LockActionView)) -> (GuardView, GuardActionView) {
    match r.1 {
        LockActionView::Finished(Ok(_)) => (
            GuardView { lock: r.0, stage: GuardStage::Idle },
            GuardActionView::Finished(Ok(())),
        ),
        LockActionView::Finished(Err(err)) => (
            GuardView { lock: r.0, stage: GuardStage::Idle },
            GuardActionView::Finished(Err(err)),
        ),
        _ => (GuardView { lock: r.0, stage: GuardStage::Releasing }, GuardActionView::Lock(r.1)),
    }
}

/// One step of a critical section: acquire, run the body, release.
pub open spec fn guard_next(g: GuardView, e: GuardEventView) -> (GuardView, GuardActionView) {
    match e {
        GuardEventView::Begin => after_acquire_step(acquire_next(g.lock, LockEventView::Begin)),
        GuardEventView::Lock(ev) => if g.stage == GuardStage::Acquiring {
            after_acquire_step(acquire_next(g.lock, ev))
        } else {
            after_release_step(release_next(g.lock, ev))
        },
        GuardEventView::BodyDone => after_release_step(release_next(g.lock, LockEventView::Begin)),
    }
}

impl ZkCriticalSection {
    /// A critical section on `path`, guarded by an exclusive lock whose
    /// nodes carry `identifier`. Threads that share it put it behind a mutex.
    pub fn new(path: String, identifier: String) -> (cs: ZkCriticalSection)
        ensures
            cs@.stage == GuardStage::Idle,
            exists|u: Seq<char>|
                is_uuid_text(u) && cs@.lock == #[trigger] initial_view(
                    path@,
                    identifier@,
                    LockType::Lock,
                    u,
                ),
    {
        ZkCriticalSection { lock: ZkDistrLock::new(path, identifier, LockType::Lock), stage: GuardStage::Idle }
    }

    /// One step of running a body under the lock: acquire the lock, ask for
    /// the body to run once the lock is held, then release the lock; an error
    /// of either stops the section with it.
    pub fn guard(&mut self, event: GuardEvent) -> (action: GuardAction)
        requires
            guard_enabled(old(self)@, event@),
        ensures
            (final(self)@, action@) == guard_next(old(self)@, event@),
    {
        match event {
            GuardEvent::Begin => {
                let a = self.lock.acquire(LockEvent::Begin);
                self.after_acquire(a)
            },
            GuardEvent::Lock(ev) => {
                if self.stage == GuardStage::Acquiring {
                    let a = self.lock.acquire(ev);
                    self.after_acquire(a)
                } else {
                    let a = self.lock.release(ev);
                    self.after_release(a)
                }
            },
            GuardEvent::BodyDone => {
                let a = self.lock.release(LockEvent::Begin);
                self.after_release(a)
            },
        }
    }

    fn after_acquire(&mut self, a: LockAction) -> (action: GuardAction)
        ensures
            (final(self)@, action@) == after_acquire_step((old(self)@.lock, a@)),
    {
        match a {
            LockAction::Finished(r) => match r {
                Ok(_) => {
                    self.stage = GuardStage::InBody;
                    GuardAction::RunBody
                },
                Err(err) => {
                    self.stage = GuardStage::Idle;
                    GuardAction::Finished(Err(err))
                },
            },
            other => {
                self.stage = GuardStage::Acquiring;
                GuardAction::Lock(other)
            },
        }
    }

    fn after_release(&mut self, a: LockAction) -> (action: GuardAction)
        ensures
            (final(self)@, action@) == after_release_step((old(self)@.lock, a@)),
    {
        match a {
            LockAction::Finished(r) => match r {
                Ok(_) => {
                    self.stage = GuardStage::Idle;
                    GuardAction::Finished(Ok(()))
                },
                Err(err) => {
                    self.stage = GuardStage::Idle;
                    GuardAction::Finished(Err(err))
                },
            },
            other => {
                self.stage = GuardStage::Releasing;
                GuardAction::Lock(other)
            },
        }
    }

    /// Whether `guard` accepts this event now; a caller tests it before each
    /// step.
    pub fn guard_accepts(&self, event: &GuardEvent) -> (b: bool)
        ensures
            b == guard_enabled(self@, event@),
    {
        match event {
            GuardEvent::Begin => self.stage == GuardStage::Idle && self.lock.phase == Phase::Idle,
            GuardEvent::Lock(ev) => {
                if self.stage == GuardStage::Acquiring {
                    self.lock.phase != Phase::Idle && self.lock.phase != Phase::Deleting
                        && self.lock.acquire_accepts(ev)
                } else if self.stage == GuardStage::Releasing {
                    self.lock.release_accepts(ev)
                } else {
                    false
                }
            },
            GuardEvent::BodyDone => self.stage == GuardStage::InBody && self.lock.phase
                == Phase::Idle,
        }
    }

    /// The lock that guards the section.
    pub fn lock(&self) -> (l: &ZkDistrLock)
        ensures
            l@ == self@.lock,
    {
        &self.lock
    }
}

} // verus!
