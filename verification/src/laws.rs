//! What holds of the lock recipe across its steps.
use vstd::prelude::*;
use vstd::utf8::{encode_utf8, is_ascii_chars};
use crate::children::{
    name_key, lex_lt, sorted_by_key, lemma_sorted_by_key, occurs_at, first_occurrence_from,
    lock_marker, rlock_marker, lemma_lex_lt_first_difference, unmarked_key,
};
use crate::zoo_lock::{
    LockView, LockEventView, LockActionView, Phase, GuardView, GuardStage, GuardEventView,
    GuardActionView, acquire_enabled, acquire_next, release_enabled, release_next, guard_enabled,
    guard_next, child_path, is_acquiring_phase, LockType, is_uuid_text, node_name_of,
    initial_view, node_of_created,
};
use crate::errors::RcpError;

verus! {

/// In the children's order, where the keys of an earlier and a later child
/// first differ, the earlier one has the smaller byte: children come in the
/// byte-wise order of their keys, so equal-length decimal sequence numbers
/// come in numeric order.
pub proof fn lemma_sorted_children_bytewise(c: Seq<Seq<char>>, i: int, j: int, k: int)
    requires
        0 <= i < j < sorted_by_key(c).len(),
        0 <= k < name_key(sorted_by_key(c)[i]).len(),
        k < name_key(sorted_by_key(c)[j]).len(),
        name_key(sorted_by_key(c)[i]).subrange(0, k) == name_key(sorted_by_key(c)[j]).subrange(0, k),
        name_key(sorted_by_key(c)[i])[k] != name_key(sorted_by_key(c)[j])[k],
    ensures
        name_key(sorted_by_key(c)[i])[k] < name_key(sorted_by_key(c)[j])[k],
{
    let s = sorted_by_key(c);
    lemma_sorted_by_key(c);
    assert(!lex_lt(name_key(s[j]), name_key(s[i])));
    if name_key(s[j])[k] < name_key(s[i])[k] {
        lemma_lex_lt_first_difference(name_key(s[j]), name_key(s[i]), k);
    }
}

/// Every request that a step of acquiring makes is about the lock's own
/// directory: the path is checked, ensured and listed as it is, the node is
/// created at the lock's create path with the UTF-8 bytes of its identifier
/// as data, and a watch is set only on a child of the directory.
pub proof fn lemma_acquire_requests(s: LockView, e: LockEventView)
    requires
        acquire_enabled(s, e),
    ensures
        acquire_next(s, e).1 matches LockActionView::CreateNode(p, d) ==> p == s.create_path && d
            == encode_utf8(s.identifier),
        acquire_next(s, e).1 matches LockActionView::CheckPath(p) ==> p == s.path,
        acquire_next(s, e).1 matches LockActionView::EnsurePath(p) ==> p == s.path,
        acquire_next(s, e).1 matches LockActionView::ListChildren(p) ==> p == s.path,
        acquire_next(s, e).1 matches LockActionView::WatchAndWait(p) ==> exists|n: Seq<char>|
            p == #[trigger] child_path(s.path, n),
        !(acquire_next(s, e).1 is DeleteNode),
{
}

/// A critical section hands an error of its lock on unchanged, and finishes
/// with `Ok(())` only when the lock's step it just took finished with `Ok`;
/// a section that finishes with `Ok(())` has given its lock up.
pub proof fn lemma_guard_result_from_lock(g: GuardView, e: GuardEventView, err: RcpError)
    requires
        guard_enabled(g, e),
        stage_agrees(g),
    ensures
        g.stage == GuardStage::Releasing ==> (e matches GuardEventView::Lock(ev) && {
            &&& release_next(g.lock, ev).1 == LockActionView::Finished(Err(err))
                ==> guard_next(g, e).1 == GuardActionView::Finished(Err(err))
            &&& guard_next(g, e).1 == GuardActionView::Finished(Ok(())) ==> release_next(
                g.lock,
                ev,
            ).1 matches LockActionView::Finished(Ok(_))
        }),
        g.stage == GuardStage::Acquiring ==> (e matches GuardEventView::Lock(ev) && {
            &&& acquire_next(g.lock, ev).1 == LockActionView::Finished(Err(err))
                ==> guard_next(g, e).1 == GuardActionView::Finished(Err(err))
            &&& !(guard_next(g, e).1 matches GuardActionView::Finished(Ok(_)))
        }),
        guard_next(g, e).1 == GuardActionView::Finished(Ok(())) ==> !guard_next(
            g,
            e,
        ).0.lock.is_acquired,
        guard_next(g, e).1 == GuardActionView::Finished(Err(err)) ==> (e matches GuardEventView::Lock(
            ev,
        ) && (acquire_next(g.lock, ev).1 == LockActionView::Finished(Err(err)) || release_next(
            g.lock,
            ev,
        ).1 == LockActionView::Finished(Err(err)))),
{
}

/// A lock reports that it holds the lock only on a listing of its directory
/// in which its own node comes first in key order, and it then holds it.
pub proof fn lemma_acquired_only_when_first(s: LockView, e: LockEventView)
    requires
        acquire_enabled(s, e),
        acquire_next(s, e).1 == LockActionView::Finished(Ok(true)),
    ensures
        s.phase == Phase::CheckingFirst,
        e matches LockEventView::Children(Ok(c)) && sorted_by_key(c).len() > 0 && sorted_by_key(
            c,
        )[0] == s.node,
        acquire_next(s, e).0.is_acquired,
        acquire_next(s, e).0.phase == Phase::Idle,
{
}

/// Of two locks with different nodes that look at the same listing of their
/// directory, at most one finds that it holds the lock.
pub proof fn lemma_one_holder_per_listing(s1: LockView, s2: LockView, c: Seq<Seq<char>>)
    requires
        s1.node != s2.node,
        acquire_enabled(s1, LockEventView::Children(Ok(c))),
        acquire_enabled(s2, LockEventView::Children(Ok(c))),
    ensures
        !(acquire_next(s1, LockEventView::Children(Ok(c))).1 == LockActionView::Finished(Ok(true))
            && acquire_next(s2, LockEventView::Children(Ok(c))).1 == LockActionView::Finished(
            Ok(true),
        )),
{
}

/// A lock whose own node comes first in key order holds the lock.
pub proof fn lemma_first_acquires(s: LockView, c: Seq<Seq<char>>)
    requires
        s.phase == Phase::CheckingFirst,
        sorted_by_key(c).len() > 0,
        sorted_by_key(c)[0] == s.node,
    ensures
        acquire_enabled(s, LockEventView::Children(Ok(c))),
        acquire_next(s, LockEventView::Children(Ok(c))) == (
            LockView { phase: Phase::Idle, is_acquired: true, ..s },
            LockActionView::Finished(Ok(true)),
        ),
{
}

/// Every step of acquiring or releasing keeps the lock well formed and its
/// configuration (path, identifier, node name, exclusions, prefix) as it was.
pub proof fn lemma_steps_keep_config(s: LockView, e: LockEventView)
    requires
        s.wf(),
    ensures
        acquire_enabled(s, e) ==> acquire_next(s, e).0.wf() && acquire_next(s, e).0.same_config(s),
        release_enabled(s, e) ==> release_next(s, e).0.wf() && release_next(s, e).0.same_config(s),
{
}

/// Releasing a held lock asks to delete its node; once the delete succeeds
/// the lock is exactly as it was before it was acquired.
pub proof fn lemma_release_undoes_acquire(fresh: LockView, held: LockView)
    requires
        fresh.phase == Phase::Idle,
        !fresh.is_acquired,
        fresh.node == Seq::<char>::empty(),
        held.same_config(fresh),
        held.phase == Phase::Idle,
        held.is_acquired,
    ensures
        release_enabled(held, LockEventView::Begin),
        release_next(held, LockEventView::Begin).1 == LockActionView::DeleteNode(
            child_path(held.path, held.node),
        ),
        release_enabled(
            release_next(held, LockEventView::Begin).0,
            LockEventView::Deleted(Ok(())),
        ),
        release_next(release_next(held, LockEventView::Begin).0, LockEventView::Deleted(Ok(())))
            == (fresh, LockActionView::Finished(Ok(true))),
{
}

/// Releasing a lock that is not held answers `Ok(false)` and changes
/// nothing.
pub proof fn lemma_release_unheld(s: LockView)
    requires
        s.phase == Phase::Idle,
        !s.is_acquired,
    ensures
        release_enabled(s, LockEventView::Begin),
        release_next(s, LockEventView::Begin) == (s, LockActionView::Finished(Ok(false))),
{
}

/// A lock whose node is not first watches the child just before its own
/// node in key order, whose key is not greater than its own node's.
pub proof fn lemma_watches_predecessor(s: LockView, c: Seq<Seq<char>>)
    requires
        s.phase == Phase::FindingPredecessor,
        acquire_enabled(s, LockEventView::Children(Ok(c))),
        sorted_by_key(c).contains(s.node),
    ensures
        sorted_by_key(c).index_of_first(s.node) matches Some(p) && {
            &&& 1 <= p < sorted_by_key(c).len()
            &&& sorted_by_key(c)[p] == s.node
            &&& acquire_next(s, LockEventView::Children(Ok(c))).1
                == LockActionView::WatchAndWait(child_path(s.path, sorted_by_key(c)[p - 1]))
            &&& !lex_lt(name_key(s.node), name_key(sorted_by_key(c)[p - 1]))
        },
{
    let sorted = sorted_by_key(c);
    sorted.index_of_first_ensures(s.node);
    lemma_sorted_by_key(c);
    let p = sorted.index_of_first(s.node)->Some_0;
    assert(!lex_lt(name_key(sorted[p]), name_key(sorted[p - 1])));
}

/// A lock whose node has left the listing gives up with an internal error.
pub proof fn lemma_lost_node(s: LockView, c: Seq<Seq<char>>)
    requires
        s.phase == Phase::FindingPredecessor,
        !sorted_by_key(c).contains(s.node),
    ensures
        acquire_enabled(s, LockEventView::Children(Ok(c))),
        acquire_next(s, LockEventView::Children(Ok(c))) == (
            LockView { phase: Phase::Idle, ..s },
            LockActionView::Finished(Err(RcpError::InternalError)),
        ),
{
    sorted_by_key(c).index_of_first_ensures(s.node);
}

/// Acquiring answers `Ok` only with `true`, and only once the lock is held.
pub proof fn lemma_acquire_ok_is_held(s: LockView, e: LockEventView)
    requires
        acquire_enabled(s, e),
        acquire_next(s, e).1 matches LockActionView::Finished(Ok(_)),
    ensures
        acquire_next(s, e).1 == LockActionView::Finished(Ok(true)),
        acquire_next(s, e).0.is_acquired,
{
}

/// A critical section's stage agrees with its lock: the lock is held while
/// the body runs.
pub open spec fn stage_agrees(g: GuardView) -> bool {
    match g.stage {
        GuardStage::Acquiring => is_acquiring_phase(g.lock.phase),
        GuardStage::Releasing => g.lock.phase == Phase::Deleting,
        GuardStage::InBody => g.lock.phase == Phase::Idle && g.lock.is_acquired,
        GuardStage::Idle => g.lock.phase == Phase::Idle,
    }
}

/// Every step of a critical section keeps its stage in agreement with its
/// lock; in particular the lock is held whenever the body runs.
pub proof fn lemma_guard_keeps_stage(g: GuardView, e: GuardEventView)
    requires
        stage_agrees(g),
        guard_enabled(g, e),
    ensures
        stage_agrees(guard_next(g, e).0),
{
}

/// A critical section asks for its body to run only right after acquiring
/// its lock answered `Ok(true)`, and the lock is then held.
pub proof fn lemma_body_after_acquire(g: GuardView, e: GuardEventView)
    requires
        guard_enabled(g, e),
        guard_next(g, e).1 == GuardActionView::RunBody,
    ensures
        g.stage == GuardStage::Acquiring,
        e matches GuardEventView::Lock(ev) && acquire_next(g.lock, ev).1
            == LockActionView::Finished(Ok(true)),
        guard_next(g, e).0.lock.is_acquired,
        guard_next(g, e).0.stage == GuardStage::InBody,
{
}

/// Once its body has run, a critical section releases its lock: it asks to
/// delete the lock's node.
pub proof fn lemma_release_after_body(g: GuardView)
    requires
        g.stage == GuardStage::InBody,
        stage_agrees(g),
    ensures
        guard_enabled(g, GuardEventView::BodyDone),
        guard_next(g, GuardEventView::BodyDone) == (
            GuardView {
                lock: LockView { phase: Phase::Deleting, ..g.lock },
                stage: GuardStage::Releasing,
            },
            GuardActionView::Lock(
                LockActionView::DeleteNode(child_path(g.lock.path, g.lock.node)),
            ),
        ),
{
}

/// The text of a decimal number.
pub open spec fn is_decimal(d: Seq<char>) -> bool {
    forall|i: int| 0 <= i < d.len() ==> '0' <= #[trigger] d[i] <= '9'
}

/// No occurrence between `from` and `to`, and one at `to`: the first
/// occurrence from `from` on is at `to`.
proof fn lemma_first_at(hay: Seq<u8>, pat: Seq<u8>, from: int, to: int)
    requires
        0 <= from <= to,
        occurs_at(hay, pat, to),
        forall|j: int| from <= j < to ==> !occurs_at(hay, pat, j),
    ensures
        first_occurrence_from(hay, pat, from) == Some(to),
    decreases to - from,
{
    if from < to {
        lemma_first_at(hay, pat, from + 1, to);
    }
}

/// No occurrence at or after `from`: none found.
proof fn lemma_first_none(hay: Seq<u8>, pat: Seq<u8>, from: int)
    requires
        0 <= from,
        forall|j: int| from <= j ==> !occurs_at(hay, pat, j),
    ensures
        first_occurrence_from(hay, pat, from) is None,
    decreases hay.len() + 1 - from,
{
    if from + pat.len() <= hay.len() {
        lemma_first_none(hay, pat, from + 1);
    }
}

/// The node that a lock creates is named by its prefix (a UUID text and the
/// lock's node name) followed by the sequence number that the server
/// appends; its key is that number. Nodes of the recipe are therefore
/// ordered by their sequence numbers, whatever their UUIDs.
pub proof fn lemma_created_node_key(u: Seq<char>, t: LockType, d: Seq<char>)
    requires
        is_uuid_text(u),
        is_decimal(d),
    ensures
        name_key(u + node_name_of(t) + d) == encode_utf8(d),
{
    let nm = node_name_of(t);
    let n = u + nm + d;
    let m: int = (u.len() + nm.len()) as int;
    assert(is_ascii_chars(n)) by {
        assert forall|i: int| 0 <= i < n.len() implies '\0' <= #[trigger] n[i] <= '\u{7f}' by {
            if i < 36 {
                assert(n[i] == u[i]);
            } else if i < m {
                assert(n[i] == nm[i - 36]);
            } else {
                assert(n[i] == d[i - m]);
            }
        }
    }
    assert(is_ascii_chars(d));
    vstd::utf8::is_ascii_chars_encode_utf8(n);
    vstd::utf8::is_ascii_chars_encode_utf8(d);
    let b = encode_utf8(n);
    assert forall|i: int| 0 <= i < 36 implies #[trigger] b[i] != 95u8 by {
        assert(n[i] == u[i]);
        assert(b[i] == u[i] as u8);
    }
    assert forall|i: int| m <= i < n.len() implies #[trigger] b[i] != 95u8 && b[i] == encode_utf8(
        d,
    )[i - m] by {
        assert(n[i] == d[i - m]);
    }
    assert forall|i: int| 36 <= i < m implies #[trigger] b[i] == nm[i - 36] as u8 by {
        assert(n[i] == nm[i - 36]);
    }
    assert forall|j: int| 0 <= j < 36 implies !occurs_at(b, lock_marker(), j)
        && !occurs_at(b, rlock_marker(), j) by {
        if occurs_at(b, lock_marker(), j) {
            assert(b.subrange(j, j + 8)[0] == b[j]);
        }
        if occurs_at(b, rlock_marker(), j) {
            assert(b.subrange(j, j + 9)[0] == b[j]);
        }
    }
    assert(b.subrange(m, b.len() as int) =~= encode_utf8(d));
    match t {
        LockType::ReadLock => {
            assert(occurs_at(b, rlock_marker(), 36)) by {
                assert(b.subrange(36, 45) =~= rlock_marker());
            }
            lemma_first_at(b, rlock_marker(), 0, 36);
            assert forall|j: int| 0 <= j implies !occurs_at(b, lock_marker(), j) by {
                if occurs_at(b, lock_marker(), j) {
                    let w = b.subrange(j, j + 8);
                    if 36 <= j <= 44 {
                        if j == 36 {
                            assert(w[2] == b[38]);
                        } else if j == 37 {
                            assert(w[1] == b[38]);
                        } else if j == 43 {
                            assert(w[2] == b[45]);
                        } else if j == 44 {
                            assert(w[1] == b[45]);
                        } else {
                            assert(w[0] == b[j]);
                        }
                    } else {
                        assert(w[0] == b[j]);
                    }
                }
            }
            lemma_first_none(b, lock_marker(), 0);
        },
        _ => {
            assert(occurs_at(b, lock_marker(), 36)) by {
                assert(b.subrange(36, 44) =~= lock_marker());
            }
            lemma_first_at(b, lock_marker(), 0, 36);
        },
    }
}

/// The UTF-8 encoding of a concatenation is the concatenation of the
/// encodings.
proof fn lemma_encode_utf8_concat(a: Seq<char>, b: Seq<char>)
    ensures
        encode_utf8(a + b) == encode_utf8(a) + encode_utf8(b),
    decreases a.len(),
{
    if a.len() == 0 {
        assert(a + b =~= b);
        assert(encode_utf8(a) =~= Seq::<u8>::empty());
        assert(encode_utf8(a) + encode_utf8(b) =~= encode_utf8(b));
    } else {
        assert((a + b).drop_first() =~= a.drop_first() + b);
        assert((a + b)[0] == a[0]);
        lemma_encode_utf8_concat(a.drop_first(), b);
        let es = vstd::utf8::encode_scalar(a[0] as u32);
        assert(es + (encode_utf8(a.drop_first()) + encode_utf8(b)) =~= (es + encode_utf8(
            a.drop_first(),
        )) + encode_utf8(b));
    }
}

/// The name that a lock takes from the path of a node created in its
/// directory is that node's name.
pub proof fn lemma_node_of_child(path: Seq<char>, n: Seq<char>)
    ensures
        node_of_created(path, child_path(path, n)) == n,
{
    let slash = seq!['/'];
    lemma_encode_utf8_concat(path, slash);
    lemma_encode_utf8_concat(path + slash, n);
    assert(is_ascii_chars(slash));
    vstd::utf8::is_ascii_chars_encode_utf8(slash);
    let whole = encode_utf8(child_path(path, n));
    let l: int = encode_utf8(path).len() as int;
    assert(whole == encode_utf8(path) + encode_utf8(slash) + encode_utf8(n));
    assert(whole.subrange(l + 1, whole.len() as int) =~= encode_utf8(n));
    vstd::utf8::encode_utf8_decode_utf8(n);
}

/// A fresh lock whose node the server names by the lock's create path and a
/// decimal sequence number takes that node as its own, keyed by the number:
/// the constructor, the creation of the node and the children's order fit
/// together.
pub proof fn lemma_fresh_node_key(
    path: Seq<char>,
    identifier: Seq<char>,
    t: LockType,
    u: Seq<char>,
    d: Seq<char>,
)
    requires
        is_uuid_text(u),
        is_decimal(d),
    ensures
        node_of_created(path, initial_view(path, identifier, t, u).create_path + d) == u
            + node_name_of(t) + d,
        name_key(node_of_created(path, initial_view(path, identifier, t, u).create_path + d))
            == encode_utf8(d),
{
    let v = initial_view(path, identifier, t, u);
    assert(v.create_path + d =~= child_path(path, u + node_name_of(t) + d));
    lemma_node_of_child(path, u + node_name_of(t) + d);
    lemma_created_node_key(u, t, d);
}

/// An error of the server ends acquiring with that error, wrapped, and
/// leaves whether the lock is held as it was.
pub proof fn lemma_acquire_server_error(s: LockView, e: LockEventView, z: zookeeper::ZkError)
    requires
        acquire_enabled(s, e),
        e == LockEventView::PathChecked(Err(z)) || e == LockEventView::Created(Err(z)) || e
            == LockEventView::Children(Err(z)),
    ensures
        acquire_next(s, e).1 == LockActionView::Finished(Err(RcpError::ZkErr(z))),
        acquire_next(s, e).0.is_acquired == s.is_acquired,
        acquire_next(s, e).0.phase == Phase::Idle,
{
}

/// A failed delete ends releasing with the server's error, wrapped, and the
/// lock stays held.
pub proof fn lemma_release_server_error(s: LockView, z: zookeeper::ZkError)
    requires
        release_enabled(s, LockEventView::Deleted(Err(z))),
        s.wf(),
    ensures
        release_next(s, LockEventView::Deleted(Err(z))).1 == LockActionView::Finished(
            Err(RcpError::ZkErr(z)),
        ),
        release_next(s, LockEventView::Deleted(Err(z))).0.is_acquired,
        release_next(s, LockEventView::Deleted(Err(z))).0.node == s.node,
{
}

/// A child that carries no lock marker sorts after every lock node whose
/// key is a (non-empty) decimal sequence number.
pub proof fn lemma_unmarked_after_numbers(d: Seq<u8>)
    requires
        d.len() > 0,
        forall|i: int| 0 <= i < d.len() ==> 48 <= #[trigger] d[i] <= 57,
    ensures
        lex_lt(d, unmarked_key()),
        !lex_lt(unmarked_key(), d),
{
    assert(d.subrange(0, 0) =~= unmarked_key().subrange(0, 0));
    lemma_lex_lt_first_difference(d, unmarked_key(), 0);
    crate::children::lemma_lex_asymmetric(d, unmarked_key());
}

} // verus!
