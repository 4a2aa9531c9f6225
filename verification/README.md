# utility

Distributed locks over ZooKeeper, with the lock recipe's decisions verified
by Verus.

- `src/children.rs`: how a lock directory's children are ordered (by the text
  after `__lock__` or `__rlock__`, stably), with the proof that the order is a
  stable sort.
- `src/zoo_lock.rs`: the lock (`ZkDistrLock`) and critical sections
  (`ZkCriticalSection`) as state machines: each step takes the server's
  answer and returns the next request.
- `src/laws.rs`: what holds across steps (only a lock whose node is first
  holds the lock, releasing restores the fresh lock, critical sections run
  their body only under the lock, nodes are ordered by sequence number).
- `src/errors.rs`, `src/bench.rs`: the error type and a small string helper.
- `app/`: the program around the library, which talks to ZooKeeper: it sends
  each request that a lock makes and hands the answer back, and shares locks
  and critical sections between threads behind mutexes.
