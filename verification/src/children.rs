//! The children of a lock directory and the order in which the lock recipe
//! considers them: by the text that follows the lock marker in each name.
use vstd::prelude::*;
use vstd::utf8::encode_utf8;

verus! {

/// The marker that exclusive (and write) lock nodes carry: `__lock__`.
pub open spec fn lock_marker() -> Seq<u8> {
    seq![95u8, 95u8, 108u8, 111u8, 99u8, 107u8, 95u8, 95u8]
}

/// The marker that read lock nodes carry: `__rlock__`.
pub open spec fn rlock_marker() -> Seq<u8> {
    seq![95u8, 95u8, 114u8, 108u8, 111u8, 99u8, 107u8, 95u8, 95u8]
}

/// The key of a child that carries neither marker: `~`, which sorts after
/// every decimal sequence number.
pub open spec fn unmarked_key() -> Seq<u8> {
    seq![126u8]
}

/// `pat` stands in `hay` starting at byte `i`.
pub open spec fn occurs_at(hay: Seq<u8>, pat: Seq<u8>, i: int) -> bool {
    &&& 0 <= i
    &&& i + pat.len() <= hay.len()
    &&& hay.subrange(i, i + pat.len()) == pat
}

/// The first byte index, at or after `from`, at which `pat` stands in `hay`.
pub open spec fn first_occurrence_from(hay: Seq<u8>, pat: Seq<u8>, from: int) -> Option<int>
    decreases hay.len() + 1 - from,
{
    if from < 0 || from + pat.len() > hay.len() {
        None
    } else if occurs_at(hay, pat, from) {
        Some(from)
    } else {
        first_occurrence_from(hay, pat, from + 1)
    }
}

/// The first byte index at which `pat` stands in `hay`.
pub open spec fn first_occurrence(hay: Seq<u8>, pat: Seq<u8>) -> Option<int> {
    first_occurrence_from(hay, pat, 0)
}

/// The sort key of a child name given by its UTF-8 bytes: what follows the
/// first `__lock__`, else what follows the first `__rlock__`, else `~`.
pub open spec fn sort_key(name: Seq<u8>) -> Seq<u8> {
    match first_occurrence(name, lock_marker()) {
        Some(p) => name.subrange(p + lock_marker().len(), name.len() as int),
        None => match first_occurrence(name, rlock_marker()) {
            Some(p) => name.subrange(p + rlock_marker().len(), name.len() as int),
            None => unmarked_key(),
        },
    }
}

/// The sort key of a child name.
pub open spec fn name_key(name: Seq<char>) -> Seq<u8> {
    sort_key(encode_utf8(name))
}

/// Strict lexicographic order on byte strings, the order of Rust's `str`.
pub open spec fn lex_lt(a: Seq<u8>, b: Seq<u8>) -> bool
    decreases a.len(),
{
    if a.len() == 0 {
        b.len() > 0
    } else if b.len() == 0 {
        false
    } else if a[0] != b[0] {
        a[0] < b[0]
    } else {
        lex_lt(a.drop_first(), b.drop_first())
    }
}

/// The names of a list of strings.
pub open spec fn names(v: Seq<String>) -> Seq<Seq<char>> {
    v.map_values(|s: String| s@)
}

/// `s` is ordered by key: no name has a smaller key than one before it.
pub open spec fn is_key_sorted(s: Seq<Seq<char>>) -> bool {
    forall|i: int, j: int|
        0 <= i < j < s.len() ==> !lex_lt(#[trigger] name_key(s[j]), #[trigger] name_key(s[i]))
}

/// The predicate "has key `k`".
pub open spec fn has_key(k: Seq<u8>) -> spec_fn(Seq<char>) -> bool {
    |n: Seq<char>| name_key(n) == k
}

/// The names of `s` whose key is `k`, in the order of `s`.
pub open spec fn with_key(s: Seq<Seq<char>>, k: Seq<u8>) -> Seq<Seq<char>> {
    s.filter(has_key(k))
}

/// `x` put into the key-sorted `s` after every name whose key is not
/// greater than its own.
pub open spec fn insert_by_key(s: Seq<Seq<char>>, x: Seq<char>) -> Seq<Seq<char>>
    decreases s.len(),
{
    if s.len() == 0 {
        seq![x]
    } else if lex_lt(name_key(x), name_key(s[0])) {
        seq![x] + s
    } else {
        seq![s[0]] + insert_by_key(s.drop_first(), x)
    }
}

/// The children in the order of their keys; children with equal keys keep
/// the order in which they were listed.
pub open spec fn sorted_by_key(c: Seq<Seq<char>>) -> Seq<Seq<char>>
    decreases c.len(),
{
    if c.len() == 0 {
        c
    } else {
        insert_by_key(sorted_by_key(c.drop_last()), c.last())
    }
}

// ---------------------------------------------------------------------------
// The lexicographic order
// ---------------------------------------------------------------------------

pub proof fn lemma_lex_irreflexive(a: Seq<u8>)
    ensures
        !lex_lt(a, a),
    decreases a.len(),
{
    if a.len() > 0 {
        lemma_lex_irreflexive(a.drop_first());
    }
}

pub proof fn lemma_lex_transitive(a: Seq<u8>, b: Seq<u8>, c: Seq<u8>)
    requires
        lex_lt(a, b),
        lex_lt(b, c),
    ensures
        lex_lt(a, c),
    decreases a.len(),
{
    if a.len() > 0 && b.len() > 0 && c.len() > 0 && a[0] == b[0] && b[0] == c[0] {
        lemma_lex_transitive(a.drop_first(), b.drop_first(), c.drop_first());
    }
}

pub proof fn lemma_lex_asymmetric(a: Seq<u8>, b: Seq<u8>)
    requires
        lex_lt(a, b),
    ensures
        !lex_lt(b, a),
{
    if lex_lt(b, a) {
        lemma_lex_transitive(a, b, a);
        lemma_lex_irreflexive(a);
    }
}

pub proof fn lemma_lex_total(a: Seq<u8>, b: Seq<u8>)
    ensures
        a == b || lex_lt(a, b) || lex_lt(b, a),
    decreases a.len(),
{
    if a.len() > 0 && b.len() > 0 && a[0] == b[0] {
        lemma_lex_total(a.drop_first(), b.drop_first());
        if a.drop_first() == b.drop_first() {
            assert(a =~= seq![a[0]] + a.drop_first());
            assert(b =~= seq![b[0]] + b.drop_first());
        }
    } else if a.len() == 0 && b.len() == 0 {
        assert(a =~= b);
    }
}

/// Where two byte strings first differ, the one with the smaller byte (as a
/// number) comes first.
pub proof fn lemma_lex_lt_first_difference(a: Seq<u8>, b: Seq<u8>, i: int)
    requires
        0 <= i < a.len(),
        i < b.len(),
        a.subrange(0, i) == b.subrange(0, i),
        a[i] < b[i],
    ensures
        lex_lt(a, b),
    decreases i,
{
    if i > 0 {
        assert(a[0] == a.subrange(0, i)[0]);
        assert(b[0] == b.subrange(0, i)[0]);
        assert(a.drop_first().subrange(0, i - 1) =~= a.subrange(0, i).drop_first());
        assert(b.drop_first().subrange(0, i - 1) =~= b.subrange(0, i).drop_first());
        lemma_lex_lt_first_difference(a.drop_first(), b.drop_first(), i - 1);
    }
}

/// A proper prefix comes before the longer byte string.
pub proof fn lemma_lex_lt_proper_prefix(a: Seq<u8>, b: Seq<u8>)
    requires
        a.len() < b.len(),
        a == b.subrange(0, a.len() as int),
    ensures
        lex_lt(a, b),
    decreases a.len(),
{
    if a.len() > 0 {
        assert(a[0] == b[0]);
        assert(a.drop_first() =~= b.drop_first().subrange(0, a.len() - 1));
        lemma_lex_lt_proper_prefix(a.drop_first(), b.drop_first());
    }
}

/// Byte strings that are neither prefixes of one another nor differ at a
/// first byte that is smaller in `a` are not ordered `a` before `b`: with
/// the two lemmas above, `lex_lt` is exactly the byte-wise order of `str`.
pub proof fn lemma_lex_lt_only_bytewise(a: Seq<u8>, b: Seq<u8>)
    requires
        lex_lt(a, b),
    ensures
        (a.len() < b.len() && a == b.subrange(0, a.len() as int)) || exists|i: int|
            0 <= i < a.len() && i < b.len() && a.subrange(0, i) == b.subrange(0, i) && #[trigger] a[i]
                < b[i],
    decreases a.len(),
{
    if a.len() == 0 {
        assert(a =~= b.subrange(0, 0));
    } else if a[0] != b[0] {
        assert(a.subrange(0, 0) =~= b.subrange(0, 0));
        assert(a[0] < b[0]);
    } else {
        let a1 = a.drop_first();
        let b1 = b.drop_first();
        lemma_lex_lt_only_bytewise(a1, b1);
        if a1.len() < b1.len() && a1 == b1.subrange(0, a1.len() as int) {
            assert forall|k: int| 0 <= k < a.len() implies #[trigger] a[k] == b.subrange(
                0,
                a.len() as int,
            )[k] by {
                if k > 0 {
                    assert(a1[k - 1] == b1.subrange(0, a1.len() as int)[k - 1]);
                }
            }
            assert(a =~= b.subrange(0, a.len() as int));
        } else {
            let j = choose|j: int|
                0 <= j < a1.len() && j < b1.len() && a1.subrange(0, j) == b1.subrange(0, j)
                    && #[trigger] a1[j] < b1[j];
            assert(a.subrange(0, j + 1) =~= b.subrange(0, j + 1)) by {
                assert forall|k: int| 0 <= k < j + 1 implies #[trigger] a.subrange(0, j + 1)[k]
                    == b.subrange(0, j + 1)[k] by {
                    if k > 0 {
                        assert(a1.subrange(0, j)[k - 1] == b1.subrange(0, j)[k - 1]);
                    }
                }
            }
            assert(a[j + 1] < b[j + 1]);
        }
    }
}

/// `a < b <= c` gives `a < c`.
pub proof fn lemma_lex_lt_le(a: Seq<u8>, b: Seq<u8>, c: Seq<u8>)
    requires
        lex_lt(a, b),
        !lex_lt(c, b),
    ensures
        lex_lt(a, c),
{
    lemma_lex_total(b, c);
    if b != c {
        lemma_lex_transitive(a, b, c);
    }
}

/// `a <= b <= c` gives `a <= c`.
pub proof fn lemma_lex_le_le(a: Seq<u8>, b: Seq<u8>, c: Seq<u8>)
    requires
        !lex_lt(b, a),
        !lex_lt(c, b),
    ensures
        !lex_lt(c, a),
{
    lemma_lex_total(a, b);
    if a != b {
        lemma_lex_lt_le(a, b, c);
        lemma_lex_asymmetric(a, c);
    }
}

// ---------------------------------------------------------------------------
// Filtering by key
// ---------------------------------------------------------------------------

proof fn lemma_with_key_empty(k: Seq<u8>)
    ensures
        with_key(Seq::<Seq<char>>::empty(), k) == Seq::<Seq<char>>::empty(),
{
    reveal(Seq::filter);
}

proof fn lemma_with_key_single(a: Seq<char>, k: Seq<u8>)
    ensures
        with_key(seq![a], k) == (if name_key(a) == k {
            seq![a]
        } else {
            Seq::<Seq<char>>::empty()
        }),
{
    reveal(Seq::filter);
    assert(seq![a].drop_last() =~= Seq::<Seq<char>>::empty());
    lemma_with_key_empty(k);
    assert(Seq::<Seq<char>>::empty().push(a) =~= seq![a]);
}

proof fn lemma_with_key_concat(a: Seq<Seq<char>>, b: Seq<Seq<char>>, k: Seq<u8>)
    ensures
        with_key(a + b, k) == with_key(a, k) + with_key(b, k),
{
    Seq::filter_distributes_over_add(a, b, has_key(k));
}

proof fn lemma_with_key_none(s: Seq<Seq<char>>, k: Seq<u8>)
    requires
        forall|i: int| 0 <= i < s.len() ==> name_key(#[trigger] s[i]) != k,
    ensures
        with_key(s, k) == Seq::<Seq<char>>::empty(),
    decreases s.len(),
{
    reveal(Seq::filter);
    if s.len() > 0 {
        lemma_with_key_none(s.drop_last(), k);
    }
}

proof fn lemma_with_key_push(s: Seq<Seq<char>>, x: Seq<char>, k: Seq<u8>)
    ensures
        with_key(s.push(x), k) == (if name_key(x) == k {
            with_key(s, k).push(x)
        } else {
            with_key(s, k)
        }),
{
    s.lemma_filter_push(x, has_key(k));
}

// ---------------------------------------------------------------------------
// Insertion by key
// ---------------------------------------------------------------------------

/// What inserting by key does to a key-sorted sequence.
pub proof fn lemma_insert_by_key(s: Seq<Seq<char>>, x: Seq<char>)
    ensures
        insert_by_key(s, x).len() == s.len() + 1,
        forall|i: int|
            0 <= i < s.len() + 1 ==> #[trigger] insert_by_key(s, x)[i] == x || s.contains(
                insert_by_key(s, x)[i],
            ),
        is_key_sorted(s) ==> is_key_sorted(insert_by_key(s, x)),
        is_key_sorted(s) ==> forall|k: Seq<u8>|
            #[trigger] with_key(insert_by_key(s, x), k) == (if name_key(x) == k {
                with_key(s, k).push(x)
            } else {
                with_key(s, k)
            }),
    decreases s.len(),
{
    let ins = insert_by_key(s, x);
    let kx = name_key(x);
    if s.len() == 0 {
        assert forall|k: Seq<u8>|
            #[trigger] with_key(ins, k) == (if kx == k {
                with_key(s, k).push(x)
            } else {
                with_key(s, k)
            }) by {
            lemma_with_key_single(x, k);
            assert(s =~= Seq::<Seq<char>>::empty());
            lemma_with_key_empty(k);
            assert(Seq::<Seq<char>>::empty().push(x) =~= seq![x]);
        }
    } else if lex_lt(kx, name_key(s[0])) {
        assert(ins == seq![x] + s);
        assert forall|i: int| 0 <= i < s.len() + 1 implies #[trigger] ins[i] == x || s.contains(
            ins[i],
        ) by {
            if i > 0 {
                assert(ins[i] == s[i - 1]);
            }
        }
        if is_key_sorted(s) {
            assert forall|m: int| 0 <= m < s.len() implies lex_lt(kx, #[trigger] name_key(s[m])) by {
                if m > 0 {
                    lemma_lex_lt_le(kx, name_key(s[0]), name_key(s[m]));
                }
            }
            assert forall|i: int, j: int| 0 <= i < j < ins.len() implies !lex_lt(
                #[trigger] name_key(ins[j]),
                #[trigger] name_key(ins[i]),
            ) by {
                assert(ins[j] == s[j - 1]);
                if i == 0 {
                    assert(lex_lt(kx, name_key(s[j - 1])));
                    lemma_lex_asymmetric(kx, name_key(s[j - 1]));
                } else {
                    assert(ins[i] == s[i - 1]);
                }
            }
            assert forall|k: Seq<u8>|
                #[trigger] with_key(ins, k) == (if kx == k {
                    with_key(s, k).push(x)
                } else {
                    with_key(s, k)
                }) by {
                lemma_with_key_concat(seq![x], s, k);
                lemma_with_key_single(x, k);
                if kx == k {
                    assert forall|m: int| 0 <= m < s.len() implies name_key(#[trigger] s[m]) != k by {
                        lemma_lex_irreflexive(kx);
                    }
                    lemma_with_key_none(s, k);
                    assert(Seq::<Seq<char>>::empty().push(x) =~= seq![x] + Seq::<
                        Seq<char>,
                    >::empty());
                } else {
                    assert(Seq::<Seq<char>>::empty() + with_key(s, k) =~= with_key(s, k));
                }
            }
        }
    } else {
        let rest = s.drop_first();
        let ins_rest = insert_by_key(rest, x);
        lemma_insert_by_key(rest, x);
        assert(ins == seq![s[0]] + ins_rest);
        assert(s =~= seq![s[0]] + rest);
        assert forall|i: int| 0 <= i < s.len() + 1 implies #[trigger] ins[i] == x || s.contains(
            ins[i],
        ) by {
            if i == 0 {
                assert(s[0] == ins[0]);
            } else {
                assert(ins[i] == ins_rest[i - 1]);
                if ins_rest[i - 1] != x {
                    assert(rest.contains(ins_rest[i - 1]));
                    let m = choose|m: int| 0 <= m < rest.len() && rest[m] == ins_rest[i - 1];
                    assert(s[m + 1] == ins[i]);
                }
            }
        }
        if is_key_sorted(s) {
            assert(is_key_sorted(rest)) by {
                assert forall|i: int, j: int| 0 <= i < j < rest.len() implies !lex_lt(
                    #[trigger] name_key(rest[j]),
                    #[trigger] name_key(rest[i]),
                ) by {
                    assert(rest[i] == s[i + 1]);
                    assert(rest[j] == s[j + 1]);
                }
            }
            assert forall|i: int, j: int| 0 <= i < j < ins.len() implies !lex_lt(
                #[trigger] name_key(ins[j]),
                #[trigger] name_key(ins[i]),
            ) by {
                assert(ins[j] == ins_rest[j - 1]);
                if i == 0 {
                    if ins_rest[j - 1] != x {
                        assert(rest.contains(ins_rest[j - 1]));
                        let m = choose|m: int| 0 <= m < rest.len() && rest[m] == ins_rest[j - 1];
                        assert(s[m + 1] == ins[j]);
                    }
                } else {
                    assert(ins[i] == ins_rest[i - 1]);
                }
            }
            assert forall|k: Seq<u8>|
                #[trigger] with_key(ins, k) == (if kx == k {
                    with_key(s, k).push(x)
                } else {
                    with_key(s, k)
                }) by {
                lemma_with_key_concat(seq![s[0]], ins_rest, k);
                lemma_with_key_concat(seq![s[0]], rest, k);
                assert(with_key(ins_rest, k) == (if kx == k {
                    with_key(rest, k).push(x)
                } else {
                    with_key(rest, k)
                }));
                if kx == k {
                    Seq::push_distributes_over_add(with_key(seq![s[0]], k), with_key(rest, k), x);
                }
            }
        }
    }
}

/// Inserting by key puts `x` at the first place whose key is greater than
/// its own.
pub proof fn lemma_insert_by_key_at(s: Seq<Seq<char>>, x: Seq<char>, j: int)
    requires
        0 <= j <= s.len(),
        forall|m: int| 0 <= m < j ==> !lex_lt(name_key(x), #[trigger] name_key(s[m])),
        j < s.len() ==> lex_lt(name_key(x), name_key(s[j])),
    ensures
        insert_by_key(s, x) == s.insert(j, x),
    decreases j,
{
    if s.len() == 0 {
        assert(s.insert(j, x) =~= seq![x]);
    } else if j == 0 {
        assert(s.insert(0, x) =~= seq![x] + s);
    } else {
        let rest = s.drop_first();
        assert forall|m: int| 0 <= m < j - 1 implies !lex_lt(
            name_key(x),
            #[trigger] name_key(rest[m]),
        ) by {
            assert(rest[m] == s[m + 1]);
        }
        assert(!lex_lt(name_key(x), name_key(s[0])));
        lemma_insert_by_key_at(rest, x, j - 1);
        assert(s.insert(j, x) =~= seq![s[0]] + rest.insert(j - 1, x));
    }
}

/// The children in key order are ordered by key, as many as were listed,
/// and for every key they hold the children of that key in the order in which
/// they were listed: a stable sort, which drops and invents nothing.
pub proof fn lemma_sorted_by_key(c: Seq<Seq<char>>)
    ensures
        sorted_by_key(c).len() == c.len(),
        is_key_sorted(sorted_by_key(c)),
        forall|k: Seq<u8>| #[trigger] with_key(sorted_by_key(c), k) == with_key(c, k),
    decreases c.len(),
{
    if c.len() > 0 {
        let init = c.drop_last();
        lemma_sorted_by_key(init);
        lemma_insert_by_key(sorted_by_key(init), c.last());
        assert(c =~= init.push(c.last()));
        assert forall|k: Seq<u8>| #[trigger] with_key(sorted_by_key(c), k) == with_key(c, k) by {
            lemma_with_key_push(init, c.last(), k);
            assert(with_key(sorted_by_key(init), k) == with_key(init, k));
        }
    }
}

/// The first occurrence found from `from` on is an occurrence, and none
/// stands between `from` and it; when there is none, `pat` stands nowhere
/// at or after `from`.
pub proof fn lemma_first_occurrence_from(hay: Seq<u8>, pat: Seq<u8>, from: int)
    requires
        0 <= from,
    ensures
        match first_occurrence_from(hay, pat, from) {
            Some(p) => {
                &&& from <= p
                &&& occurs_at(hay, pat, p)
                &&& forall|j: int| from <= j < p ==> !occurs_at(hay, pat, j)
            },
            None => forall|j: int| from <= j ==> !occurs_at(hay, pat, j),
        },
    decreases hay.len() + 1 - from,
{
    if from + pat.len() > hay.len() {
    } else if occurs_at(hay, pat, from) {
    } else {
        lemma_first_occurrence_from(hay, pat, from + 1);
    }
}

// ---------------------------------------------------------------------------
// Executable counterparts
// ---------------------------------------------------------------------------

/// The first byte index at which `pat` stands in `hay`, as `str::find` gives it.
fn find_marker(hay: &[u8], pat: &[u8]) -> (r: Option<usize>)
    ensures
        match r {
            Some(p) => first_occurrence(hay@, pat@) == Some(p as int),
            None => first_occurrence(hay@, pat@) is None,
        },
{
    let n = hay.len();
    let m = pat.len();
    if m > n {
        return None;
    }
    let mut i: usize = 0;
    while i <= n - m
        invariant
            n == hay@.len(),
            m == pat@.len(),
            m <= n,
            i <= n - m + 1,
            first_occurrence(hay@, pat@) == first_occurrence_from(hay@, pat@, i as int),
        decreases n - m + 1 - i,
    {
        let mut k: usize = 0;
        while k < m && hay[i + k] == pat[k]
            invariant
                n == hay@.len(),
                m == pat@.len(),
                i + m <= n,
                k <= m,
                forall|t: int| 0 <= t < k ==> hay@[i + t] == pat@[t],
            decreases m - k,
        {
            k += 1;
        }
        if k == m {
            assert(hay@.subrange(i as int, i + m) =~= pat@);
            return Some(i);
        }
        assert(hay@.subrange(i as int, i + m)[k as int] != pat@[k as int]);
        i += 1;
    }
    None
}

/// The bytes of `b` from `start` on.
fn copy_tail(b: &[u8], start: usize) -> (v: Vec<u8>)
    requires
        start <= b@.len(),
    ensures
        v@ == b@.subrange(start as int, b@.len() as int),
{
    let mut v: Vec<u8> = Vec::new();
    let mut i = start;
    while i < b.len()
        invariant
            start <= i <= b@.len(),
            v@ == b@.subrange(start as int, i as int),
        decreases b@.len() - i,
    {
        v.push(b[i]);
        i += 1;
        assert(v@ =~= b@.subrange(start as int, i as int));
    }
    v
}

/// The sort key of a child name.
pub fn sort_key_of(name: &String) -> (key: Vec<u8>)
    ensures
        key@ == name_key(name@),
{
    let bytes: &[u8] = name.as_str().as_bytes();
    let n = bytes.len();
    let lock_pat: [u8; 8] = [95u8, 95, 108, 111, 99, 107, 95, 95];
    let rlock_pat: [u8; 9] = [95u8, 95, 114, 108, 111, 99, 107, 95, 95];
    assert(lock_pat@ == lock_marker());
    assert(rlock_pat@ == rlock_marker());
    proof {
        lemma_first_occurrence_from(bytes@, lock_marker(), 0);
        lemma_first_occurrence_from(bytes@, rlock_marker(), 0);
    }
    match find_marker(bytes, &lock_pat) {
        Some(p) => copy_tail(bytes, p + 8),
        None => match find_marker(bytes, &rlock_pat) {
            Some(p) => copy_tail(bytes, p + 9),
            None => {
                let mut k: Vec<u8> = Vec::new();
                k.push(126u8);
                assert(k@ =~= unmarked_key());
                k
            },
        },
    }
}

/// Strict lexicographic comparison of two byte strings.
fn key_lt(a: &Vec<u8>, b: &Vec<u8>) -> (r: bool)
    ensures
        r == lex_lt(a@, b@),
{
    let mut i: usize = 0;
    assert(a@.skip(0) =~= a@);
    assert(b@.skip(0) =~= b@);
    loop
        invariant
            i <= a@.len(),
            i <= b@.len(),
            lex_lt(a@, b@) == lex_lt(a@.skip(i as int), b@.skip(i as int)),
        decreases a@.len() - i,
    {
        if i == a.len() {
            return i < b.len();
        }
        if i == b.len() {
            return false;
        }
        if a[i] != b[i] {
            return a[i] < b[i];
        }
        assert(a@.skip(i as int).drop_first() =~= a@.skip(i + 1));
        assert(b@.skip(i as int).drop_first() =~= b@.skip(i + 1));
        i += 1;
    }
}

/// The children in key order, children with equal keys in the order in
/// which they were listed.
pub fn get_sorted_children(children: &Vec<String>) -> (sorted: Vec<String>)
    ensures
        names(sorted@) == sorted_by_key(names(children@)),
{
    let mut result: Vec<String> = Vec::new();
    let mut keys: Vec<Vec<u8>> = Vec::new();
    let mut i: usize = 0;
    assert(names(children@).take(0) =~= Seq::<Seq<char>>::empty());
    assert(names(result@) =~= Seq::<Seq<char>>::empty());
    while i < children.len()
        invariant
            i <= children@.len(),
            result@.len() == keys@.len(),
            forall|m: int| 0 <= m < keys@.len() ==> #[trigger] keys@[m]@ == name_key(result@[m]@),
            names(result@) == sorted_by_key(names(children@).take(i as int)),
        decreases children@.len() - i,
    {
        let x = children[i].clone();
        let kx = sort_key_of(&x);
        let mut j: usize = 0;
        while j < keys.len()
            invariant
                j <= keys@.len(),
                result@.len() == keys@.len(),
                kx@ == name_key(x@),
                forall|m: int| 0 <= m < j ==> !lex_lt(kx@, #[trigger] keys@[m]@),
            ensures
                j <= keys@.len(),
                forall|m: int| 0 <= m < j ==> !lex_lt(kx@, #[trigger] keys@[m]@),
                j < keys@.len() ==> lex_lt(kx@, keys@[j as int]@),
            decreases keys@.len() - j,
        {
            if key_lt(&kx, &keys[j]) {
                break;
            }
            j += 1;
        }
        let ghost old_result = result@;
        let ghost old_keys = keys@;
        proof {
            let s = names(result@);
            assert forall|m: int| 0 <= m < j implies !lex_lt(name_key(x@), #[trigger] name_key(s[m])) by {
                assert(keys@[m]@ == name_key(result@[m]@));
            }
            if j < keys@.len() {
                assert(keys@[j as int]@ == name_key(result@[j as int]@));
            }
            lemma_insert_by_key_at(s, x@, j as int);
        }
        result.insert(j, x);
        keys.insert(j, kx);
        proof {
            assert(names(result@) =~= names(old_result).insert(j as int, x@));
            let c = names(children@).take(i + 1);
            assert(c.drop_last() =~= names(children@).take(i as int));
            assert(c.last() == x@);
            assert forall|m: int| 0 <= m < keys@.len() implies #[trigger] keys@[m]@ == name_key(result@[m]@) by {
                if m < j {
                    assert(keys@[m] == old_keys[m]);
                    assert(result@[m] == old_result[m]);
                } else if m > j {
                    assert(keys@[m] == old_keys[m - 1]);
                    assert(result@[m] == old_result[m - 1]);
                }
            }
        }
        i += 1;
    }
    assert(names(children@).take(children@.len() as int) =~= names(children@));
    result
}

} // verus!
