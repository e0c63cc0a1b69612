//! Tables as sequences of rows with a primary key.
use vstd::prelude::*;

verus! {

/// No two rows of `s` share a key.
pub open spec fn unique_by<A, K>(s: Seq<A>, key: spec_fn(A) -> K) -> bool {
    forall|i: int, j: int|
        0 <= i < s.len() && 0 <= j < s.len() && #[trigger] key(s[i]) == #[trigger] key(s[j]) ==> i
            == j
}

/// Some row of `s` has key `k`.
pub open spec fn has_key_in<A, K>(s: Seq<A>, key: spec_fn(A) -> K, k: K) -> bool {
    exists|i: int| 0 <= i < s.len() && #[trigger] key(s[i]) == k
}

/// The position of a row with key `k`.
pub open spec fn index_of_key<A, K>(s: Seq<A>, key: spec_fn(A) -> K, k: K) -> int {
    choose|i: int| 0 <= i < s.len() && #[trigger] key(s[i]) == k
}

/// The row with key `k`, if there is one.
pub open spec fn row_with_key<A, K>(s: Seq<A>, key: spec_fn(A) -> K, k: K) -> Option<A> {
    if has_key_in(s, key, k) {
        Some(s[index_of_key(s, key, k)])
    } else {
        None
    }
}

/// The table without the row of key `k`.
pub open spec fn without_key<A, K>(s: Seq<A>, key: spec_fn(A) -> K, k: K) -> Seq<A> {
    if has_key_in(s, key, k) {
        s.remove(index_of_key(s, key, k))
    } else {
        s
    }
}

/// A row found at position `i` is the row of its key.
pub proof fn lemma_index_of_key<A, K>(s: Seq<A>, key: spec_fn(A) -> K, i: int)
    requires
        unique_by(s, key),
        0 <= i < s.len(),
    ensures
        has_key_in(s, key, key(s[i])),
        index_of_key(s, key, key(s[i])) == i,
        row_with_key(s, key, key(s[i])) == Some(s[i]),
{
    let k = key(s[i]);
    assert(0 <= i < s.len() && key(s[i]) == k);
    let j = index_of_key(s, key, k);
    assert(key(s[j]) == key(s[i]));
}

/// The row that `row_with_key` gives is in the table and carries the key.
pub proof fn lemma_row_with_key<A, K>(s: Seq<A>, key: spec_fn(A) -> K, k: K)
    requires
        has_key_in(s, key, k),
    ensures
        0 <= index_of_key(s, key, k) < s.len(),
        key(s[index_of_key(s, key, k)]) == k,
        row_with_key(s, key, k) == Some(s[index_of_key(s, key, k)]),
        s.contains(s[index_of_key(s, key, k)]),
{
}

/// A key is present exactly where a row of the table carries it.
pub proof fn lemma_has_key_contains<A, K>(s: Seq<A>, key: spec_fn(A) -> K, x: A)
    requires
        s.contains(x),
    ensures
        has_key_in(s, key, key(x)),
{
    let i = choose|i: int| 0 <= i < s.len() && s[i] == x;
    assert(key(s[i]) == key(x));
}

/// Adding a row of a new key.
pub proof fn lemma_push_key<A, K>(s: Seq<A>, key: spec_fn(A) -> K, x: A)
    requires
        unique_by(s, key),
        !has_key_in(s, key, key(x)),
    ensures
        unique_by(s.push(x), key),
        forall|k: K| has_key_in(s.push(x), key, k) <==> has_key_in(s, key, k) || k == key(x),
        row_with_key(s.push(x), key, key(x)) == Some(x),
        forall|k: K| k != key(x) ==> row_with_key(s.push(x), key, k) == row_with_key(s, key, k),
        forall|y: A| s.push(x).contains(y) <==> s.contains(y) || y == x,
{
    let t = s.push(x);
    assert forall|i: int, j: int|
        0 <= i < t.len() && 0 <= j < t.len() && #[trigger] key(t[i]) == #[trigger] key(t[j]) implies i
        == j by {
        if i < s.len() && j < s.len() {
            assert(t[i] == s[i] && t[j] == s[j]);
        } else if i < s.len() {
            assert(key(s[i]) == key(x));
        } else if j < s.len() {
            assert(key(s[j]) == key(x));
        }
    }
    assert forall|k: K| has_key_in(t, key, k) <==> has_key_in(s, key, k) || k == key(x) by {
        if has_key_in(s, key, k) {
            let i = choose|i: int| 0 <= i < s.len() && #[trigger] key(s[i]) == k;
            assert(t[i] == s[i]);
        }
        if k == key(x) {
            assert(t[s.len() as int] == x);
        }
        if has_key_in(t, key, k) {
            let i = choose|i: int| 0 <= i < t.len() && #[trigger] key(t[i]) == k;
            if i < s.len() {
                assert(t[i] == s[i]);
            }
        }
    }
    assert(t[s.len() as int] == x);
    lemma_index_of_key(t, key, s.len() as int);
    assert forall|k: K| k != key(x) implies row_with_key(t, key, k) == row_with_key(s, key, k) by {
        if has_key_in(s, key, k) {
            let i = index_of_key(s, key, k);
            assert(t[i] == s[i]);
            lemma_index_of_key(t, key, i);
        }
    }
    assert forall|y: A| t.contains(y) <==> s.contains(y) || y == x by {
        if s.contains(y) {
            let i = choose|i: int| 0 <= i < s.len() && s[i] == y;
            assert(t[i] == y);
        }
        if t.contains(y) {
            let i = choose|i: int| 0 <= i < t.len() && t[i] == y;
            if i < s.len() {
                assert(s[i] == y);
            }
        }
    }
}

/// Removing the row of key `k`.
pub proof fn lemma_without_key<A, K>(s: Seq<A>, key: spec_fn(A) -> K, k: K)
    requires
        unique_by(s, key),
    ensures
        unique_by(without_key(s, key, k), key),
        !has_key_in(without_key(s, key, k), key, k),
        forall|k2: K|
            has_key_in(without_key(s, key, k), key, k2) <==> has_key_in(s, key, k2) && k2 != k,
        forall|k2: K|
            k2 != k ==> row_with_key(without_key(s, key, k), key, k2) == row_with_key(s, key, k2),
        forall|y: A|
            without_key(s, key, k).contains(y) <==> s.contains(y) && key(y) != k,
        without_key(s, key, k).len() <= s.len(),
{
    if has_key_in(s, key, k) {
        let n = index_of_key(s, key, k);
        let t = s.remove(n);
        assert(t.len() == s.len() - 1);
        assert forall|i: int| 0 <= i < t.len() implies t[i] == (if i < n { s[i] } else { s[i + 1] }) by {}
        assert forall|i: int, j: int|
            0 <= i < t.len() && 0 <= j < t.len() && #[trigger] key(t[i]) == #[trigger] key(t[j]) implies i
            == j by {
            let i2 = if i < n { i } else { i + 1 };
            let j2 = if j < n { j } else { j + 1 };
            assert(t[i] == s[i2] && t[j] == s[j2]);
            assert(key(s[i2]) == key(s[j2]));
        }
        assert forall|y: A| t.contains(y) <==> s.contains(y) && key(y) != k by {
            if t.contains(y) {
                let i = choose|i: int| 0 <= i < t.len() && t[i] == y;
                let i2 = if i < n { i } else { i + 1 };
                assert(s[i2] == y);
                assert(key(s[i2]) != key(s[n]));
            }
            if s.contains(y) && key(y) != k {
                let i = choose|i: int| 0 <= i < s.len() && s[i] == y;
                assert(i != n);
                let i2 = if i < n { i } else { i - 1 };
                assert(t[i2] == y);
            }
        }
        assert forall|k2: K| has_key_in(t, key, k2) <==> has_key_in(s, key, k2) && k2 != k by {
            if has_key_in(t, key, k2) {
                let i = choose|i: int| 0 <= i < t.len() && #[trigger] key(t[i]) == k2;
                assert(t.contains(t[i]));
                let i2 = if i < n { i } else { i + 1 };
                assert(s[i2] == t[i]);
            }
            if has_key_in(s, key, k2) && k2 != k {
                let i = choose|i: int| 0 <= i < s.len() && #[trigger] key(s[i]) == k2;
                assert(i != n);
                let i2 = if i < n { i } else { i - 1 };
                assert(t[i2] == s[i]);
            }
        }
        assert forall|k2: K| k2 != k implies row_with_key(t, key, k2) == row_with_key(s, key, k2) by {
            if has_key_in(s, key, k2) {
                let i = index_of_key(s, key, k2);
                assert(key(s[i]) == k2);
                assert(i != n);
                let i2 = if i < n { i } else { i - 1 };
                assert(t[i2] == s[i]);
                lemma_index_of_key(t, key, i2);
            }
        }
    } else {
        assert forall|y: A| s.contains(y) implies key(y) != k by {
            let i = choose|i: int| 0 <= i < s.len() && s[i] == y;
            assert(key(s[i]) == key(y));
        }
    }
}

/// Removing the row of key `k` keeps any other key unique.
pub proof fn lemma_without_key_keeps<A, K, K2>(s: Seq<A>, key: spec_fn(A) -> K, k: K, key2: spec_fn(A) -> K2)
    requires
        unique_by(s, key),
        unique_by(s, key2),
    ensures
        unique_by(without_key(s, key, k), key2),
{
    if has_key_in(s, key, k) {
        let n = index_of_key(s, key, k);
        let t = s.remove(n);
        assert forall|i: int, j: int|
            0 <= i < t.len() && 0 <= j < t.len() && #[trigger] key2(t[i]) == #[trigger] key2(t[j]) implies i
            == j by {
            let i2 = if i < n { i } else { i + 1 };
            let j2 = if j < n { j } else { j + 1 };
            assert(t[i] == s[i2] && t[j] == s[j2]);
            assert(key2(s[i2]) == key2(s[j2]));
        }
    }
}

/// A key is present exactly where some row in the table carries it.
pub proof fn lemma_has_key_iff_contains<A, K>(s: Seq<A>, key: spec_fn(A) -> K, k: K)
    ensures
        has_key_in(s, key, k) <==> exists|x: A| #[trigger] s.contains(x) && key(x) == k,
{
    if has_key_in(s, key, k) {
        let i = choose|i: int| 0 <= i < s.len() && #[trigger] key(s[i]) == k;
        assert(s.contains(s[i]));
    }
    if exists|x: A| #[trigger] s.contains(x) && key(x) == k {
        let x = choose|x: A| #[trigger] s.contains(x) && key(x) == k;
        lemma_has_key_contains(s, key, x);
    }
}

} // verus!
