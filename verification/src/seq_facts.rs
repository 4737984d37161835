//! General facts about sequences used by the proofs of this crate.

use vstd::prelude::*;

verus! {

/// `s` is ordered by descending `key`.
pub open spec fn sorted_desc<A>(s: Seq<A>, key: spec_fn(A) -> int) -> bool {
    forall|i: int, j: int| 0 <= i < j < s.len() ==> key(s[i]) >= key(s[j])
}

/// Inserting an element keeps every element and adds the new one.
pub proof fn lemma_insert_contains<A>(s: Seq<A>, pos: int, x: A)
    requires
        0 <= pos <= s.len(),
    ensures
        s.insert(pos, x).len() == s.len() + 1,
        forall|y: A| s.insert(pos, x).contains(y) <==> (s.contains(y) || y == x),
        s.no_duplicates() && !s.contains(x) ==> s.insert(pos, x).no_duplicates(),
{
    let r = s.insert(pos, x);
    assert forall|y: A| r.contains(y) <==> (s.contains(y) || y == x) by {
        if r.contains(y) {
            let i = choose|i: int| 0 <= i < r.len() && r[i] == y;
            if i < pos {
                assert(s[i] == y);
            } else if i > pos {
                assert(s[i - 1] == y);
            }
        }
        if s.contains(y) {
            let i = choose|i: int| 0 <= i < s.len() && s[i] == y;
            if i < pos {
                assert(r[i] == y);
            } else {
                assert(r[i + 1] == y);
            }
        }
        if y == x {
            assert(r[pos] == y);
        }
    }
    if s.no_duplicates() && !s.contains(x) {
        assert forall|i: int, j: int| 0 <= i < j < r.len() implies r[i] != r[j] by {
            if i == pos {
                assert(r[j] == s[j - 1]);
            } else if j == pos {
                assert(r[i] == s[i]);
            } else if i < pos && j < pos {
            } else if i < pos {
                assert(r[j] == s[j - 1]);
            } else {
                assert(r[i] == s[i - 1]);
                assert(r[j] == s[j - 1]);
            }
        }
    }
}

/// Inserting an element at its place keeps a sequence ordered.
pub proof fn lemma_insert_sorted_desc<A>(s: Seq<A>, pos: int, x: A, key: spec_fn(A) -> int)
    requires
        0 <= pos <= s.len(),
        sorted_desc(s, key),
        forall|i: int| 0 <= i < pos ==> key(#[trigger] s[i]) >= key(x),
        pos < s.len() ==> key(s[pos]) < key(x),
    ensures
        sorted_desc(s.insert(pos, x), key),
{
    let r = s.insert(pos, x);
    assert forall|i: int, j: int| 0 <= i < j < r.len() implies key(r[i]) >= key(r[j]) by {
        if i < pos {
            if j < pos {
                assert(r[j] == s[j]);
            } else if j > pos {
                assert(r[j] == s[j - 1]);
            }
        } else if i == pos {
            assert(r[j] == s[j - 1]);
            assert(key(s[pos]) >= key(s[j - 1]) || j - 1 == pos);
        } else {
            assert(r[i] == s[i - 1]);
            assert(r[j] == s[j - 1]);
        }
    }
}

/// Extending a sequence by one element keeps what it contains.
pub proof fn lemma_push_contains<A>(s: Seq<A>, x: A)
    ensures
        forall|y: A| s.push(x).contains(y) <==> (s.contains(y) || y == x),
{
    assert forall|y: A| s.push(x).contains(y) <==> (s.contains(y) || y == x) by {
        if s.push(x).contains(y) {
            let i = choose|i: int| 0 <= i < s.push(x).len() && s.push(x)[i] == y;
            if i < s.len() {
                assert(s[i] == y);
            }
        }
        if s.contains(y) {
            let i = choose|i: int| 0 <= i < s.len() && s[i] == y;
            assert(s.push(x)[i] == y);
        }
        if y == x {
            assert(s.push(x)[s.len() as int] == y);
        }
    }
}

} // verus!
