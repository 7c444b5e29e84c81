//! The order of host names: lexicographic by code point, the order in which
//! Rust's own strings compare.

use vstd::prelude::*;

verus! {

/// How one text stands to another in the order of host names.
#[derive(Clone, Copy, Debug, PartialEq, Eq, Structural)]
pub enum Rank {
    /// The first comes before the second.
    Before,
    /// The two are the same text.
    Same,
    /// The first comes after the second.
    After,
}

/// `a` and `b` agree on their first `k` characters, and there `a` ends while
/// `b` goes on, or `a` holds the smaller character.
pub open spec fn precedes_at(a: Seq<char>, b: Seq<char>, k: int) -> bool {
    &&& 0 <= k <= a.len()
    &&& k < b.len()
    &&& forall|j: int| 0 <= j < k ==> a[j] == b[j]
    &&& k < a.len() ==> a[k] < b[k]
}

/// `a` comes strictly before `b`.
pub open spec fn precedes(a: Seq<char>, b: Seq<char>) -> bool {
    exists|k: int| precedes_at(a, b, k)
}

/// No text comes before itself.
pub proof fn lemma_precedes_irreflexive(a: Seq<char>)
    ensures
        !precedes(a, a),
{
}

/// The order is transitive.
pub proof fn lemma_precedes_transitive(a: Seq<char>, b: Seq<char>, c: Seq<char>)
    requires
        precedes(a, b),
        precedes(b, c),
    ensures
        precedes(a, c),
{
    let k1 = choose|k: int| precedes_at(a, b, k);
    let k2 = choose|k: int| precedes_at(b, c, k);
    if k1 <= k2 {
        assert(precedes_at(a, c, k1));
    } else {
        assert(precedes_at(a, c, k2));
    }
}

/// Of two texts one comes before the other only one way round.
pub proof fn lemma_precedes_asymmetric(a: Seq<char>, b: Seq<char>)
    requires
        precedes(a, b),
    ensures
        !precedes(b, a),
        a != b,
{
    if precedes(b, a) {
        lemma_precedes_transitive(a, b, a);
    }
}

/// What [`rank`] answers for the texts `a` and `b`.
pub open spec fn rank_of(a: Seq<char>, b: Seq<char>) -> Rank {
    if a == b {
        Rank::Same
    } else if precedes(a, b) {
        Rank::Before
    } else {
        Rank::After
    }
}

/// Compares the text `a` with `b`, given by its characters.
pub fn rank(a: &str, b: &Vec<char>) -> (r: Rank)
    ensures
        r == rank_of(a@, b@),
        r is After <==> precedes(b@, a@),
{
    let mut i: usize = 0;
    for c in it: a.chars()
        invariant
            i == it.index(),
            it.seq() == a@,
            i <= b.len(),
            forall|j: int| 0 <= j < i ==> a@[j] == b@[j],
    {
        if i >= b.len() {
            proof {
                assert(precedes_at(b@, a@, i as int));
                lemma_precedes_asymmetric(b@, a@);
            }
            return Rank::After;
        }
        let d = b[i];
        if c < d {
            proof {
                assert(precedes_at(a@, b@, i as int));
                lemma_precedes_asymmetric(a@, b@);
            }
            return Rank::Before;
        }
        if d < c {
            proof {
                assert(precedes_at(b@, a@, i as int));
                lemma_precedes_asymmetric(b@, a@);
            }
            return Rank::After;
        }
        i += 1;
    }
    if i < b.len() {
        proof {
            assert(precedes_at(a@, b@, i as int));
            lemma_precedes_asymmetric(a@, b@);
        }
        Rank::Before
    } else {
        proof {
            assert(a@ =~= b@);
            lemma_precedes_irreflexive(a@);
        }
        Rank::Same
    }
}

} // verus!
