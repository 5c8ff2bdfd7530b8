//! Ranking by score: the stable ascending order of a list of keys.

use vstd::prelude::*;
use crate::score::{lemma_lex_less_irreflexive, lemma_lex_less_transitive, lex_less, BotScore};

verus! {

/// What a list is ranked by: a leading number, then a score.
#[derive(Debug, Copy, Clone)]
pub struct RankKey {
    pub major: usize,
    pub score: BotScore,
}

impl RankKey {
    /// The leading number followed by the fields of the score.
    pub open spec fn key(self) -> Seq<int> {
        seq![self.major as int] + self.score.key()
    }

    /// `self` ranks below `other`.
    pub open spec fn precedes_spec(self, other: RankKey) -> bool {
        lex_less(self.key(), other.key())
    }

    /// Whether `self` ranks below `other`.
    pub fn precedes(&self, other: &RankKey) -> (below: bool)
        ensures
            below == self.precedes_spec(*other),
    {
        proof {
            assert(self.key().skip(1) =~= self.score.key());
            assert(other.key().skip(1) =~= other.score.key());
        }
        if self.major != other.major {
            self.major < other.major
        } else {
            self.score.precedes(&other.score)
        }
    }
}

/// The keys of a list of rank keys.
pub open spec fn keys_of(ranks: Seq<RankKey>) -> Seq<Seq<int>> {
    ranks.map_values(|r: RankKey| r.key())
}

/// Where an item with `key` goes into `order`, a list of positions in `keys`: behind
/// the last entry that does not rank above it.
pub open spec fn insertion_point(order: Seq<usize>, keys: Seq<Seq<int>>, key: Seq<int>) -> nat
    decreases order.len(),
{
    if order.len() == 0 {
        0
    } else if lex_less(key, keys[order.last() as int]) {
        insertion_point(order.drop_last(), keys, key)
    } else {
        order.len()
    }
}

/// The positions of the first `n` keys in ascending order of their keys, positions
/// with equal keys in ascending order.
pub open spec fn stable_order(keys: Seq<Seq<int>>, n: nat) -> Seq<usize>
    decreases n,
{
    if n == 0 {
        Seq::empty()
    } else {
        let before = stable_order(keys, (n - 1) as nat);
        before.insert(
            insertion_point(before, keys, keys[n - 1]) as int,
            (n - 1) as usize,
        )
    }
}

/// The items of `items` in the order that `order` gives.
pub open spec fn arranged<T>(items: Seq<T>, order: Seq<usize>) -> Seq<T> {
    Seq::new(order.len(), |i: int| items[order[i] as int])
}

/// `order` lists positions below `n`, each at most once, in ascending order of their
/// keys and, among equal keys, in ascending order of position.
pub open spec fn is_stable_ascending(order: Seq<usize>, keys: Seq<Seq<int>>, n: nat) -> bool {
    &&& forall|i: int| 0 <= i < order.len() ==> (#[trigger] order[i]) < n
    &&& forall|i: int, j: int|
        0 <= i < j < order.len() ==> !lex_less(
            keys[(#[trigger] order[j]) as int],
            keys[(#[trigger] order[i]) as int],
        )
    &&& forall|i: int, j: int|
        0 <= i < j < order.len() && !lex_less(
            keys[(#[trigger] order[i]) as int],
            keys[(#[trigger] order[j]) as int],
        ) ==> order[i] < order[j]
}

/// The insertion point lies in the list, everything before it does not rank above
/// the key, and everything from it on does.
pub proof fn lemma_insertion_point(order: Seq<usize>, keys: Seq<Seq<int>>, key: Seq<int>, n: nat)
    requires
        is_stable_ascending(order, keys, n),
    ensures
        insertion_point(order, keys, key) <= order.len(),
        forall|i: int|
            0 <= i < insertion_point(order, keys, key) ==> !lex_less(
                key,
                keys[(#[trigger] order[i]) as int],
            ),
        forall|i: int|
            insertion_point(order, keys, key) <= i < order.len() ==> lex_less(
                key,
                keys[(#[trigger] order[i]) as int],
            ),
    decreases order.len(),
{
    if order.len() > 0 {
        let last = order.last();
        if lex_less(key, keys[last as int]) {
            let rest = order.drop_last();
            assert(is_stable_ascending(rest, keys, n)) by {
                assert forall|i: int| 0 <= i < rest.len() implies (#[trigger] rest[i]) < n by {
                    assert(rest[i] == order[i]);
                }
                assert forall|i: int, j: int| 0 <= i < j < rest.len() implies !lex_less(
                    keys[(#[trigger] rest[j]) as int],
                    keys[(#[trigger] rest[i]) as int],
                ) by {
                    assert(rest[i] == order[i] && rest[j] == order[j]);
                }
                assert forall|i: int, j: int|
                    0 <= i < j < rest.len() && !lex_less(
                        keys[(#[trigger] rest[i]) as int],
                        keys[(#[trigger] rest[j]) as int],
                    ) implies rest[i] < rest[j] by {
                    assert(rest[i] == order[i] && rest[j] == order[j]);
                }
            }
            lemma_insertion_point(rest, keys, key, n);
            assert forall|i: int| 0 <= i < insertion_point(order, keys, key) implies !lex_less(
                key,
                keys[(#[trigger] order[i]) as int],
            ) by {
                assert(rest[i] == order[i]);
            }
            assert forall|i: int|
                insertion_point(order, keys, key) <= i < order.len() implies lex_less(
                key,
                keys[(#[trigger] order[i]) as int],
            ) by {
                if i < rest.len() {
                    assert(rest[i] == order[i]);
                }
            }
        } else {
            assert forall|i: int| 0 <= i < order.len() implies !lex_less(
                key,
                keys[(#[trigger] order[i]) as int],
            ) by {
                if i < order.len() - 1 && lex_less(key, keys[order[i] as int]) {
                    // order[i] does not rank above the last entry, which does not rank
                    // above the key
                    let a = keys[order[i] as int];
                    let b = keys[last as int];
                    assert(!lex_less(b, a));
                    lemma_not_above(key, a, b);
                }
            }
        }
    }
}

/// If `key` ranks below `a` and `b` does not rank below `a`, `key` ranks below `b`.
pub proof fn lemma_not_above(key: Seq<int>, a: Seq<int>, b: Seq<int>)
    requires
        lex_less(key, a),
        !lex_less(b, a),
    ensures
        lex_less(key, b),
    decreases key.len(),
{
    if b.len() == 0 {
    } else if key.len() == 0 {
    } else if a.len() == 0 {
    } else if key[0] != a[0] {
        if a[0] != b[0] {
        } else {
        }
    } else {
        if a[0] != b[0] {
        } else {
            lemma_not_above(key.skip(1), a.skip(1), b.skip(1));
        }
    }
}

/// The stable order is what its name says: it lists every position below `n` once,
/// in ascending order of the keys, and positions with equal keys in ascending order.
pub proof fn lemma_stable_order_sorts(keys: Seq<Seq<int>>, n: nat)
    requires
        n <= keys.len(),
        n <= usize::MAX,
    ensures
        stable_order(keys, n).len() == n,
        is_stable_ascending(stable_order(keys, n), keys, n),
        forall|p: usize| p < n ==> stable_order(keys, n).contains(p),
    decreases n,
{
    if n > 0 {
        let before = stable_order(keys, (n - 1) as nat);
        let key = keys[n - 1];
        let at = insertion_point(before, keys, key) as int;
        let order = stable_order(keys, n);
        lemma_stable_order_sorts(keys, (n - 1) as nat);
        lemma_insertion_point(before, keys, key, (n - 1) as nat);
        assert(order == before.insert(at, (n - 1) as usize));
        assert forall|i: int| 0 <= i < order.len() implies (#[trigger] order[i]) < n by {
            if i < at {
                assert(order[i] == before[i]);
            } else if i > at {
                assert(order[i] == before[i - 1]);
            }
        }
        assert forall|i: int, j: int| 0 <= i < j < order.len() implies !lex_less(
            keys[(#[trigger] order[j]) as int],
            keys[(#[trigger] order[i]) as int],
        ) by {
            let bi = if i < at {
                i
            } else {
                i - 1
            };
            let bj = if j < at {
                j
            } else {
                j - 1
            };
            if i == at {
                assert(order[j] == before[bj]);
                lemma_lex_less_asymmetric(key, keys[before[bj] as int]);
            } else if j == at {
                assert(order[i] == before[bi]);
            } else {
                assert(order[i] == before[bi] && order[j] == before[bj]);
            }
        }
        assert forall|i: int, j: int|
            0 <= i < j < order.len() && !lex_less(
                keys[(#[trigger] order[i]) as int],
                keys[(#[trigger] order[j]) as int],
            ) implies order[i] < order[j] by {
            let bi = if i < at {
                i
            } else {
                i - 1
            };
            let bj = if j < at {
                j
            } else {
                j - 1
            };
            if i == at {
                assert(order[j] == before[bj]);
            } else if j == at {
                assert(order[i] == before[bi]);
            } else {
                assert(order[i] == before[bi] && order[j] == before[bj]);
            }
        }
        assert forall|p: usize| p < n implies order.contains(p) by {
            if p == n - 1 {
                assert(order[at] == p);
            } else {
                assert(before.contains(p));
                let k = choose|k: int| 0 <= k < before.len() && before[k] == p;
                if k < at {
                    assert(order[k] == p);
                } else {
                    assert(order[k + 1] == p);
                }
            }
        }
    }
}

/// Of two keys at most one ranks below the other.
pub proof fn lemma_lex_less_asymmetric(a: Seq<int>, b: Seq<int>)
    requires
        lex_less(a, b),
    ensures
        !lex_less(b, a),
{
    if lex_less(b, a) {
        lemma_lex_less_transitive(a, b, a);
        lemma_lex_less_irreflexive(a);
    }
}

/// Computes the stable ascending order of `ranks`.
pub fn sorted_order(ranks: &Vec<RankKey>) -> (order: Vec<usize>)
    ensures
        order@ == stable_order(keys_of(ranks@), ranks@.len()),
        order@.len() == ranks@.len(),
        forall|i: int| 0 <= i < order@.len() ==> (#[trigger] order@[i]) < ranks@.len(),
{
    let ghost keys = keys_of(ranks@);
    let mut order: Vec<usize> = Vec::new();
    let mut n: usize = 0;
    while n < ranks.len()
        invariant
            n <= ranks@.len(),
            keys == keys_of(ranks@),
            order@ == stable_order(keys, n as nat),
            order@.len() == n,
            forall|i: int| 0 <= i < order@.len() ==> (#[trigger] order@[i]) < n,
        decreases ranks@.len() - n,
    {
        let mut at: usize = order.len();
        assert(order@.take(at as int) == order@);
        while at > 0 && ranks[n].precedes(&ranks[order[at - 1]])
            invariant
                at <= order@.len(),
                n < ranks@.len(),
                keys == keys_of(ranks@),
                forall|i: int| 0 <= i < order@.len() ==> (#[trigger] order@[i]) < n,
                insertion_point(order@, keys, keys[n as int]) == insertion_point(
                    order@.take(at as int),
                    keys,
                    keys[n as int],
                ),
            decreases at,
        {
            assert(order@.take(at as int).drop_last() == order@.take(at as int - 1));
            assert(order@.take(at as int).last() == order@[at as int - 1]);
            at -= 1;
        }
        proof {
            if at > 0 {
                assert(order@.take(at as int).last() == order@[at as int - 1]);
            }
            assert(insertion_point(order@.take(at as int), keys, keys[n as int]) == at);
        }
        order.insert(at, n);
        n += 1;
    }
    order
}

} // verus!
