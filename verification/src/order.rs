//! Stable orders by a number.
use vstd::prelude::*;
use vstd::set_lib::*;

verus! {

/// Whether `p` lists the places of `keys` from the largest key to the smallest,
/// and places of equal keys in their order. There is one such list.
pub open spec fn is_descending_order(keys: Seq<u64>, p: Seq<int>) -> bool {
    &&& p.len() == keys.len()
    &&& forall|i: int| 0 <= i < p.len() ==> 0 <= #[trigger] p[i] < keys.len()
    &&& forall|i: int, j: int|
        0 <= i < j < p.len() ==> {
            ||| keys[#[trigger] p[i]] > keys[#[trigger] p[j]]
            ||| keys[p[i]] == keys[p[j]] && p[i] < p[j]
        }
}

/// The items at the places that a list names.
pub open spec fn at_places<T>(items: Seq<T>, p: Seq<int>) -> Seq<T> {
    Seq::new(p.len(), |i: int| items[p[i]])
}

/// Places in mathematical terms.
pub open spec fn places(p: Seq<usize>) -> Seq<int> {
    p.map_values(|i: usize| i as int)
}

/// Lists the places of keys from the largest key to the smallest; places of equal
/// keys stay in their order.
pub fn descending_order(keys: &Vec<u64>) -> (p: Vec<usize>)
    ensures
        is_descending_order(keys@, places(p@)),
{
    let mut p: Vec<usize> = Vec::new();
    let mut n: usize = 0;
    while n < keys.len()
        invariant
            n <= keys@.len(),
            p@.len() == n,
            forall|i: int| 0 <= i < n ==> (#[trigger] p@[i]) < n,
            forall|i: int, j: int|
                0 <= i < j < n ==> {
                    ||| keys@[(#[trigger] p@[i]) as int] > keys@[(#[trigger] p@[j]) as int]
                    ||| keys@[p@[i] as int] == keys@[p@[j] as int] && p@[i] < p@[j]
                },
        decreases keys.len() - n,
    {
        let mut at: usize = n;
        while at > 0 && keys[p[at - 1]] < keys[n]
            invariant
                at <= n < keys@.len(),
                p@.len() == n,
                forall|i: int| 0 <= i < n ==> (#[trigger] p@[i]) < n,
                forall|i: int| at <= i < n ==> keys@[(#[trigger] p@[i]) as int] < keys@[n as int],
            decreases at,
        {
            at = at - 1;
        }
        let ghost before = p@;
        proof {
            assert forall|i: int| 0 <= i < at implies keys@[(#[trigger] before[i]) as int]
                >= keys@[n as int] by {
                assert(before[at - 1] < n);
                if i < at - 1 {
                    assert(keys@[before[i] as int] >= keys@[before[at - 1] as int]);
                }
            }
        }
        p.insert(at, n);
        proof {
            assert forall|i: int, j: int| 0 <= i < j < n + 1 implies {
                ||| keys@[(#[trigger] p@[i]) as int] > keys@[(#[trigger] p@[j]) as int]
                ||| keys@[p@[i] as int] == keys@[p@[j] as int] && p@[i] < p@[j]
            } by {
                let a = if i < at {
                    i
                } else {
                    i - 1
                };
                let b = if j < at {
                    j
                } else {
                    j - 1
                };
                if i == at {
                    assert(p@[j] == before[b]);
                } else if j == at {
                    assert(p@[i] == before[a]);
                } else {
                    assert(p@[i] == before[a] && p@[j] == before[b]);
                }
            }
        }
        n = n + 1;
    }
    proof {
        let q = places(p@);
        assert forall|i: int, j: int| 0 <= i < j < q.len() implies {
            ||| keys@[#[trigger] q[i]] > keys@[#[trigger] q[j]]
            ||| keys@[q[i]] == keys@[q[j]] && q[i] < q[j]
        } by {
            assert(p@[i] as int == q[i] && p@[j] as int == q[j]);
        }
    }
    p
}

/// An order by keys passes no place over.
pub proof fn law_order_complete(keys: Seq<u64>, p: Seq<int>)
    requires
        is_descending_order(keys, p),
    ensures
        forall|k: int| 0 <= k < keys.len() ==> p.contains(k),
        p.no_duplicates(),
{
    assert(p.no_duplicates());
    let all = set_int_range(0, keys.len() as int);
    lemma_int_range(0, keys.len() as int);
    p.unique_seq_to_set();
    assert(p.to_set().subset_of(all)) by {
        assert forall|x: int| p.to_set().contains(x) implies all.contains(x) by {
            let i = choose|i: int| 0 <= i < p.len() && p[i] == x;
            assert(0 <= p[i] < keys.len());
        }
    }
    lemma_subset_equality(p.to_set(), all);
    assert forall|k: int| 0 <= k < keys.len() implies p.contains(k) by {
        assert(all.contains(k));
        assert(p.to_set().contains(k));
    }
}

/// An order by keys goes from the largest to the smallest, and keeps places of equal keys as they
/// were.
pub proof fn law_order_descends(keys: Seq<u64>, p: Seq<int>, i: int, j: int)
    requires
        is_descending_order(keys, p),
        0 <= i < j < p.len(),
    ensures
        keys[p[i]] >= keys[p[j]],
        keys[p[i]] == keys[p[j]] ==> p[i] < p[j],
        p.len() == keys.len(),
{
}

} // verus!
