//! A stable sort by character-string keys (the order of `sort_by_cached_key` with a
//! `String` key, and of `sort_unstable` on distinct strings).
use vstd::prelude::*;
use crate::text::{seq_less, chars_less, lemma_seq_less_irreflexive, lemma_seq_less_total,
    lemma_seq_less_asymmetric, lemma_seq_less_transitive};

verus! {

/// The character views of a list of keys.
pub open spec fn keys_view(keys: Seq<Vec<char>>) -> Seq<Seq<char>> {
    keys.map_values(|k: Vec<char>| k@)
}

/// `p` is a permutation of `0 .. n`, given as the original position of each result element.
pub open spec fn is_permutation(p: Seq<int>, n: int) -> bool {
    &&& p.len() == n
    &&& forall|i: int| 0 <= i < n ==> 0 <= #[trigger] p[i] < n
    &&& forall|i: int, j: int| 0 <= i < n && 0 <= j < n && i != j ==> p[i] != p[j]
}

/// `(key, original position)` is strictly increasing along `p`.
pub open spec fn ordered_by(p: Seq<int>, keys: Seq<Seq<char>>) -> bool {
    forall|i: int, j: int|
        0 <= i < j < p.len() ==> seq_less(#[trigger] keys[p[i]], #[trigger] keys[p[j]]) || (
        keys[p[i]] == keys[p[j]] && p[i] < p[j])
}

/// `res` holds the elements of `items` sorted by `keys` (the key of `items[i]` is
/// `keys[i]`), elements with equal keys keeping their original order.
pub open spec fn is_stable_sort<T>(res: Seq<T>, items: Seq<T>, keys: Seq<Seq<char>>) -> bool {
    exists|p: Seq<int>|
        {
            &&& is_permutation(p, items.len() as int)
            &&& res.len() == items.len()
            &&& forall|i: int| 0 <= i < res.len() ==> #[trigger] res[i] == items[p[i]]
            &&& ordered_by(p, keys)
        }
}

/// Sorts `items` stably by `keys`.
pub fn sort_by_keys<T>(items: Vec<T>, keys: Vec<Vec<char>>) -> (res: Vec<T>)
    requires
        keys.len() == items.len(),
    ensures
        is_stable_sort(res@, items@, keys_view(keys@)),
{
    let ghost all_items = items@;
    let ghost all_keys = keys_view(keys@);
    let ghost n = items.len() as int;
    let mut items = items;
    let mut keys = keys;
    let mut res: Vec<T> = Vec::new();
    let mut res_keys: Vec<Vec<char>> = Vec::new();
    let ghost mut p: Seq<int> = Seq::empty();
    while items.len() > 0
        invariant
            items.len() == keys.len(),
            items.len() <= n,
            n == all_items.len(),
            all_keys.len() == n,
            items@ == all_items.take(items.len() as int),
            keys_view(keys@) == all_keys.take(keys.len() as int),
            res.len() == res_keys.len(),
            res.len() == p.len(),
            res.len() + items.len() == n,
            forall|i: int| 0 <= i < p.len() ==> items.len() <= #[trigger] p[i] < n,
            forall|i: int, j: int| 0 <= i < p.len() && 0 <= j < p.len() && i != j ==> p[i] != p[j],
            forall|i: int| 0 <= i < res.len() ==> #[trigger] res@[i] == all_items[p[i]],
            forall|i: int| 0 <= i < res.len() ==> #[trigger] res_keys@[i]@ == all_keys[p[i]],
            ordered_by(p, all_keys),
        decreases items.len(),
    {
        let ghost idx = (items.len() - 1) as int;
        let ghost keys_before = keys@;
        let item = items.pop().unwrap();
        let key = keys.pop().unwrap();
        assert(item == all_items[idx]);
        assert(keys_view(keys_before)[idx] == keys_before[idx]@);
        assert(all_keys.take(idx + 1)[idx] == all_keys[idx]);
        assert(key@ == all_keys[idx]);
        assert(keys_view(keys@) =~= keys_view(keys_before).take(idx));
        // Lower bound: the first position whose key is not smaller than `key`.
        let mut j: usize = 0;
        while j < res_keys.len() && chars_less(&res_keys[j], &key)
            invariant
                j <= res_keys.len(),
                forall|k: int| 0 <= k < j ==> seq_less(#[trigger] res_keys@[k]@, key@),
            decreases res_keys.len() - j,
        {
            j += 1;
        }
        proof {
            // Every key from position `j` on is at least `key`.
            assert forall|k: int| j <= k < res_keys.len() implies !seq_less(
                #[trigger] res_keys@[k]@,
                key@,
            ) by {
                if k > j {
                    assert(seq_less(all_keys[p[j as int]], all_keys[p[k]]) || all_keys[p[j as int]]
                        == all_keys[p[k]]);
                    lemma_seq_less_total(res_keys@[j as int]@, key@);
                    if seq_less(res_keys@[k]@, key@) {
                        if seq_less(all_keys[p[j as int]], all_keys[p[k]]) {
                            lemma_seq_less_transitive(res_keys@[j as int]@, res_keys@[k]@, key@);
                        }
                        lemma_seq_less_asymmetric(res_keys@[j as int]@, key@);
                        lemma_seq_less_irreflexive(key@);
                    }
                }
            }
        }
        let ghost old_p = p;
        let ghost old_res = res@;
        let ghost old_res_keys = res_keys@;
        res.insert(j, item);
        res_keys.insert(j, key);
        proof {
            p = old_p.insert(j as int, idx);
            assert forall|a: int, b: int| 0 <= a < b < p.len() implies seq_less(
                #[trigger] all_keys[p[a]],
                #[trigger] all_keys[p[b]],
            ) || (all_keys[p[a]] == all_keys[p[b]] && p[a] < p[b]) by {
                if a < j && b < j {
                    assert(p[a] == old_p[a] && p[b] == old_p[b]);
                } else if a < j && b == j {
                    assert(p[a] == old_p[a]);
                    assert(old_res_keys[a]@ == all_keys[old_p[a]]);
                    assert(seq_less(old_res_keys[a]@, key@));
                } else if a < j {
                    assert(p[a] == old_p[a] && p[b] == old_p[b - 1]);
                    assert(all_keys[old_p[a]] == all_keys[old_p[a]]);
                } else if a == j {
                    assert(p[b] == old_p[b - 1]);
                    assert(old_res_keys[b - 1]@ == all_keys[old_p[b - 1]]);
                    assert(!seq_less(old_res_keys[b - 1]@, key@));
                    lemma_seq_less_total(key@, old_res_keys[b - 1]@);
                } else {
                    assert(p[a] == old_p[a - 1] && p[b] == old_p[b - 1]);
                    assert(all_keys[old_p[a - 1]] == all_keys[old_p[a - 1]]);
                }
            }
            assert forall|a: int| 0 <= a < res.len() implies #[trigger] res@[a] == all_items[p[a]] by {
                if a < j {
                    assert(res@[a] == old_res[a]);
                } else if a > j {
                    assert(res@[a] == old_res[a - 1]);
                }
            }
            assert forall|a: int| 0 <= a < res.len() implies #[trigger] res_keys@[a]@ == all_keys[p[a]] by {
                if a < j {
                    assert(res_keys@[a] == old_res_keys[a]);
                } else if a > j {
                    assert(res_keys@[a] == old_res_keys[a - 1]);
                }
            }
            assert(items@ == all_items.take(items.len() as int));
            assert(keys_view(keys@) == all_keys.take(keys.len() as int));
        }
    }
    proof {
        assert(is_permutation(p, n));
        assert(is_stable_sort(res@, all_items, all_keys));
    }
    res
}

} // verus!
