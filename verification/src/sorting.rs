//! Lexicographic order on integer sequences, and stable sorting by such keys.
use vstd::prelude::*;

verus! {

/// `a` and `b` agree on their first `k` elements.
pub open spec fn agree_upto(a: Seq<i64>, b: Seq<i64>, k: int) -> bool {
    forall|j: int| 0 <= j < k ==> a[j] == b[j]
}

/// `k` witnesses that `a` comes strictly before `b`: they agree before `k`, and
/// at `k` either `a` has a smaller element or `a` has ended while `b` goes on.
pub open spec fn lt_at(a: Seq<i64>, b: Seq<i64>, k: int) -> bool {
    &&& 0 <= k <= a.len()
    &&& k <= b.len()
    &&& agree_upto(a, b, k)
    &&& ((k < a.len() && k < b.len() && a[k] < b[k]) || (k == a.len() && k < b.len()))
}

/// Lexicographic order: `a` comes strictly before `b`.
pub open spec fn lex_lt(a: Seq<i64>, b: Seq<i64>) -> bool {
    exists|k: int| lt_at(a, b, k)
}

/// No sequence comes before itself, and no two sequences come before each other.
pub proof fn lemma_lex_asymmetric(a: Seq<i64>, b: Seq<i64>)
    ensures
        !(lex_lt(a, b) && lex_lt(b, a)),
        !lex_lt(a, a),
{
    if lex_lt(a, b) && lex_lt(b, a) {
        let k1 = choose|k: int| lt_at(a, b, k);
        let k2 = choose|k: int| lt_at(b, a, k);
        if k1 < k2 {
            assert(b[k1] == a[k1]);
        } else if k2 < k1 {
            assert(a[k2] == b[k2]);
        }
    }
    if lex_lt(a, a) {
        let k = choose|k: int| lt_at(a, a, k);
    }
}

/// The order is transitive.
pub proof fn lemma_lex_transitive(a: Seq<i64>, b: Seq<i64>, c: Seq<i64>)
    requires
        lex_lt(a, b),
        lex_lt(b, c),
    ensures
        lex_lt(a, c),
{
    let k1 = choose|k: int| lt_at(a, b, k);
    let k2 = choose|k: int| lt_at(b, c, k);
    let k = if k1 < k2 { k1 } else { k2 };
    assert(lt_at(a, c, k));
}

proof fn lemma_lex_total_from(a: Seq<i64>, b: Seq<i64>, k: int)
    requires
        0 <= k <= a.len(),
        k <= b.len(),
        agree_upto(a, b, k),
    ensures
        a == b || lex_lt(a, b) || lex_lt(b, a),
    decreases a.len() - k,
{
    if k < a.len() && k < b.len() {
        if a[k] < b[k] {
            assert(lt_at(a, b, k));
        } else if b[k] < a[k] {
            assert(lt_at(b, a, k));
        } else {
            lemma_lex_total_from(a, b, k + 1);
        }
    } else if k < b.len() {
        assert(lt_at(a, b, k));
    } else if k < a.len() {
        assert(lt_at(b, a, k));
    } else {
        assert(a =~= b);
    }
}

/// Two different sequences are ordered one way or the other.
pub proof fn lemma_lex_total(a: Seq<i64>, b: Seq<i64>)
    ensures
        a == b || lex_lt(a, b) || lex_lt(b, a),
{
    lemma_lex_total_from(a, b, 0);
}

/// Whether `a` comes strictly before `b`.
pub fn lex_less(a: &Vec<i64>, b: &Vec<i64>) -> (r: bool)
    ensures
        r == lex_lt(a@, b@),
{
    let n = if a.len() < b.len() { a.len() } else { b.len() };
    let mut k: usize = 0;
    while k < n && a[k] == b[k]
        invariant
            n <= a.len(),
            n <= b.len(),
            n == a.len() || n == b.len(),
            0 <= k <= n,
            agree_upto(a@, b@, k as int),
        decreases n - k,
    {
        k = k + 1;
    }
    proof {
        lemma_lex_asymmetric(a@, b@);
    }
    if k < n {
        if a[k] < b[k] {
            assert(lt_at(a@, b@, k as int));
            true
        } else {
            assert(lt_at(b@, a@, k as int));
            false
        }
    } else if a.len() < b.len() {
        assert(lt_at(a@, b@, k as int));
        true
    } else {
        proof {
            if lex_lt(a@, b@) {
                let j = choose|j: int| lt_at(a@, b@, j);
                if j < k {
                    assert(a@[j] == b@[j]);
                }
            }
        }
        false
    }
}

/// In the order given by `keys` (descending when `descending`), the element at
/// index `x` may stand before the one at index `y`.
pub open spec fn may_precede(keys: Seq<Seq<i64>>, descending: bool, x: int, y: int) -> bool {
    if descending {
        !lex_lt(keys[x], keys[y])
    } else {
        !lex_lt(keys[y], keys[x])
    }
}

/// `order` lists the indices of `keys` as a stable sort by `keys` lists them:
/// each index once, sorted by key (descending when `descending`), and equal
/// keys in the order in which they came.
pub open spec fn is_stable_order(keys: Seq<Seq<i64>>, descending: bool, order: Seq<usize>) -> bool {
    &&& order.len() == keys.len()
    &&& forall|p: int| 0 <= p < order.len() ==> #[trigger] order[p] < keys.len()
    &&& forall|p: int, q: int| 0 <= p < q < order.len() ==> order[p] != order[q]
    &&& forall|p: int, q: int|
        0 <= p < q < order.len() ==> may_precede(keys, descending, order[p] as int, order[q] as int)
    &&& forall|p: int, q: int|
        0 <= p < q < order.len() && keys[order[p] as int] == keys[order[q] as int] ==> order[p] < order[q]
}

/// The invariant of insertion sort after the first `n` indices went in.
pub open spec fn is_stable_prefix_order(
    keys: Seq<Seq<i64>>,
    descending: bool,
    n: int,
    order: Seq<usize>,
) -> bool {
    &&& order.len() == n
    &&& forall|p: int| 0 <= p < order.len() ==> #[trigger] order[p] < n
    &&& forall|p: int, q: int| 0 <= p < q < order.len() ==> order[p] != order[q]
    &&& forall|p: int, q: int|
        0 <= p < q < order.len() ==> may_precede(keys, descending, order[p] as int, order[q] as int)
    &&& forall|p: int, q: int|
        0 <= p < q < order.len() && keys[order[p] as int] == keys[order[q] as int] ==> order[p] < order[q]
}

/// Whether, in the order given by `keys`, index `x` may stand before index `y`.
fn may_go_before(keys: &Vec<Vec<i64>>, descending: bool, x: usize, y: usize) -> (r: bool)
    requires
        x < keys.len(),
        y < keys.len(),
    ensures
        r == may_precede(keys@.map_values(|k: Vec<i64>| k@), descending, x as int, y as int),
{
    if descending {
        !lex_less(&keys[x], &keys[y])
    } else {
        !lex_less(&keys[y], &keys[x])
    }
}

/// The indices of `keys` in the order of a stable sort by key, descending
/// when `descending`, ascending otherwise.
pub fn stable_order(keys: &Vec<Vec<i64>>, descending: bool) -> (order: Vec<usize>)
    ensures
        is_stable_order(keys@.map_values(|k: Vec<i64>| k@), descending, order@),
{
    let ghost ks = keys@.map_values(|k: Vec<i64>| k@);
    let n = keys.len();
    let mut order: Vec<usize> = Vec::new();
    for i in 0..n
        invariant
            n == keys.len(),
            ks == keys@.map_values(|k: Vec<i64>| k@),
            is_stable_prefix_order(ks, descending, i as int, order@),
    {
        let mut pos: usize = 0;
        while pos < order.len() && may_go_before(keys, descending, order[pos], i)
            invariant
                n == keys.len(),
                i < n,
                ks == keys@.map_values(|k: Vec<i64>| k@),
                is_stable_prefix_order(ks, descending, i as int, order@),
                0 <= pos <= order.len(),
                forall|p: int| 0 <= p < pos ==> may_precede(ks, descending, #[trigger] order@[p] as int, i as int),
            decreases order.len() - pos,
        {
            pos = pos + 1;
        }
        let ghost old_order = order@;
        proof {
            assert forall|p: int| pos <= p < old_order.len() implies may_precede(ks, descending, i as int, #[trigger] old_order[p] as int) && ks[old_order[p] as int] != ks[i as int] by {
                let b = old_order[pos as int] as int;
                let e = old_order[p] as int;
                assert(!may_precede(ks, descending, b, i as int));
                if p > pos {
                    assert(may_precede(ks, descending, b, e));
                }
                lemma_lex_total(ks[b], ks[e]);
                lemma_lex_asymmetric(ks[i as int], ks[e]);
                if descending {
                    if ks[b] != ks[e] {
                        lemma_lex_transitive(ks[e], ks[b], ks[i as int]);
                    }
                } else {
                    if ks[b] != ks[e] {
                        lemma_lex_transitive(ks[i as int], ks[b], ks[e]);
                    }
                }
                lemma_lex_asymmetric(ks[e], ks[i as int]);
            }
        }
        order.insert(pos, i);
        proof {
            let o = order@;
            assert(o == old_order.take(pos as int).push(i).add(old_order.skip(pos as int)));
            assert forall|p: int| 0 <= p < o.len() implies #[trigger] o[p] < i + 1 by {
                if p < pos {
                    assert(o[p] == old_order[p]);
                } else if p > pos {
                    assert(o[p] == old_order[p - 1]);
                }
            }
            assert forall|p: int, q: int| 0 <= p < q < o.len() implies o[p] != o[q]
                && may_precede(ks, descending, o[p] as int, o[q] as int)
                && (ks[o[p] as int] == ks[o[q] as int] ==> o[p] < o[q]) by {
                if p < pos {
                    assert(o[p] == old_order[p]);
                    if q < pos {
                        assert(o[q] == old_order[q]);
                    } else if q > pos {
                        assert(o[q] == old_order[q - 1]);
                    } else {
                        lemma_lex_asymmetric(ks[o[p] as int], ks[i as int]);
                    }
                } else if p == pos {
                    assert(o[q] == old_order[q - 1]);
                } else {
                    assert(o[p] == old_order[p - 1]);
                    assert(o[q] == old_order[q - 1]);
                }
            }
            assert(is_stable_prefix_order(ks, descending, i + 1, o));
        }
    }
    order
}

} // verus!
