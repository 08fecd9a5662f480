use vstd::prelude::*;

verus! {

/// Each value is smaller than the next.
pub open spec fn strictly_increasing(s: Seq<u64>) -> bool {
    forall|i: int, j: int| 0 <= i < j < s.len() ==> s[i] < s[j]
}

/// `out` holds the values of `vals` in increasing order, each once, as `sort` followed by
/// `dedup` leaves them.
pub open spec fn sorted_unique_of(out: Seq<u64>, vals: Seq<u64>) -> bool {
    &&& strictly_increasing(out)
    &&& out.to_set() == vals.to_set()
}

/// Two increasing sequences with the same elements are equal.
pub proof fn lemma_increasing_determined(a: Seq<u64>, b: Seq<u64>, elems: Set<u64>)
    requires
        strictly_increasing(a),
        strictly_increasing(b),
        forall|y: u64| a.contains(y) <==> elems.contains(y),
        forall|y: u64| b.contains(y) <==> elems.contains(y),
    ensures
        a == b,
    decreases a.len() + b.len(),
{
    if a.len() == 0 {
        if b.len() > 0 {
            assert(b.contains(b[0]));
        }
        assert(a =~= b);
    } else if b.len() == 0 {
        assert(a.contains(a[0]));
    } else {
        let x = a.last();
        let y = b.last();
        assert(a.contains(x));
        assert(b.contains(y));
        let ia = choose|i: int| 0 <= i < a.len() && a[i] == y;
        let ib = choose|i: int| 0 <= i < b.len() && b[i] == x;
        assert(x <= y) by {
            if ib < b.len() - 1 {
                assert(b[ib] < b[b.len() - 1]);
            }
        }
        assert(y <= x) by {
            if ia < a.len() - 1 {
                assert(a[ia] < a[a.len() - 1]);
            }
        }
        let rest = elems.remove(x);
        assert forall|z: u64| a.drop_last().contains(z) <==> rest.contains(z) by {
            if a.drop_last().contains(z) {
                let k = choose|k: int| 0 <= k < a.drop_last().len() && a.drop_last()[k] == z;
                assert(a[k] == z);
                assert(a.contains(z));
            }
            if rest.contains(z) {
                assert(a.contains(z));
                let k = choose|k: int| 0 <= k < a.len() && a[k] == z;
                assert(k != a.len() - 1);
                assert(a.drop_last()[k] == z);
            }
        }
        assert forall|z: u64| b.drop_last().contains(z) <==> rest.contains(z) by {
            if b.drop_last().contains(z) {
                let k = choose|k: int| 0 <= k < b.drop_last().len() && b.drop_last()[k] == z;
                assert(b[k] == z);
                assert(b.contains(z));
            }
            if rest.contains(z) {
                assert(b.contains(z));
                let k = choose|k: int| 0 <= k < b.len() && b[k] == z;
                assert(k != b.len() - 1);
                assert(b.drop_last()[k] == z);
            }
        }
        lemma_increasing_determined(a.drop_last(), b.drop_last(), rest);
        assert(a =~= a.drop_last().push(x));
        assert(b =~= b.drop_last().push(y));
    }
}

/// The values of `vals` in increasing order, each once.
pub open spec fn sorted_set_of(vals: Seq<u64>) -> Seq<u64> {
    choose|out: Seq<u64>| sorted_unique_of(out, vals)
}

/// A sequence that holds the values of `vals` in increasing order, each once, is the one.
pub proof fn lemma_sorted_set_of(out: Seq<u64>, vals: Seq<u64>)
    requires
        sorted_unique_of(out, vals),
    ensures
        sorted_set_of(vals) == out,
{
    let c = sorted_set_of(vals);
    assert(sorted_unique_of(c, vals));
    lemma_increasing_determined(c, out, vals.to_set());
}

/// Inserts `x` into an increasing vector, keeping it increasing and without duplicates.
pub fn insert_sorted(v: Vec<u64>, x: u64) -> (r: Vec<u64>)
    requires
        strictly_increasing(v@),
    ensures
        strictly_increasing(r@),
        r@.to_set() == v@.to_set().insert(x),
{
    let ghost initial = v@;
    let mut v = v;
    let mut i: usize = 0;
    while i < v.len() && v[i] < x
        invariant
            i <= v.len(),
            v@ == initial,
            strictly_increasing(v@),
            forall|k: int| 0 <= k < i ==> v@[k] < x,
        decreases v.len() - i,
    {
        i += 1;
    }
    if i < v.len() && v[i] == x {
        assert(v@[i as int] == x);
        assert forall|y: u64| v@.contains(y) <==> (v@.contains(y) || y == x) by {
            if y == x {
                assert(v@[i as int] == y);
            }
        }
        return v;
    }
    let ghost before = v@;
    v.insert(i, x);
    assert(v@ =~= before.take(i as int).push(x) + before.skip(i as int));
    assert forall|a: int, b: int| 0 <= a < b < v@.len() implies v@[a] < v@[b] by {
        if b < i {
            assert(v@[a] == before[a] && v@[b] == before[b]);
        } else if b == i {
            assert(v@[a] == before[a]);
        } else if a < i {
            assert(v@[a] == before[a]);
            assert(v@[b] == before[b - 1]);
            assert(before[b - 1] >= x) by {
                if b - 1 > i {
                    assert(before[i as int] < before[b - 1]);
                }
                assert(before[i as int] >= x);
            }
        } else if a == i {
            assert(v@[b] == before[b - 1]);
            assert(before[i as int] >= x);
            assert(before[i as int] != x);
            if b - 1 > i {
                assert(before[i as int] < before[b - 1]);
            }
        } else {
            assert(v@[a] == before[a - 1] && v@[b] == before[b - 1]);
        }
    }
    assert(before == initial);
    assert forall|y: u64| #[trigger] v@.to_set().contains(y) <==> initial.to_set().insert(x).contains(y) by {
        if v@.contains(y) {
            let k = choose|k: int| 0 <= k < v@.len() && v@[k] == y;
            if k < i {
                assert(before[k] == y);
            } else if k > i {
                assert(before[k - 1] == y);
            }
        }
        if before.contains(y) {
            let k = choose|k: int| 0 <= k < before.len() && before[k] == y;
            if k < i {
                assert(v@[k] == y);
            } else {
                assert(v@[k + 1] == y);
            }
        }
        if y == x {
            assert(v@[i as int] == x);
        }
    }
    assert(v@.to_set() =~= initial.to_set().insert(x));
    v
}

/// The values of `vals` in increasing order, each once.
pub fn sorted_unique(vals: &Vec<u64>) -> (r: Vec<u64>)
    ensures
        sorted_unique_of(r@, vals@),
{
    let mut r: Vec<u64> = Vec::new();
    let mut i: usize = 0;
    assert(r@.to_set() =~= vals@.take(0).to_set());
    while i < vals.len()
        invariant
            i <= vals.len(),
            strictly_increasing(r@),
            r@.to_set() == vals@.take(i as int).to_set(),
        decreases vals.len() - i,
    {
        let ghost before = r@;
        r = insert_sorted(r, vals[i]);
        assert forall|y: u64| #[trigger] r@.to_set().contains(y) <==> vals@.take(i + 1).to_set().contains(y) by {
            assert(vals@.take(i + 1) =~= vals@.take(i as int).push(vals@[i as int]));
            if vals@.take(i + 1).contains(y) {
                let k = choose|k: int| 0 <= k < i + 1 && #[trigger] vals@.take(i + 1)[k] == y;
                if k < i {
                    assert(vals@.take(i as int)[k] == y);
                }
            }
            if vals@.take(i as int).contains(y) {
                let k = choose|k: int| 0 <= k < i && #[trigger] vals@.take(i as int)[k] == y;
                assert(vals@.take(i + 1)[k] == y);
            }
            if y == vals@[i as int] {
                assert(vals@.take(i + 1)[i as int] == y);
            }
        }
        assert(r@.to_set() =~= vals@.take(i + 1).to_set());
        i += 1;
    }
    assert(vals@.take(vals.len() as int) =~= vals@);
    r
}

} // verus!
