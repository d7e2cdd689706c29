//! Edit distance between two character sequences.

use vstd::prelude::*;

verus! {

/// The least of three numbers.
pub open spec fn min3(a: nat, b: nat, c: nat) -> nat {
    if a <= b && a <= c {
        a
    } else if b <= c {
        b
    } else {
        c
    }
}

/// The least number of single-character insertions, deletions and substitutions
/// that turn `a` into `b`.
pub open spec fn edit_distance(a: Seq<char>, b: Seq<char>) -> nat
    decreases a.len() + b.len(),
{
    if a.len() == 0 {
        b.len()
    } else if b.len() == 0 {
        a.len()
    } else {
        min3(
            edit_distance(a.drop_last(), b) + 1,
            edit_distance(a, b.drop_last()) + 1,
            edit_distance(a.drop_last(), b.drop_last()) + if a.last() == b.last() {
                0nat
            } else {
                1nat
            },
        )
    }
}

fn min3_exec(a: u128, b: u128, c: u128) -> (r: u128)
    ensures
        r == min3(a as nat, b as nat, c as nat),
{
    if a <= b && a <= c {
        a
    } else if b <= c {
        b
    } else {
        c
    }
}

/// The edit distance between `a` and `b`, computed one row of the table at a time.
pub fn levenshtein_distance(a: &Vec<char>, b: &Vec<char>) -> (r: u128)
    ensures
        r == edit_distance(a@, b@),
{
    let n = a.len();
    let m = b.len();
    let mut prev: Vec<u128> = Vec::new();
    prev.push(0);
    let mut j: usize = 0;
    while j < m
        invariant
            m == b@.len(),
            j <= m,
            prev@.len() == j + 1,
            forall|k: int|
                0 <= k <= j ==> #[trigger] prev@[k] == edit_distance(
                    Seq::<char>::empty(),
                    b@.take(k),
                ) && prev@[k] == k,
        decreases m - j,
    {
        prev.push((j + 1) as u128);
        j = j + 1;
        assert(Seq::<char>::empty().len() == 0);
    }
    assert(prev@.len() == m + 1);
    assert forall|k: int| 0 <= k <= m implies #[trigger] prev@[k] == edit_distance(
        a@.take(0),
        b@.take(k),
    ) by {
        assert(a@.take(0) =~= Seq::<char>::empty());
    }
    let mut i: usize = 0;
    while i < n
        invariant
            n == a@.len(),
            m == b@.len(),
            i <= n,
            prev@.len() == m + 1,
            forall|k: int|
                0 <= k <= m ==> #[trigger] prev@[k] == edit_distance(a@.take(i as int), b@.take(k)),
            forall|k: int| 0 <= k <= m ==> #[trigger] prev@[k] <= if i >= k { i as int } else { k },
        decreases n - i,
    {
        let mut cur: Vec<u128> = Vec::new();
        cur.push((i + 1) as u128);
        assert(b@.take(0).len() == 0);
        assert(a@.take(i + 1).len() == i + 1);
        let mut j: usize = 0;
        while j < m
            invariant
                n == a@.len(),
                m == b@.len(),
                i < n,
                j <= m,
                prev@.len() == m + 1,
                cur@.len() == j + 1,
                forall|k: int|
                    0 <= k <= m ==> #[trigger] prev@[k] == edit_distance(
                        a@.take(i as int),
                        b@.take(k),
                    ),
                forall|k: int|
                    0 <= k <= m ==> #[trigger] prev@[k] <= if i >= k { i as int } else { k },
                forall|k: int|
                    0 <= k <= j ==> #[trigger] cur@[k] == edit_distance(
                        a@.take(i + 1),
                        b@.take(k),
                    ),
                forall|k: int|
                    0 <= k <= j ==> #[trigger] cur@[k] <= if i + 1 >= k {
                        i + 1
                    } else {
                        k
                    },
            decreases m - j,
        {
            let cost: u128 = if a[i] == b[j] {
                0
            } else {
                1
            };
            let del = prev[j + 1] + 1;
            let ins = cur[j] + 1;
            let sub = prev[j] + cost;
            let v = min3_exec(del, ins, sub);
            proof {
                let x = a@.take(i + 1);
                let y = b@.take(j + 1);
                assert(x.drop_last() =~= a@.take(i as int));
                assert(y.drop_last() =~= b@.take(j as int));
                assert(x.last() == a@[i as int]);
                assert(y.last() == b@[j as int]);
            }
            cur.push(v);
            j = j + 1;
        }
        prev = cur;
        i = i + 1;
    }
    assert(a@.take(n as int) =~= a@);
    assert(b@.take(m as int) =~= b@);
    prev[m]
}

} // verus!
