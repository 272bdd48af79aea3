//! The order of the fields of a record.
//!
//! Fields are stored by name, whatever the order in which a record literal
//! wrote them. Names are compared byte by byte.

use vstd::prelude::*;
use vstd::string::StringSliceAdditionalSpecFns;
use vstd::utf8::encode_utf8;

verus! {

/// The bytes of a name.
pub open spec fn name_bytes(name: String) -> Seq<u8> {
    encode_utf8(name@)
}

/// Whether `a` comes before `b` or equals it, comparing from index `from` on
/// byte by byte, a proper prefix first.
pub open spec fn bytes_le_from(a: Seq<u8>, b: Seq<u8>, from: int) -> bool
    decreases a.len() - from,
{
    if from < 0 || from >= a.len() {
        true
    } else if from >= b.len() {
        false
    } else if a[from] != b[from] {
        a[from] < b[from]
    } else {
        bytes_le_from(a, b, from + 1)
    }
}

/// Whether `a` comes before `b` or equals it.
pub open spec fn bytes_le(a: Seq<u8>, b: Seq<u8>) -> bool {
    bytes_le_from(a, b, 0)
}

/// `order` with `k` put behind the last index whose name does not come after
/// the name of `k`.
pub open spec fn insert_by_name(names: Seq<Seq<u8>>, order: Seq<usize>, k: usize) -> Seq<usize>
    decreases order.len(),
{
    if order.len() == 0 {
        seq![k]
    } else if bytes_le(names[order.last() as int], names[k as int]) {
        order.push(k)
    } else {
        insert_by_name(names, order.drop_last(), k).push(order.last())
    }
}

/// The first `n` indices in the order of their names; indices of equal names
/// keep their order.
pub open spec fn order_by_name(names: Seq<Seq<u8>>, n: nat) -> Seq<usize>
    decreases n,
{
    if n == 0 {
        Seq::empty()
    } else {
        insert_by_name(names, order_by_name(names, (n - 1) as nat), (n - 1) as usize)
    }
}

/// Whether name `a` comes before name `b` or equals it.
pub fn name_le(a: &str, b: &str) -> (le: bool)
    ensures
        le == bytes_le(a.spec_bytes(), b.spec_bytes()),
{
    let x = a.as_bytes();
    let y = b.as_bytes();
    let mut i: usize = 0;
    while i < x.len()
        invariant
            i <= x@.len(),
            x@ == a.spec_bytes(),
            y@ == b.spec_bytes(),
            bytes_le(x@, y@) == bytes_le_from(x@, y@, i as int),
        decreases x@.len() - i,
    {
        if i >= y.len() {
            return false;
        }
        if x[i] != y[i] {
            return x[i] < y[i];
        }
        i = i + 1;
    }
    true
}

/// Whether two names are the same.
pub fn name_eq(a: &str, b: &str) -> (eq: bool)
    ensures
        eq == (a.spec_bytes() == b.spec_bytes()),
{
    let x = a.as_bytes();
    let y = b.as_bytes();
    if x.len() != y.len() {
        return false;
    }
    let mut i: usize = 0;
    while i < x.len()
        invariant
            i <= x@.len(),
            x@ == a.spec_bytes(),
            y@ == b.spec_bytes(),
            x@.len() == y@.len(),
            x@.take(i as int) == y@.take(i as int),
        decreases x@.len() - i,
    {
        if x[i] != y[i] {
            return false;
        }
        assert(x@.take(i + 1) == x@.take(i as int).push(x@[i as int]));
        assert(y@.take(i + 1) == y@.take(i as int).push(y@[i as int]));
        i = i + 1;
    }
    assert(x@.take(x@.len() as int) == x@);
    assert(y@.take(y@.len() as int) == y@);
    true
}

/// Putting an index in by name puts it at the place behind which every name
/// comes after its own, and before which the name does not.
pub proof fn lemma_insert_position(names: Seq<Seq<u8>>, order: Seq<usize>, k: usize, p: int)
    requires
        0 <= p <= order.len(),
        forall|j: int| p <= j < order.len() ==> !bytes_le(names[order[j] as int], names[k as int]),
        p > 0 ==> bytes_le(names[order[p - 1] as int], names[k as int]),
    ensures
        insert_by_name(names, order, k) == order.insert(p, k),
    decreases order.len(),
{
    if order.len() == 0 {
        assert(order.insert(p, k) == seq![k]);
    } else if p == order.len() {
        assert(order.insert(p, k) == order.push(k));
    } else {
        lemma_insert_position(names, order.drop_last(), k, p);
        assert(order.drop_last().insert(p, k).push(order.last()) == order.insert(p, k));
    }
}


/// Comparing from an index on is the same for sequences that agree from
/// there on.
proof fn lemma_le_refl_from(a: Seq<u8>, from: int)
    ensures
        bytes_le_from(a, a, from),
    decreases a.len() - from,
{
    if 0 <= from < a.len() {
        lemma_le_refl_from(a, from + 1);
    }
}

proof fn lemma_le_total_from(a: Seq<u8>, b: Seq<u8>, from: int)
    requires
        0 <= from,
    ensures
        bytes_le_from(a, b, from) || bytes_le_from(b, a, from),
    decreases a.len() - from,
{
    if from < a.len() && from < b.len() && a[from] == b[from] {
        lemma_le_total_from(a, b, from + 1);
    }
}

proof fn lemma_le_antisym_from(a: Seq<u8>, b: Seq<u8>, from: int)
    requires
        0 <= from,
        bytes_le_from(a, b, from),
        bytes_le_from(b, a, from),
        from <= a.len(),
        from <= b.len(),
        a.take(from) == b.take(from),
    ensures
        a == b,
    decreases a.len() - from,
{
    if from < a.len() && from < b.len() {
        assert(a.take(from + 1) == a.take(from).push(a[from]));
        assert(b.take(from + 1) == b.take(from).push(b[from]));
        lemma_le_antisym_from(a, b, from + 1);
    } else {
        assert(a.take(a.len() as int) == a);
        assert(b.take(b.len() as int) == b);
    }
}

proof fn lemma_le_trans_from(a: Seq<u8>, b: Seq<u8>, c: Seq<u8>, from: int)
    requires
        0 <= from,
        bytes_le_from(a, b, from),
        bytes_le_from(b, c, from),
    ensures
        bytes_le_from(a, c, from),
    decreases a.len() - from,
{
    if from < a.len() && from < b.len() && from < c.len() && a[from] == b[from] && b[from]
        == c[from] {
        lemma_le_trans_from(a, b, c, from + 1);
    }
}

/// The order of names is a total order: every name comes before itself, of
/// two names one comes before the other, two names that come before each
/// other are the same, and coming before is transitive.
pub proof fn lemma_bytes_le_is_total_order(a: Seq<u8>, b: Seq<u8>, c: Seq<u8>)
    ensures
        bytes_le(a, a),
        bytes_le(a, b) || bytes_le(b, a),
        bytes_le(a, b) && bytes_le(b, a) ==> a == b,
        bytes_le(a, b) && bytes_le(b, c) ==> bytes_le(a, c),
{
    lemma_le_refl_from(a, 0);
    lemma_le_total_from(a, b, 0);
    if bytes_le(a, b) && bytes_le(b, a) {
        assert(a.take(0) == b.take(0));
        lemma_le_antisym_from(a, b, 0);
    }
    if bytes_le(a, b) && bytes_le(b, c) {
        lemma_le_trans_from(a, b, c, 0);
    }
}

/// Whether the names at the indices of `order` come in order.
pub open spec fn in_order(names: Seq<Seq<u8>>, order: Seq<usize>) -> bool {
    forall|i: int, j: int|
        0 <= i < j < order.len() ==> bytes_le(
            names[(#[trigger] order[i]) as int],
            names[(#[trigger] order[j]) as int],
        )
}

/// Putting an index in by name keeps the order, adds the index and nothing
/// else, and repeats no index.
pub proof fn lemma_insert_in_order(names: Seq<Seq<u8>>, order: Seq<usize>, k: usize)
    requires
        in_order(names, order),
    ensures
        insert_by_name(names, order, k).len() == order.len() + 1,
        in_order(names, insert_by_name(names, order, k)),
        forall|x: usize|
            #![trigger insert_by_name(names, order, k).contains(x)]
            #![trigger order.contains(x)]
            insert_by_name(names, order, k).contains(x) <==> order.contains(x) || x == k,
        order.no_duplicates() && !order.contains(k) ==> insert_by_name(
            names,
            order,
            k,
        ).no_duplicates(),
    decreases order.len(),
{
    let r = insert_by_name(names, order, k);
    if order.len() == 0 {
        assert(r == seq![k]);
        assert forall|x: usize| r.contains(x) <==> order.contains(x) || x == k by {
            if x == k {
                assert(r[0] == k);
            }
        }
    } else if bytes_le(names[order.last() as int], names[k as int]) {
        assert(r == order.push(k));
        assert forall|i: int, j: int| 0 <= i < j < r.len() implies bytes_le(
            names[(#[trigger] r[i]) as int],
            names[(#[trigger] r[j]) as int],
        ) by {
            if j == order.len() {
                if i < order.len() - 1 {
                    assert(bytes_le(names[order[i] as int], names[order[order.len() - 1] as int]));
                    lemma_bytes_le_is_total_order(
                        names[order[i] as int],
                        names[order.last() as int],
                        names[k as int],
                    );
                }
            } else {
                assert(bytes_le(names[order[i] as int], names[order[j] as int]));
            }
        }
        assert forall|x: usize| r.contains(x) <==> order.contains(x) || x == k by {
            if order.contains(x) {
                let i = choose|i: int| 0 <= i < order.len() && order[i] == x;
                assert(r[i] == x);
            }
            if x == k {
                assert(r[order.len() as int] == k);
            }
        }
    } else {
        let front = order.drop_last();
        let last = order.last();
        let r0 = insert_by_name(names, front, k);
        assert(in_order(names, front)) by {
            assert forall|i: int, j: int| 0 <= i < j < front.len() implies bytes_le(
                names[(#[trigger] front[i]) as int],
                names[(#[trigger] front[j]) as int],
            ) by {
                assert(bytes_le(names[order[i] as int], names[order[j] as int]));
            }
        }
        lemma_insert_in_order(names, front, k);
        assert(r == r0.push(last));
        lemma_bytes_le_is_total_order(names[last as int], names[k as int], names[k as int]);
        assert forall|i: int, j: int| 0 <= i < j < r.len() implies bytes_le(
            names[(#[trigger] r[i]) as int],
            names[(#[trigger] r[j]) as int],
        ) by {
            if j == r0.len() {
                assert(r0.contains(r0[i]));
                if r0[i] != k {
                    assert(front.contains(r0[i]));
                    let at = choose|at: int| 0 <= at < front.len() && front[at] == r0[i];
                    let end = order.len() - 1;
                    assert(order[at] == r0[i]);
                    assert(order[end] == last);
                    assert(bytes_le(names[order[at] as int], names[order[end] as int]));
                }
            } else {
                assert(bytes_le(names[r0[i] as int], names[r0[j] as int]));
            }
        }
        assert forall|x: usize| r.contains(x) <==> order.contains(x) || x == k by {
            if r.contains(x) {
                let i = choose|i: int| 0 <= i < r.len() && r[i] == x;
                if i < r0.len() {
                    assert(r0.contains(x));
                    if x != k {
                        assert(front.contains(x));
                        let at = choose|at: int| 0 <= at < front.len() && front[at] == x;
                        assert(order[at] == x);
                    }
                } else {
                    assert(order[order.len() - 1] == x);
                }
            }
            if order.contains(x) {
                let i = choose|i: int| 0 <= i < order.len() && order[i] == x;
                if i < front.len() {
                    assert(front[i] == x);
                    assert(front.contains(x));
                    assert(r0.contains(x));
                    let at = choose|at: int| 0 <= at < r0.len() && r0[at] == x;
                    assert(r[at] == x);
                } else {
                    assert(r[r0.len() as int] == x);
                }
            }
            if x == k {
                assert(r0.contains(k));
                let at = choose|at: int| 0 <= at < r0.len() && r0[at] == k;
                assert(r[at] == k);
            }
        }
        if order.no_duplicates() && !order.contains(k) {
            assert(front.no_duplicates());
            assert(!front.contains(k)) by {
                if front.contains(k) {
                    let at = choose|at: int| 0 <= at < front.len() && front[at] == k;
                    assert(order[at] == k);
                }
            }
            assert(!r0.contains(last)) by {
                if r0.contains(last) {
                    assert(front.contains(last) || last == k);
                    if front.contains(last) {
                        let at = choose|at: int| 0 <= at < front.len() && front[at] == last;
                        assert(order[at] == order[order.len() - 1]);
                    } else {
                        assert(order[order.len() - 1] == k);
                    }
                }
            }
            assert forall|i: int, j: int| 0 <= i < r.len() && 0 <= j < r.len() && i != j implies r[i]
                != r[j] by {
                if i < r0.len() && j < r0.len() {
                } else if i < r0.len() {
                    assert(r0.contains(r0[i]));
                } else {
                    assert(r0.contains(r0[j]));
                }
            }
        }
    }
}

/// The order of the first `n` names holds each of the first `n` indices
/// once, and the names come in order.
pub proof fn lemma_order_by_name(names: Seq<Seq<u8>>, n: nat)
    requires
        n <= usize::MAX,
    ensures
        order_by_name(names, n).len() == n,
        in_order(names, order_by_name(names, n)),
        order_by_name(names, n).no_duplicates(),
        forall|x: usize| order_by_name(names, n).contains(x) <==> x < n,
    decreases n,
{
    if n > 0 {
        let before = order_by_name(names, (n - 1) as nat);
        let k = (n - 1) as usize;
        lemma_order_by_name(names, (n - 1) as nat);
        assert(!before.contains(k));
        lemma_insert_in_order(names, before, k);
        assert forall|x: usize| order_by_name(names, n).contains(x) <==> x < n by {
            assert(insert_by_name(names, before, k).contains(x) <==> before.contains(x) || x == k);
        }
    } else {
        assert forall|x: usize| order_by_name(names, n).contains(x) <==> x < n by {
            if order_by_name(names, n).contains(x) {
                let i = choose|i: int|
                    0 <= i < order_by_name(names, n).len() && order_by_name(names, n)[i] == x;
            }
        }
    }
}

} // verus!
