//! Which nodes report from which capture points.

use vstd::prelude::*;

use crate::text::{order_texts, Order};

verus! {

/// A node and one of its capture points.
#[derive(Debug, PartialEq, Eq)]
pub struct NodePoint {
    pub node_id: String,
    pub capture_point: String,
}

impl View for NodePoint {
    type V = (Seq<char>, Seq<char>);

    open spec fn view(&self) -> (Seq<char>, Seq<char>) {
        (self.node_id@, self.capture_point@)
    }
}

impl Clone for NodePoint {
    fn clone(&self) -> (r: Self)
        ensures
            r == *self,
    {
        NodePoint { node_id: self.node_id.clone(), capture_point: self.capture_point.clone() }
    }
}

/// The values of entries.
pub open spec fn node_points(entries: Seq<NodePoint>) -> Seq<(Seq<char>, Seq<char>)> {
    Seq::new(entries.len(), |i: int| entries[i]@)
}

/// By node, then by capture point.
pub open spec fn pair_order(a: (Seq<char>, Seq<char>), b: (Seq<char>, Seq<char>)) -> Order {
    crate::text::refine(crate::text::text_order(a.0, b.0), crate::text::text_order(a.1, b.1))
}

/// Pairs that compare the same are equal, and reversing the operands reverses the order.
proof fn pair_order_is_total(a: (Seq<char>, Seq<char>), b: (Seq<char>, Seq<char>))
    ensures
        pair_order(a, b) == Order::Same <==> a == b,
        pair_order(a, b) == Order::Less <==> pair_order(b, a) == Order::Greater,
{
    crate::text::text_order_is_total(a.0, b.0);
    crate::text::text_order_is_total(b.0, a.0);
    crate::text::text_order_is_total(a.1, b.1);
    crate::text::text_order_is_total(b.1, a.1);
}

/// The order of pairs is transitive.
proof fn pair_order_is_transitive(
    a: (Seq<char>, Seq<char>),
    b: (Seq<char>, Seq<char>),
    c: (Seq<char>, Seq<char>),
)
    requires
        pair_order(a, b) == Order::Less,
        pair_order(b, c) == Order::Less,
    ensures
        pair_order(a, c) == Order::Less,
{
    crate::text::text_order_is_total(a.0, b.0);
    crate::text::text_order_is_total(b.0, c.0);
    if a.0 != b.0 && b.0 != c.0 {
        crate::text::text_order_is_transitive(a.0, b.0, c.0);
    } else if a.0 == b.0 && b.0 == c.0 {
        crate::text::text_order_is_transitive(a.1, b.1, c.1);
    }
}

/// Whether `inventory` holds every pair of `pairs` once, in order, and no other.
pub open spec fn is_inventory(
    pairs: Seq<(Seq<char>, Seq<char>)>,
    inventory: Seq<(Seq<char>, Seq<char>)>,
) -> bool {
    &&& forall|i: int, j: int|
        0 <= i < j < inventory.len() ==> pair_order(
            #[trigger] inventory[i],
            #[trigger] inventory[j],
        ) == Order::Less
    &&& forall|i: int| 0 <= i < inventory.len() ==> pairs.contains(#[trigger] inventory[i])
    &&& forall|i: int| 0 <= i < pairs.len() ==> inventory.contains(#[trigger] pairs[i])
}

fn order_pairs(a: &NodePoint, b: &NodePoint) -> (r: Order)
    ensures
        r == pair_order(a@, b@),
{
    let order = order_texts(a.node_id.as_str(), b.node_id.as_str());
    if order == Order::Same {
        order_texts(a.capture_point.as_str(), b.capture_point.as_str())
    } else {
        order
    }
}

/// The entries in order, each once.
pub fn inventory(entries: &Vec<NodePoint>) -> (r: Vec<NodePoint>)
    ensures
        is_inventory(node_points(entries@), node_points(r@)),
{
    let ghost pairs = node_points(entries@);
    let mut r: Vec<NodePoint> = Vec::new();
    let mut i: usize = 0;
    while i < entries.len()
        invariant
            i <= entries.len(),
            pairs == node_points(entries@),
            is_inventory(pairs.take(i as int), node_points(r@)),
        decreases entries.len() - i,
    {
        let ghost done = node_points(r@);
        let ghost new = entries[i as int]@;
        let mut k: usize = r.len();
        let mut known = false;
        while k > 0 && !known && order_pairs(&r[k - 1], &entries[i]) != Order::Less
            invariant
                i < entries.len(),
                new == entries[i as int]@,
                k <= r.len(),
                done == node_points(r@),
                forall|j: int|
                    k <= j < done.len() ==> pair_order(#[trigger] done[j], new) == Order::Greater,
                known ==> k > 0 && done[k - 1] == new,
            decreases k, !known as int,
        {
            proof {
                pair_order_is_total(done[k - 1], new);
                assert(done[k - 1] == r[k - 1]@);
            }
            if order_pairs(&r[k - 1], &entries[i]) == Order::Same {
                known = true;
            } else {
                k -= 1;
            }
        }
        proof {
            assert(pairs.take(i + 1) =~= pairs.take(i as int).push(new));
        }
        if !known {
            proof {
                assert forall|j: int| 0 <= j < k implies pair_order(#[trigger] done[j], new)
                    == Order::Less by {
                    assert(done[k - 1] == r[k - 1]@);
                    if j < k - 1 {
                        assert(pair_order(done[j], done[k - 1]) == Order::Less);
                        pair_order_is_transitive(done[j], done[k - 1], new);
                    }
                }
                inventory_with(pairs.take(i as int), done, k as int, new);
                assert(node_points(r@.insert(k as int, entries@[i as int])) =~= done.insert(
                    k as int,
                    new,
                ));
            }
            r.insert(k, entries[i].clone());
        } else {
            proof {
                inventory_with_known(pairs.take(i as int), done, k - 1, new);
            }
        }
        i += 1;
    }
    assert(pairs.take(i as int) =~= pairs);
    r
}

proof fn inventory_with(
    pairs: Seq<(Seq<char>, Seq<char>)>,
    done: Seq<(Seq<char>, Seq<char>)>,
    k: int,
    new: (Seq<char>, Seq<char>),
)
    requires
        is_inventory(pairs, done),
        0 <= k <= done.len(),
        forall|j: int| 0 <= j < k ==> pair_order(#[trigger] done[j], new) == Order::Less,
        forall|j: int| k <= j < done.len() ==> pair_order(#[trigger] done[j], new) == Order::Greater,
    ensures
        is_inventory(pairs.push(new), done.insert(k, new)),
{
    let more = pairs.push(new);
    let next = done.insert(k, new);
    assert forall|i: int, j: int| 0 <= i < j < next.len() implies pair_order(
        #[trigger] next[i],
        #[trigger] next[j],
    ) == Order::Less by {
        if i == k {
            assert(next[j] == done[j - 1]);
            pair_order_is_total(new, done[j - 1]);
        } else if j == k {
            assert(next[i] == done[i]);
        } else {
            let m = if i < k { i } else { i - 1 };
            let n = if j < k { j } else { j - 1 };
            assert(next[i] == done[m] && next[j] == done[n]);
        }
    }
    assert(more[pairs.len() as int] == new);
    assert forall|i: int| 0 <= i < next.len() implies more.contains(#[trigger] next[i]) by {
        if i != k {
            let m = if i < k { i } else { i - 1 };
            assert(next[i] == done[m]);
            assert(pairs.contains(done[m]));
            let n = choose|n: int| 0 <= n < pairs.len() && pairs[n] == done[m];
            assert(more[n] == next[i]);
        }
    }
    assert forall|i: int| 0 <= i < more.len() implies next.contains(#[trigger] more[i]) by {
        if i < pairs.len() {
            assert(done.contains(pairs[i]));
            let n = choose|n: int| 0 <= n < done.len() && done[n] == pairs[i];
            let m = if n < k { n } else { n + 1 };
            assert(next[m] == more[i]);
        } else {
            assert(next[k] == new);
        }
    }
}

proof fn inventory_with_known(
    pairs: Seq<(Seq<char>, Seq<char>)>,
    done: Seq<(Seq<char>, Seq<char>)>,
    k: int,
    new: (Seq<char>, Seq<char>),
)
    requires
        is_inventory(pairs, done),
        0 <= k < done.len(),
        done[k] == new,
    ensures
        is_inventory(pairs.push(new), done),
{
    let more = pairs.push(new);
    assert forall|i: int| 0 <= i < done.len() implies more.contains(#[trigger] done[i]) by {
        assert(pairs.contains(done[i]));
        let n = choose|n: int| 0 <= n < pairs.len() && pairs[n] == done[i];
        assert(more[n] == done[i]);
    }
    assert forall|i: int| 0 <= i < more.len() implies done.contains(#[trigger] more[i]) by {
        if i < pairs.len() {
            assert(done.contains(pairs[i]));
        }
    }
}

} // verus!
