use vstd::prelude::*;

verus! {

use crate::key_order::{edge_keys_totally_ordered, lemma_edge_keys_totally_ordered};

pub use crate::key_order::{EdgeKey, QuantizedPoint};

/// Lexicographic order of quantized points, the order `edge_key` sorts endpoints by.
pub open spec fn point_le(a: QuantizedPoint, b: QuantizedPoint) -> bool {
    a.0 < b.0 || (a.0 == b.0 && a.1 <= b.1)
}

/// The key of the edge between two quantized endpoints: the endpoints in lexicographic order.
pub open spec fn edge_key_of(start: QuantizedPoint, end: QuantizedPoint) -> EdgeKey {
    if point_le(start, end) {
        (start, end)
    } else {
        (end, start)
    }
}

/// The key of the edge between two quantized endpoints, independent of their order.
pub fn edge_key(start: QuantizedPoint, end: QuantizedPoint) -> (key: EdgeKey)
    ensures
        key == edge_key_of(start, end),
{
    if start.0 < end.0 || (start.0 == end.0 && start.1 <= end.1) {
        (start, end)
    } else {
        (end, start)
    }
}

/// Both orientations of an edge give the same key, and only they do: two edges share a key
/// exactly when they join the same two endpoints.
pub proof fn law_edge_key_identifies_undirected_edges(
    a: QuantizedPoint,
    b: QuantizedPoint,
    c: QuantizedPoint,
    d: QuantizedPoint,
)
    ensures
        edge_key_of(a, b) == edge_key_of(b, a),
        edge_key_of(a, b) == edge_key_of(c, d) <==> ((a == c && b == d) || (a == d && b == c)),
{
}

/// How many of the first `n` edge slots carry `key`.
pub open spec fn occurrences(keys: Seq<EdgeKey>, key: EdgeKey, n: int) -> nat
    decreases n,
{
    if n <= 0 {
        0
    } else {
        occurrences(keys, key, n - 1) + if keys[n - 1] == key {
            1nat
        } else {
            0nat
        }
    }
}

/// The last of the first `n` edge slots that carries `key`, or `-1` when none does.
pub open spec fn last_occurrence(keys: Seq<EdgeKey>, key: EdgeKey, n: int) -> int
    decreases n,
{
    if n <= 0 {
        -1
    } else if keys[n - 1] == key {
        n - 1
    } else {
        last_occurrence(keys, key, n - 1)
    }
}

/// The pairs of edge slots, among the first `n`, that share a key: the occurrences of each
/// key are paired in the order they appear (first with second, third with fourth, and so on),
/// and the pairs are listed in the order of their later slot.
pub open spec fn matched_pairs(keys: Seq<EdgeKey>, n: int) -> Seq<(int, int)>
    decreases n,
{
    if n <= 0 {
        Seq::empty()
    } else {
        let j = n - 1;
        matched_pairs(keys, j) + if occurrences(keys, keys[j], j) % 2 == 1 {
            seq![(last_occurrence(keys, keys[j], j), j)]
        } else {
            Seq::empty()
        }
    }
}

pub open spec fn pair_view(pairs: Seq<(usize, usize)>) -> Seq<(int, int)> {
    pairs.map_values(|p: (usize, usize)| (p.0 as int, p.1 as int))
}

/// Pairs the edge slots that share a quantized key, in the order a scan over the slots meets
/// them: the first slot of a key waits until the next slot with that key takes it.
pub fn pair_shared_edges(keys: &Vec<EdgeKey>) -> (pairs: Vec<(usize, usize)>)
    ensures
        pair_view(pairs@) == matched_pairs(keys@, keys@.len() as int),
{
    let mut open: std::collections::BTreeMap<EdgeKey, usize> = std::collections::BTreeMap::new();
    let mut pairs: Vec<(usize, usize)> = Vec::new();
    let mut i: usize = 0;
    proof {
        lemma_edge_keys_totally_ordered();
    }
    while i < keys.len()
        invariant
            i <= keys@.len(),
            edge_keys_totally_ordered(),
            forall|k: EdgeKey| #[trigger]
                open@.contains_key(k) <==> occurrences(keys@, k, i as int) % 2 == 1,
            forall|k: EdgeKey| #[trigger]
                open@.contains_key(k) ==> open@[k] as int == last_occurrence(keys@, k, i as int),
            pair_view(pairs@) == matched_pairs(keys@, i as int),
        decreases keys@.len() - i,
    {
        let key = keys[i];
        assert forall|k: EdgeKey|
            occurrences(keys@, k, i + 1) == occurrences(keys@, k, i as int) + if k == key {
                1nat
            } else {
                0nat
            } && last_occurrence(keys@, k, i + 1) == if k == key {
                i as int
            } else {
                last_occurrence(keys@, k, i as int)
            } by {}
        match open.remove(&key) {
            Some(earlier) => {
                pairs.push((earlier, i));
                assert(pair_view(pairs@) =~= matched_pairs(keys@, i + 1));
            },
            None => {
                open.insert(key, i);
                assert(pair_view(pairs@) =~= matched_pairs(keys@, i + 1));
            },
        }
        i += 1;
    }
    pairs
}

} // verus!

verus! {

/// The portal ids, among the first `n` portals, that touch `polygon`: each portal is listed
/// once for each of its two sides that is `polygon`, in portal order.
pub open spec fn touching(portals: Seq<[u32; 2]>, polygon: int, n: int) -> Seq<u32>
    decreases n,
{
    if n <= 0 {
        Seq::empty()
    } else {
        let k = n - 1;
        touching(portals, polygon, k) + (if portals[k][0] == polygon {
            seq![k as u32]
        } else {
            Seq::empty()
        }) + (if portals[k][1] == polygon {
            seq![k as u32]
        } else {
            Seq::empty()
        })
    }
}

/// Portals between polygons, and for each polygon the ids of the portals that touch it.
pub struct PortalLinks {
    pub portals: Vec<[u32; 2]>,
    pub portal_indices: Vec<Vec<u32>>,
}

/// Turns matched edge slots (three per polygon, polygon `i` owning slots `3 * i .. 3 * i + 2`)
/// into portals: portal `k` joins the polygons of the `k`-th pair, earlier slot first, and each
/// polygon lists the portals that touch it in portal order.
pub fn link_portals(polygon_count: usize, pairs: &Vec<(usize, usize)>) -> (links: PortalLinks)
    requires
        polygon_count <= u32::MAX,
        pairs@.len() <= u32::MAX,
        forall|i: int|
            0 <= i < pairs@.len() ==> #[trigger] pairs@[i].0 < 3 * polygon_count && pairs@[i].1 < 3
                * polygon_count,
    ensures
        links.portals@.len() == pairs@.len(),
        forall|i: int|
            0 <= i < pairs@.len() ==> #[trigger] links.portals@[i][0] == pairs@[i].0 / 3
                && links.portals@[i][1] == pairs@[i].1 / 3,
        links.portal_indices@.len() == polygon_count,
        forall|p: int|
            0 <= p < polygon_count ==> #[trigger] links.portal_indices@[p]@ == touching(
                links.portals@,
                p,
                pairs@.len() as int,
            ),
{
    let mut portal_indices: Vec<Vec<u32>> = Vec::new();
    let mut p: usize = 0;
    while p < polygon_count
        invariant
            p <= polygon_count,
            portal_indices@.len() == p,
            forall|q: int| 0 <= q < p ==> (#[trigger] portal_indices@[q])@ == Seq::<u32>::empty(),
        decreases polygon_count - p,
    {
        portal_indices.push(Vec::new());
        p += 1;
    }
    let mut portals: Vec<[u32; 2]> = Vec::new();
    let mut i: usize = 0;
    while i < pairs.len()
        invariant
            i <= pairs@.len(),
            pairs@.len() <= u32::MAX,
            polygon_count <= u32::MAX,
            forall|j: int|
                0 <= j < pairs@.len() ==> #[trigger] pairs@[j].0 < 3 * polygon_count && pairs@[j].1
                    < 3 * polygon_count,
            portals@.len() == i,
            forall|j: int|
                0 <= j < i ==> #[trigger] portals@[j][0] == pairs@[j].0 / 3 && portals@[j][1]
                    == pairs@[j].1 / 3,
            portal_indices@.len() == polygon_count,
            forall|q: int|
                0 <= q < polygon_count ==> #[trigger] portal_indices@[q]@ == touching(
                    portals@,
                    q,
                    i as int,
                ),
        decreases pairs@.len() - i,
    {
        let (first_slot, second_slot) = pairs[i];
        let first = first_slot / 3;
        let second = second_slot / 3;
        let id = i as u32;
        let ghost old_portals = portals@;
        portals.push([first as u32, second as u32]);
        let ghost before = portal_indices@;
        assert forall|q: int| 0 <= q < polygon_count implies touching(portals@, q, i as int)
            == touching(old_portals, q, i as int) by {
            lemma_touching_prefix(portals@, old_portals, q, i as int);
        }
        portal_indices[first].push(id);
        portal_indices[second].push(id);
        assert forall|q: int| 0 <= q < polygon_count implies #[trigger] portal_indices@[q]@
            == touching(portals@, q, i + 1) by {
            assert(touching(portals@, q, i as int) == before[q]@);
        }
        i += 1;
    }
    PortalLinks { portals, portal_indices }
}

/// `touching` only reads the first `n` portals.
pub proof fn lemma_touching_prefix(a: Seq<[u32; 2]>, b: Seq<[u32; 2]>, polygon: int, n: int)
    requires
        n <= a.len(),
        n <= b.len(),
        forall|k: int| 0 <= k < n ==> a[k] == b[k],
    ensures
        touching(a, polygon, n) == touching(b, polygon, n),
    decreases n,
{
    if n > 0 {
        lemma_touching_prefix(a, b, polygon, n - 1);
    }
}

/// A portal id is listed for a polygon exactly when the portal touches that polygon.
pub proof fn law_touching_lists_exactly_the_adjacent_portals(
    portals: Seq<[u32; 2]>,
    polygon: int,
    n: int,
    k: u32,
)
    requires
        0 <= n <= portals.len(),
        n <= u32::MAX + 1,
    ensures
        touching(portals, polygon, n).contains(k) <==> (k < n && (portals[k as int][0] == polygon
            || portals[k as int][1] == polygon)),
    decreases n,
{
    if n > 0 {
        law_touching_lists_exactly_the_adjacent_portals(portals, polygon, n - 1, k);
        let t = touching(portals, polygon, n - 1);
        let j = n - 1;
        let a: Seq<u32> = if portals[j][0] == polygon {
            seq![j as u32]
        } else {
            Seq::empty()
        };
        let b: Seq<u32> = if portals[j][1] == polygon {
            seq![j as u32]
        } else {
            Seq::empty()
        };
        assert(touching(portals, polygon, n) == t + a + b);
        if touching(portals, polygon, n).contains(k) {
            let idx = choose|idx: int|
                0 <= idx < (t + a + b).len() && (t + a + b)[idx] == k;
            if idx >= t.len() {
                assert(k == j as u32);
            } else {
                assert(t[idx] == k);
            }
        }
        if k < n && (portals[k as int][0] == polygon || portals[k as int][1] == polygon) {
            if k == j {
                if portals[j][0] == polygon {
                    assert((t + a + b)[t.len() as int] == k);
                } else {
                    assert((t + a + b)[(t.len() + a.len()) as int] == k);
                }
            } else {
                let idx = choose|idx: int| 0 <= idx < t.len() && t[idx] == k;
                assert((t + a + b)[idx] == k);
            }
        }
    }
}

} // verus!

verus! {

/// `last_occurrence` is the last slot before `n` with the key, and no slot after it does.
proof fn lemma_last_occurrence(keys: Seq<EdgeKey>, key: EdgeKey, n: int)
    requires
        0 <= n <= keys.len(),
    ensures
        -1 <= last_occurrence(keys, key, n) < n,
        last_occurrence(keys, key, n) >= 0 ==> keys[last_occurrence(keys, key, n)] == key,
        forall|m: int| last_occurrence(keys, key, n) < m < n ==> keys[m] != key,
    decreases n,
{
    if n > 0 {
        lemma_last_occurrence(keys, key, n - 1);
    }
}

/// Slots without the key do not change its count.
proof fn lemma_occurrences_skip(keys: Seq<EdgeKey>, key: EdgeKey, a: int, b: int)
    requires
        0 <= a <= b <= keys.len(),
        forall|m: int| a <= m < b ==> keys[m] != key,
    ensures
        occurrences(keys, key, b) == occurrences(keys, key, a),
    decreases b - a,
{
    if b > a {
        lemma_occurrences_skip(keys, key, a, b - 1);
    }
}

/// What every matched pair satisfies: its slots are ordered and share a key, the earlier slot
/// is the last one with that key before the later slot, and comes after an even number of
/// slots with that key; pairs are listed by increasing later slot.
proof fn lemma_matched_pair_facts(keys: Seq<EdgeKey>, n: int)
    requires
        0 <= n <= keys.len(),
    ensures
        forall|i: int|
            0 <= i < matched_pairs(keys, n).len() ==> {
                let (x, y) = #[trigger] matched_pairs(keys, n)[i];
                &&& 0 <= x < y < n
                &&& keys[x] == keys[y]
                &&& x == last_occurrence(keys, keys[y], y)
                &&& occurrences(keys, keys[y], x) % 2 == 0
                &&& occurrences(keys, keys[y], y) % 2 == 1
            },
        forall|i: int, j: int|
            0 <= i < j < matched_pairs(keys, n).len() ==> matched_pairs(keys, n)[i].1
                < matched_pairs(keys, n)[j].1,
    decreases n,
{
    if n > 0 {
        let j = n - 1;
        lemma_matched_pair_facts(keys, j);
        let prev = matched_pairs(keys, j);
        let k = keys[j];
        if occurrences(keys, k, j) % 2 == 1 {
            let x = last_occurrence(keys, k, j);
            lemma_last_occurrence(keys, k, j);
            if x == -1 {
                lemma_occurrences_skip(keys, k, 0, j);
                assert(false);
            }
            lemma_occurrences_skip(keys, k, x + 1, j);
            let mp = matched_pairs(keys, n);
            assert(mp == prev + seq![(x, j)]);
            assert forall|i: int| 0 <= i < mp.len() implies {
                let (a, b) = #[trigger] mp[i];
                &&& 0 <= a < b < n
                &&& keys[a] == keys[b]
                &&& a == last_occurrence(keys, keys[b], b)
                &&& occurrences(keys, keys[b], a) % 2 == 0
                &&& occurrences(keys, keys[b], b) % 2 == 1
            } by {
                if i < prev.len() {
                    assert(mp[i] == prev[i]);
                }
            }
            assert forall|i: int, i2: int| 0 <= i < i2 < mp.len() implies mp[i].1 < mp[i2].1 by {
                if i2 < prev.len() {
                    assert(mp[i] == prev[i] && mp[i2] == prev[i2]);
                } else {
                    assert(mp[i] == prev[i]);
                }
            }
        } else {
            assert(matched_pairs(keys, n) == prev + Seq::<(int, int)>::empty());
            assert(matched_pairs(keys, n) =~= prev);
        }
    }
}

/// Shared edges are matched one to one: each pair joins two slots with the same key, earlier
/// slot first, and no slot belongs to two pairs; pairs are listed by their later slot.
pub proof fn law_each_edge_joins_at_most_one_pair(keys: Seq<EdgeKey>)
    ensures
        ({
            let mp = matched_pairs(keys, keys.len() as int);
            &&& forall|i: int|
                0 <= i < mp.len() ==> 0 <= (#[trigger] mp[i]).0 < mp[i].1 < keys.len() && keys[mp[i].0]
                    == keys[mp[i].1]
            &&& forall|i: int, j: int|
                0 <= i < j < mp.len() ==> {
                    &&& (#[trigger] mp[i]).1 < (#[trigger] mp[j]).1
                    &&& mp[i].0 != mp[j].0
                    &&& mp[i].0 != mp[j].1
                    &&& mp[i].1 != mp[j].0
                }
        }),
{
    let n = keys.len() as int;
    lemma_matched_pair_facts(keys, n);
    let mp = matched_pairs(keys, n);
    assert forall|i: int, j: int| 0 <= i < j < mp.len() implies {
        &&& (#[trigger] mp[i]).1 < (#[trigger] mp[j]).1
        &&& mp[i].0 != mp[j].0
        &&& mp[i].0 != mp[j].1
        &&& mp[i].1 != mp[j].0
    } by {
        let (xi, yi) = mp[i];
        let (xj, yj) = mp[j];
        let kj = keys[yj];
        lemma_last_occurrence(keys, kj, yj);
        if xi == xj {
            // `yi` would carry the key of `yj` strictly between `xj` and `yj`.
            assert(keys[yi] == kj);
            assert(false);
        }
        if yi == xj {
            assert(occurrences(keys, kj, yi) % 2 == 1);
            assert(false);
        }
    }
}

} // verus!

verus! {

/// Pairs found among the first `m` slots stay pairs, in the same places, among more slots.
proof fn lemma_matched_pairs_prefix(keys: Seq<EdgeKey>, m: int, n: int)
    requires
        0 <= m <= n,
    ensures
        matched_pairs(keys, m).len() <= matched_pairs(keys, n).len(),
        forall|i: int|
            0 <= i < matched_pairs(keys, m).len() ==> #[trigger] matched_pairs(keys, n)[i]
                == matched_pairs(keys, m)[i],
    decreases n - m,
{
    if m < n {
        lemma_matched_pairs_prefix(keys, m, n - 1);
        let j = n - 1;
        let prev = matched_pairs(keys, j);
        if occurrences(keys, keys[j], j) % 2 == 1 {
            assert(matched_pairs(keys, n) == prev + seq![
                (last_occurrence(keys, keys[j], j), j),
            ]);
        } else {
            assert(matched_pairs(keys, n) == prev + Seq::<(int, int)>::empty());
            assert(matched_pairs(keys, n) =~= prev);
        }
    }
}

/// An edge first shared by two slots is paired: when slot `b` is the first slot after slot `a`
/// with the same key, and no slot before `a` has that key, the two slots form a pair.
pub proof fn law_first_shared_edge_is_paired(keys: Seq<EdgeKey>, a: int, b: int)
    requires
        0 <= a < b < keys.len(),
        keys[a] == keys[b],
        forall|m: int| 0 <= m < b && m != a ==> keys[m] != keys[a],
    ensures
        matched_pairs(keys, keys.len() as int).contains((a, b)),
{
    let k = keys[a];
    lemma_occurrences_skip(keys, k, 0, a);
    assert(occurrences(keys, k, 0) == 0);
    assert(occurrences(keys, k, a + 1) == 1);
    lemma_occurrences_skip(keys, k, a + 1, b);
    lemma_last_occurrence(keys, k, b);
    let lo = last_occurrence(keys, k, b);
    if lo < a {
        assert(keys[a] != k);
    }
    if lo > a {
        assert(keys[lo] == k);
    }
    assert(lo == a);
    let upto = matched_pairs(keys, b + 1);
    assert(upto == matched_pairs(keys, b) + seq![(a, b)]);
    let idx = matched_pairs(keys, b).len() as int;
    assert(upto[idx] == (a, b));
    lemma_matched_pairs_prefix(keys, b + 1, keys.len() as int);
    assert(matched_pairs(keys, keys.len() as int)[idx] == (a, b));
}

} // verus!

verus! {

/// The edge slots of polygon `p` used by the first `n` pairs.
pub open spec fn used_slots(pairs: Seq<(int, int)>, p: int, n: int) -> Set<int>
    decreases n,
{
    if n <= 0 {
        Set::empty()
    } else {
        let (a, b) = pairs[n - 1];
        let before = used_slots(pairs, p, n - 1);
        let with_a = if a / 3 == p {
            before.insert(a)
        } else {
            before
        };
        if b / 3 == p {
            with_a.insert(b)
        } else {
            with_a
        }
    }
}

proof fn lemma_used_slots_members(pairs: Seq<(int, int)>, p: int, n: int, x: int)
    requires
        0 <= n <= pairs.len(),
    ensures
        used_slots(pairs, p, n).finite(),
        used_slots(pairs, p, n).contains(x) <==> (x / 3 == p && exists|i: int|
            0 <= i < n && (pairs[i].0 == x || pairs[i].1 == x)),
    decreases n,
{
    if n > 0 {
        lemma_used_slots_members(pairs, p, n - 1, x);
        if used_slots(pairs, p, n).contains(x) && !used_slots(pairs, p, n - 1).contains(x) {
            assert(pairs[n - 1].0 == x || pairs[n - 1].1 == x);
        }
        if x / 3 == p && exists|i: int| 0 <= i < n && (pairs[i].0 == x || pairs[i].1 == x) {
            let i = choose|i: int| 0 <= i < n && (pairs[i].0 == x || pairs[i].1 == x);
            if i < n - 1 {
                assert(used_slots(pairs, p, n - 1).contains(x));
            }
        }
    }
}

/// No edge slot is used twice: the two slots of a pair differ, and two different pairs share
/// no slot.
pub open spec fn slots_disjoint(pairs: Seq<(int, int)>) -> bool {
    &&& forall|i: int| 0 <= i < pairs.len() ==> (#[trigger] pairs[i]).0 != pairs[i].1
    &&& forall|i: int, j: int|
        0 <= i < pairs.len() && 0 <= j < pairs.len() && i != j ==> {
            &&& (#[trigger] pairs[i]).0 != (#[trigger] pairs[j]).0
            &&& pairs[i].0 != pairs[j].1
            &&& pairs[i].1 != pairs[j].0
            &&& pairs[i].1 != pairs[j].1
        }
}

/// The matched pairs use every edge slot at most once.
pub proof fn law_matched_pairs_use_each_slot_once(keys: Seq<EdgeKey>)
    ensures
        slots_disjoint(matched_pairs(keys, keys.len() as int)),
{
    law_each_edge_joins_at_most_one_pair(keys);
    let mp = matched_pairs(keys, keys.len() as int);
    assert forall|i: int, j: int| 0 <= i < mp.len() && 0 <= j < mp.len() && i != j implies {
        &&& (#[trigger] mp[i]).0 != (#[trigger] mp[j]).0
        &&& mp[i].0 != mp[j].1
        &&& mp[i].1 != mp[j].0
        &&& mp[i].1 != mp[j].1
    } by {
        if i < j {
            assert(mp[i].1 < mp[j].1);
        } else {
            assert(mp[j].1 < mp[i].1);
        }
    }
}

/// Keeping only some of the pairs, in order, keeps them disjoint.
pub proof fn law_selected_pairs_stay_disjoint(pairs: Seq<(int, int)>, selected: Seq<int>)
    requires
        slots_disjoint(pairs),
        forall|i: int| 0 <= i < selected.len() ==> 0 <= #[trigger] selected[i] < pairs.len(),
        forall|i: int, j: int| 0 <= i < j < selected.len() ==> selected[i] < selected[j],
    ensures
        slots_disjoint(Seq::new(selected.len(), |i: int| pairs[selected[i]])),
{
    let kept = Seq::new(selected.len(), |i: int| pairs[selected[i]]);
    assert forall|i: int, j: int| 0 <= i < kept.len() && 0 <= j < kept.len() && i != j implies {
        &&& (#[trigger] kept[i]).0 != (#[trigger] kept[j]).0
        &&& kept[i].0 != kept[j].1
        &&& kept[i].1 != kept[j].0
        &&& kept[i].1 != kept[j].1
    } by {
        let si = selected[i];
        let sj = selected[j];
        if i < j {
            assert(si < sj);
        } else {
            assert(sj < si);
        }
        assert(pairs[si] == kept[i] && pairs[sj] == kept[j]);
    }
    assert forall|i: int| 0 <= i < kept.len() implies (#[trigger] kept[i]).0 != kept[i].1 by {
        assert(pairs[selected[i]] == kept[i]);
    }
}

/// Each portal side on polygon `p` uses its own edge slot of `p`, so the portals a polygon
/// lists are as many as the slots they use.
proof fn lemma_touching_counts_used_slots(
    pairs: Seq<(int, int)>,
    portals: Seq<[u32; 2]>,
    p: int,
    n: int,
)
    requires
        0 <= n <= portals.len(),
        portals.len() == pairs.len(),
        slots_disjoint(pairs),
        forall|i: int|
            0 <= i < portals.len() ==> #[trigger] portals[i][0] == pairs[i].0 / 3 && portals[i][1]
                == pairs[i].1 / 3,
    ensures
        touching(portals, p, n).len() == used_slots(pairs, p, n).len(),
    decreases n,
{
    if n > 0 {
        lemma_touching_counts_used_slots(pairs, portals, p, n - 1);
        let (a, b) = pairs[n - 1];
        let before = used_slots(pairs, p, n - 1);
        lemma_used_slots_members(pairs, p, n - 1, a);
        lemma_used_slots_members(pairs, p, n - 1, b);
        assert(!before.contains(a)) by {
            if before.contains(a) {
                let i = choose|i: int| 0 <= i < n - 1 && (pairs[i].0 == a || pairs[i].1 == a);
                assert(pairs[i].0 != pairs[n - 1].0 && pairs[i].1 != pairs[n - 1].0);
            }
        }
        assert(!before.contains(b)) by {
            if before.contains(b) {
                let i = choose|i: int| 0 <= i < n - 1 && (pairs[i].0 == b || pairs[i].1 == b);
                assert(pairs[i].0 != pairs[n - 1].1 && pairs[i].1 != pairs[n - 1].1);
            }
        }
        assert(pairs[n - 1].0 != pairs[n - 1].1);
        let with_a = if a / 3 == p {
            before.insert(a)
        } else {
            before
        };
        assert(!with_a.contains(b));
        let last = n - 1;
        assert(portals[last][0] == pairs[last].0 / 3);
        assert(portals[last][1] == pairs[last].1 / 3);
    }
}

/// Each polygon lists at most three portals when portals join disjoint edge slots (as the
/// matched pairs, and any selection of them, are): a triangle has three edges.
pub proof fn law_polygons_list_at_most_three_portals(
    pairs: Seq<(int, int)>,
    portals: Seq<[u32; 2]>,
    p: int,
)
    requires
        slots_disjoint(pairs),
        portals.len() == pairs.len(),
        forall|i: int|
            0 <= i < portals.len() ==> #[trigger] portals[i][0] == pairs[i].0 / 3 && portals[i][1]
                == pairs[i].1 / 3,
    ensures
        touching(portals, p, portals.len() as int).len() <= 3,
{
    let n = portals.len() as int;
    lemma_touching_counts_used_slots(pairs, portals, p, n);
    let used = used_slots(pairs, p, n);
    let slots = set![3 * p, 3 * p + 1, 3 * p + 2];
    assert forall|x: int| used.contains(x) implies slots.contains(x) by {
        lemma_used_slots_members(pairs, p, n, x);
        assert(x / 3 == p);
        assert(3 * p <= x < 3 * p + 3);
    }
    lemma_used_slots_members(pairs, p, n, 0);
    vstd::set_lib::lemma_len_subset(used, slots);
    assert(slots.len() == 3) by {
        assert(set![3 * p, 3 * p + 1].len() == 2);
    }
}

} // verus!

verus! {

/// The pairs, among the first `n`, whose flag in `keep` is set, in order.
pub open spec fn kept_pairs(pairs: Seq<(int, int)>, keep: Seq<bool>, n: int) -> Seq<(int, int)>
    decreases n,
{
    if n <= 0 {
        Seq::empty()
    } else {
        kept_pairs(pairs, keep, n - 1) + if keep[n - 1] {
            seq![pairs[n - 1]]
        } else {
            Seq::empty()
        }
    }
}

/// The kept pairs are exactly the flagged ones: a pair is kept when some flagged position holds
/// it, and no more pairs are kept than there are positions.
pub proof fn law_kept_pairs_are_the_flagged_pairs(
    pairs: Seq<(int, int)>,
    keep: Seq<bool>,
    n: int,
    x: (int, int),
)
    requires
        0 <= n <= pairs.len(),
        n <= keep.len(),
    ensures
        kept_pairs(pairs, keep, n).len() <= n,
        kept_pairs(pairs, keep, n).contains(x) <==> exists|i: int|
            0 <= i < n && keep[i] && #[trigger] pairs[i] == x,
    decreases n,
{
    if n > 0 {
        law_kept_pairs_are_the_flagged_pairs(pairs, keep, n - 1, x);
        let before = kept_pairs(pairs, keep, n - 1);
        let tail: Seq<(int, int)> = if keep[n - 1] {
            seq![pairs[n - 1]]
        } else {
            Seq::empty()
        };
        let all = kept_pairs(pairs, keep, n);
        assert(all == before + tail);
        if all.contains(x) {
            let idx = choose|idx: int| 0 <= idx < all.len() && all[idx] == x;
            if idx >= before.len() {
                assert(tail[idx - before.len()] == x);
                assert(keep[n - 1] && pairs[n - 1] == x);
            } else {
                assert(before[idx] == x);
            }
        }
        if exists|i: int| 0 <= i < n && keep[i] && #[trigger] pairs[i] == x {
            let i = choose|i: int| 0 <= i < n && keep[i] && #[trigger] pairs[i] == x;
            if i == n - 1 {
                assert(all[before.len() as int] == x);
            } else {
                let idx = choose|idx: int| 0 <= idx < before.len() && before[idx] == x;
                assert(all[idx] == x);
            }
        }
    }
}

/// The portals of a bake: the pairs of edge slots that became portals, in portal order, and the
/// portals they link.
pub struct PortalExtraction {
    pub joined: Vec<(usize, usize)>,
    pub links: PortalLinks,
}

/// Each slot adds at most one pair.
proof fn lemma_matched_pairs_len(keys: Seq<EdgeKey>, n: int)
    requires
        0 <= n,
    ensures
        matched_pairs(keys, n).len() <= n,
    decreases n,
{
    if n > 0 {
        lemma_matched_pairs_len(keys, n - 1);
    }
}

/// Extracts the portals of a bake from the edge keys of its polygons (three slots per polygon,
/// polygon `i` owning slots `3 * i .. 3 * i + 2`) and one flag per matched pair that says
/// whether the pair is kept. Each kept pair becomes a portal, in pair order: it joins two
/// polygons, lower slot's polygon first, along two different slots with the same key; no slot
/// is used twice; both polygons list the portal, every listed id is a portal, and each polygon
/// lists at most three portals.
pub fn extract_portals(polygon_count: usize, keys: &Vec<EdgeKey>, keep: &Vec<bool>) -> (extracted:
    PortalExtraction)
    requires
        keys@.len() == 3 * polygon_count,
        keys@.len() <= u32::MAX,
        keep@.len() == matched_pairs(keys@, keys@.len() as int).len(),
    ensures
        pair_view(extracted.joined@) == kept_pairs(
            matched_pairs(keys@, keys@.len() as int),
            keep@,
            keep@.len() as int,
        ),
        slots_disjoint(pair_view(extracted.joined@)),
        forall|j: int|
            0 <= j < extracted.joined@.len() ==> (#[trigger] extracted.joined@[j]).0
                < extracted.joined@[j].1 < keys@.len() && keys@[extracted.joined@[j].0 as int]
                == keys@[extracted.joined@[j].1 as int],
        extracted.links.portals@.len() == extracted.joined@.len(),
        forall|j: int|
            0 <= j < extracted.joined@.len() ==> #[trigger] extracted.links.portals@[j][0]
                == extracted.joined@[j].0 / 3 && extracted.links.portals@[j][1]
                == extracted.joined@[j].1 / 3,
        forall|j: int|
            0 <= j < extracted.links.portals@.len() ==> #[trigger] extracted.links.portals@[j][0]
                <= extracted.links.portals@[j][1] < polygon_count,
        extracted.links.portal_indices@.len() == polygon_count,
        forall|p: int|
            0 <= p < polygon_count ==> #[trigger] extracted.links.portal_indices@[p]@ == touching(
                extracted.links.portals@,
                p,
                extracted.links.portals@.len() as int,
            ),
        forall|j: int|
            0 <= j < extracted.links.portals@.len() ==> extracted.links.portal_indices@[#[trigger] extracted.links.portals@[j][0] as int]@.contains(
                j as u32,
            ) && extracted.links.portal_indices@[extracted.links.portals@[j][1] as int]@.contains(
                j as u32,
            ),
        forall|p: int, k: int|
            0 <= p < polygon_count && 0 <= k < extracted.links.portal_indices@[p]@.len()
                ==> #[trigger] extracted.links.portal_indices@[p]@[k]
                < extracted.links.portals@.len(),
        forall|p: int|
            0 <= p < polygon_count ==> (#[trigger] extracted.links.portal_indices@[p])@.len() <= 3,
{
    let pairs = pair_shared_edges(keys);
    let ghost mp = matched_pairs(keys@, keys@.len() as int);
    proof {
        law_each_edge_joins_at_most_one_pair(keys@);
        law_matched_pairs_use_each_slot_once(keys@);
        lemma_matched_pairs_len(keys@, keys@.len() as int);
        assert(pairs@.len() == mp.len());
    }
    let mut joined: Vec<(usize, usize)> = Vec::new();
    let ghost mut selected: Seq<int> = Seq::empty();
    let mut i: usize = 0;
    while i < pairs.len()
        invariant
            i <= pairs@.len(),
            pairs@.len() == keep@.len(),
            pair_view(pairs@) == mp,
            pair_view(joined@) == kept_pairs(mp, keep@, i as int),
            joined@.len() == selected.len(),
            joined@.len() <= i,
            forall|k: int|
                0 <= k < selected.len() ==> 0 <= #[trigger] selected[k] < i && joined@[k]
                    == pairs@[selected[k]],
            forall|k: int, l: int| 0 <= k < l < selected.len() ==> selected[k] < selected[l],
        decreases pairs@.len() - i,
    {
        if keep[i] {
            joined.push(pairs[i]);
            proof {
                selected = selected.push(i as int);
                assert(pair_view(pairs@)[i as int] == mp[i as int]);
                assert(pair_view(joined@) =~= kept_pairs(mp, keep@, i + 1));
            }
        } else {
            assert(pair_view(joined@) =~= kept_pairs(mp, keep@, i + 1));
        }
        i += 1;
    }
    proof {
        let chosen = Seq::new(selected.len(), |k: int| mp[selected[k]]);
        assert forall|k: int| 0 <= k < selected.len() implies 0 <= #[trigger] selected[k]
            < mp.len() by {}
        assert(pair_view(joined@) =~= chosen) by {
            assert forall|k: int| 0 <= k < chosen.len() implies pair_view(joined@)[k]
                == chosen[k] by {
                assert(pair_view(pairs@)[selected[k]] == mp[selected[k]]);
            }
        }
        law_selected_pairs_stay_disjoint(mp, selected);
        assert forall|j: int| 0 <= j < joined@.len() implies (#[trigger] joined@[j]).0
            < joined@[j].1 < keys@.len() && keys@[joined@[j].0 as int] == keys@[joined@[j].1
            as int] by {
            let s = selected[j];
            assert(pair_view(pairs@)[s] == mp[s]);
        }
    }
    let links = link_portals(polygon_count, &joined);
    proof {
        let n = links.portals@.len() as int;
        assert forall|j: int| 0 <= j < n implies #[trigger] links.portals@[j][0]
            <= links.portals@[j][1] < polygon_count by {
            let (x, y) = joined@[j];
            assert(x / 3 <= y / 3) by (nonlinear_arith)
                requires
                    x < y,
            ;
            assert(y / 3 < polygon_count) by (nonlinear_arith)
                requires
                    y < 3 * polygon_count,
            ;
        }
        assert forall|j: int| 0 <= j < n implies links.portal_indices@[#[trigger] links.portals@[j][0]
            as int]@.contains(j as u32) && links.portal_indices@[links.portals@[j][1] as int]@.contains(
            j as u32,
        ) by {
            law_touching_lists_exactly_the_adjacent_portals(
                links.portals@,
                links.portals@[j][0] as int,
                n,
                j as u32,
            );
            law_touching_lists_exactly_the_adjacent_portals(
                links.portals@,
                links.portals@[j][1] as int,
                n,
                j as u32,
            );
        }
        assert forall|p: int, k: int|
            0 <= p < polygon_count && 0 <= k < links.portal_indices@[p]@.len() implies #[trigger] links.portal_indices@[p]@[k]
            < n by {
            let x = links.portal_indices@[p]@[k];
            assert(touching(links.portals@, p, n).contains(x));
            law_touching_lists_exactly_the_adjacent_portals(links.portals@, p, n, x);
        }
        assert forall|p: int| 0 <= p < polygon_count implies (#[trigger] links.portal_indices@[p])@.len()
            <= 3 by {
            law_polygons_list_at_most_three_portals(pair_view(joined@), links.portals@, p);
        }
    }
    PortalExtraction { joined, links }
}

} // verus!
