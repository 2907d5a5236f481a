use vstd::prelude::*;

verus! {

/// Every vertex index of `indices` is below `vertex_count`.
pub open spec fn indices_within(indices: Seq<[u32; 3]>, vertex_count: nat) -> bool {
    forall|t: int, c: int|
        0 <= t < indices.len() && 0 <= c < 3 ==> (#[trigger] indices[t][c]) < vertex_count
}

/// Triangles of a quad over its four corners.
pub fn quad_triangle_indices() -> (indices: Vec<[u32; 3]>)
    ensures
        indices@ == seq![[0u32, 1, 2], [0u32, 2, 3]],
        indices_within(indices@, 4),
{
    let indices = vec![[0u32, 1, 2], [0u32, 2, 3]];
    assert(indices@ =~= seq![[0u32, 1, 2], [0u32, 2, 3]]);
    indices
}

/// Triangles of a box over its eight corners (bottom four, then top four).
pub fn cuboid_triangle_indices() -> (indices: Vec<[u32; 3]>)
    ensures
        indices@ == seq![
            [0u32, 2, 1],
            [0u32, 3, 2],
            [4u32, 5, 6],
            [4u32, 6, 7],
            [0u32, 1, 5],
            [0u32, 5, 4],
            [1u32, 2, 6],
            [1u32, 6, 5],
            [2u32, 3, 7],
            [2u32, 7, 6],
            [3u32, 0, 4],
            [3u32, 4, 7],
        ],
        indices_within(indices@, 8),
{
    let indices = vec![
        [0u32, 2, 1],
        [0u32, 3, 2],
        [4u32, 5, 6],
        [4u32, 6, 7],
        [0u32, 1, 5],
        [0u32, 5, 4],
        [1u32, 2, 6],
        [1u32, 6, 5],
        [2u32, 3, 7],
        [2u32, 7, 6],
        [3u32, 0, 4],
        [3u32, 4, 7],
    ];
    assert(indices@ =~= seq![
        [0u32, 2, 1],
        [0u32, 3, 2],
        [4u32, 5, 6],
        [4u32, 6, 7],
        [0u32, 1, 5],
        [0u32, 5, 4],
        [1u32, 2, 6],
        [1u32, 6, 5],
        [2u32, 3, 7],
        [2u32, 7, 6],
        [3u32, 0, 4],
        [3u32, 4, 7],
    ]);
    indices
}

/// Triangles of a ramp over its six corners (bottom four, then the two raised ones).
pub fn ramp_triangle_indices() -> (indices: Vec<[u32; 3]>)
    ensures
        indices@ == seq![
            [0u32, 2, 1],
            [0u32, 3, 2],
            [0u32, 1, 5],
            [0u32, 5, 4],
            [1u32, 2, 5],
            [2u32, 3, 4],
            [2u32, 4, 5],
            [3u32, 0, 4],
        ],
        indices_within(indices@, 6),
{
    let indices = vec![
        [0u32, 2, 1],
        [0u32, 3, 2],
        [0u32, 1, 5],
        [0u32, 5, 4],
        [1u32, 2, 5],
        [2u32, 3, 4],
        [2u32, 4, 5],
        [3u32, 0, 4],
    ];
    assert(indices@ =~= seq![
        [0u32, 2, 1],
        [0u32, 3, 2],
        [0u32, 1, 5],
        [0u32, 5, 4],
        [1u32, 2, 5],
        [2u32, 3, 4],
        [2u32, 4, 5],
        [3u32, 0, 4],
    ]);
    indices
}

/// The number of rim points of a disc with the requested side count (at least three).
pub open spec fn disc_sides(sides: u8) -> nat {
    if sides < 3 {
        3
    } else {
        sides as nat
    }
}

/// Triangle fan of a disc: vertex 0 is the centre and vertices `1..=s` the rim, with `s` the
/// side count raised to at least three; triangle `i` joins rim points `i + 1` and `i + 2`, and
/// the last one closes the fan from rim point `s` back to rim point 1.
pub fn disc_triangle_indices(sides: u8) -> (indices: Vec<[u32; 3]>)
    ensures
        indices@.len() == disc_sides(sides),
        forall|i: int|
            0 <= i < disc_sides(sides) - 1 ==> #[trigger] indices@[i] == [
                0u32,
                (i + 1) as u32,
                (i + 2) as u32,
            ],
        indices@[disc_sides(sides) - 1] == [0u32, disc_sides(sides) as u32, 1u32],
        indices_within(indices@, disc_sides(sides) + 1),
{
    let count: u32 = if sides < 3 {
        3
    } else {
        sides as u32
    };
    let mut indices: Vec<[u32; 3]> = Vec::new();
    let mut side: u32 = 1;
    while side < count
        invariant
            count == disc_sides(sides),
            1 <= side <= count,
            indices@.len() == side - 1,
            forall|i: int|
                0 <= i < side - 1 ==> #[trigger] indices@[i] == [0u32, (i + 1) as u32, (i + 2) as u32],
        decreases count - side,
    {
        indices.push([0, side, side + 1]);
        side += 1;
    }
    indices.push([0, count, 1]);
    indices
}

/// Triangles of a prism over a convex footprint of `n` points (bottom ring `0..n`, top ring
/// `n..2n`): a fan capping the bottom and one capping the top, then two triangles per side
/// wall. Footprints of fewer than three points give no triangles.
pub open spec fn prism_triangles(n: nat) -> Seq<[u32; 3]> {
    if n < 3 {
        Seq::empty()
    } else {
        let caps = Seq::new(
            (2 * (n - 2)) as nat,
            |t: int|
                {
                    let index = t / 2 + 1;
                    if t % 2 == 0 {
                        [0u32, (index + 1) as u32, index as u32]
                    } else {
                        [n as u32, (n + index) as u32, (n + index + 1) as u32]
                    }
                },
        );
        let walls = Seq::new(
            2 * n,
            |t: int|
                {
                    let index = t / 2;
                    let next = (index + 1) % (n as int);
                    if t % 2 == 0 {
                        [index as u32, next as u32, (n + next) as u32]
                    } else {
                        [index as u32, (n + next) as u32, (n + index) as u32]
                    }
                },
        );
        caps + walls
    }
}

/// Triangles of a prism over a convex footprint of `footprint_len` points.
pub fn prism_triangle_indices(footprint_len: usize) -> (indices: Vec<[u32; 3]>)
    requires
        2 * footprint_len <= u32::MAX,
    ensures
        indices@ == prism_triangles(footprint_len as nat),
        indices_within(indices@, 2 * footprint_len as nat),
{
    let mut indices: Vec<[u32; 3]> = Vec::new();
    if footprint_len < 3 {
        assert(indices@ =~= prism_triangles(footprint_len as nat));
        return indices;
    }
    let n = footprint_len as u32;
    let ghost spec_n = footprint_len as nat;
    let ghost all = prism_triangles(spec_n);
    let mut index: u32 = 1;
    while index < n - 1
        invariant
            n == footprint_len,
            3 <= n,
            2 * n <= u32::MAX,
            all == prism_triangles(n as nat),
            1 <= index <= n - 1,
            indices@.len() == 2 * (index - 1),
            forall|t: int| 0 <= t < indices@.len() ==> #[trigger] indices@[t] == all[t],
        decreases n - 1 - index,
    {
        indices.push([0, index + 1, index]);
        indices.push([n, n + index, n + index + 1]);
        index += 1;
    }
    let caps_len = indices.len();
    let mut wall: u32 = 0;
    while wall < n
        invariant
            n == footprint_len,
            3 <= n,
            2 * n <= u32::MAX,
            all == prism_triangles(n as nat),
            caps_len == 2 * (n - 2),
            wall <= n,
            indices@.len() == caps_len + 2 * wall,
            forall|t: int| 0 <= t < indices@.len() ==> #[trigger] indices@[t] == all[t],
        decreases n - wall,
    {
        let next = (wall + 1) % n;
        indices.push([wall, next, n + next]);
        indices.push([wall, n + next, n + wall]);
        wall += 1;
    }
    assert(indices@ =~= all);
    assert forall|t: int, c: int|
        0 <= t < indices@.len() && 0 <= c < 3 implies (#[trigger] indices@[t][c]) < 2 * n by {
        if t < caps_len {
            let i = t / 2 + 1;
            assert(1 <= i <= n - 2);
        } else {
            let w = (t - caps_len) / 2;
            assert(0 <= w < n);
            let next = (w + 1) % (n as int);
            assert(0 <= next < n);
        }
    }
    indices
}

/// Whether a triangle has `corner` among its three corners.
pub open spec fn has_corner(triangle: [u32; 3], corner: int) -> bool {
    triangle[0] == corner || triangle[1] == corner || triangle[2] == corner
}

/// Whether a triangle has the consecutive ring corners `base + k` and `base + k + 1`.
pub open spec fn has_ring_step(triangle: [u32; 3], base: int, k: int) -> bool {
    has_corner(triangle, base + k) && has_corner(triangle, base + k + 1)
}

/// Some cap triangle of a prism over `n` points has the ring's first corner `base` and its
/// consecutive corners `base + k`, `base + k + 1`.
pub open spec fn cap_covers(n: nat, base: int, k: int) -> bool {
    exists|t: int|
        0 <= t < 2 * (n - 2) && has_corner(prism_triangles(n)[t], base) && #[trigger] has_ring_step(
            prism_triangles(n)[t],
            base,
            k,
        )
}

/// The wall of side `k` of a prism over `n` points: one triangle over corners `k`, the next
/// corner and the one above it, and one over `k`, the corner above the next one and the corner
/// above `k`.
pub open spec fn wall_covers(n: nat, k: int) -> bool {
    let next = (k + 1) % (n as int);
    &&& exists|t: int|
        2 * (n - 2) <= t < prism_triangles(n).len() && has_corner(
            #[trigger] prism_triangles(n)[t],
            k,
        ) && has_corner(prism_triangles(n)[t], next) && has_corner(prism_triangles(n)[t], n + next)
    &&& exists|t: int|
        2 * (n - 2) <= t < prism_triangles(n).len() && has_corner(
            #[trigger] prism_triangles(n)[t],
            k,
        ) && has_corner(prism_triangles(n)[t], n + next) && has_corner(prism_triangles(n)[t], n + k)
}

/// A prism's caps are fans from the footprint's first corner: the first `2 * (n - 2)` triangles
/// are caps, each with the first bottom corner (0) or the first top corner (`n`) and two
/// consecutive corners of the same ring, and every pair of consecutive corners `k, k + 1`
/// (`1 <= k <= n - 2`) of each ring has its cap triangle; so the caps cover the whole convex
/// footprint, top and bottom. Each side `k` of the footprint has two wall triangles over the
/// quad between corners `k`, `k + 1` (wrapping to 0) and the corners above them.
pub proof fn law_prism_caps_fan_from_the_first_corner(n: nat)
    requires
        n >= 3,
        2 * n <= u32::MAX,
    ensures
        prism_triangles(n).len() == 2 * (n - 2) + 2 * n,
        forall|t: int|
            0 <= t < 2 * (n - 2) ==> ({
                let tri = #[trigger] prism_triangles(n)[t];
                (has_corner(tri, 0) && exists|k: int|
                    1 <= k <= n - 2 && #[trigger] has_ring_step(tri, 0, k)) || (has_corner(
                    tri,
                    n as int,
                ) && exists|k: int| 1 <= k <= n - 2 && #[trigger] has_ring_step(tri, n as int, k))
            }),
        forall|k: int| 1 <= k <= n - 2 ==> #[trigger] cap_covers(n, 0, k),
        forall|k: int| 1 <= k <= n - 2 ==> #[trigger] cap_covers(n, n as int, k),
        forall|k: int| 0 <= k < n ==> #[trigger] wall_covers(n, k),
{
    let all = prism_triangles(n);
    let caps = (2 * (n - 2)) as int;
    assert forall|t: int| 0 <= t < caps implies ({
        let tri = #[trigger] all[t];
        (has_corner(tri, 0) && exists|k: int|
            1 <= k <= n - 2 && #[trigger] has_ring_step(tri, 0, k)) || (has_corner(
            tri,
            n as int,
        ) && exists|k: int| 1 <= k <= n - 2 && #[trigger] has_ring_step(tri, n as int, k))
    }) by {
        let index = t / 2 + 1;
        assert(1 <= index <= n - 2);
        if t % 2 == 0 {
            assert(all[t] == [0u32, (index + 1) as u32, index as u32]);
            assert(has_ring_step(all[t], 0, index));
        } else {
            assert(all[t] == [n as u32, (n + index) as u32, (n + index + 1) as u32]);
            assert(has_ring_step(all[t], n as int, index));
        }
    }
    assert forall|k: int| 1 <= k <= n - 2 implies #[trigger] cap_covers(n, 0, k) by {
        let t = 2 * (k - 1);
        assert(t / 2 + 1 == k && t % 2 == 0);
        assert(all[t] == [0u32, (k + 1) as u32, k as u32]);
        assert(has_ring_step(all[t], 0, k));
    }
    assert forall|k: int| 1 <= k <= n - 2 implies #[trigger] cap_covers(n, n as int, k) by {
        let t = 2 * (k - 1) + 1;
        assert(t / 2 + 1 == k && t % 2 == 1);
        assert(all[t] == [n as u32, (n + k) as u32, (n + k + 1) as u32]);
        assert(has_ring_step(all[t], n as int, k));
    }
    assert forall|k: int| 0 <= k < n implies #[trigger] wall_covers(n, k) by {
        let next = (k + 1) % (n as int);
        let t = caps + 2 * k;
        assert((t - caps) / 2 == k && (t - caps) % 2 == 0);
        assert(all[t] == [k as u32, next as u32, (n + next) as u32]);
        let t2 = caps + 2 * k + 1;
        assert((t2 - caps) / 2 == k && (t2 - caps) % 2 == 1);
        assert(all[t2] == [k as u32, (n + next) as u32, (n + k) as u32]);
    }
}

proof fn lemma_group_in_bounds(t: int, len: int)
    requires
        0 <= t < len / 3,
        0 <= len,
    ensures
        3 * t + 2 < len,
{
    assert(3 * t + 2 < len) by (nonlinear_arith)
        requires
            0 <= t < len / 3,
            0 <= len,
    ;
}

/// Groups a flat `u16` index list into triangles, three indices each; a trailing incomplete
/// group is dropped.
pub fn triangles_from_u16_indices(values: &Vec<u16>) -> (triangles: Vec<[u32; 3]>)
    ensures
        triangles@.len() == values@.len() / 3,
        forall|t: int|
            0 <= t < triangles@.len() ==> #[trigger] triangles@[t] == [
                values@[3 * t] as u32,
                values@[3 * t + 1] as u32,
                values@[3 * t + 2] as u32,
            ],
{
    let mut triangles: Vec<[u32; 3]> = Vec::new();
    let count = values.len() / 3;
    let mut t: usize = 0;
    while t < count
        invariant
            count == values@.len() / 3,
            values@.len() <= usize::MAX,
            t <= count,
            triangles@.len() == t,
            forall|j: int|
                0 <= j < t ==> #[trigger] triangles@[j] == [
                    values@[3 * j] as u32,
                    values@[3 * j + 1] as u32,
                    values@[3 * j + 2] as u32,
                ],
        decreases count - t,
    {
        proof {
            lemma_group_in_bounds(t as int, values@.len() as int);
        }
        triangles.push([values[3 * t] as u32, values[3 * t + 1] as u32, values[3 * t + 2] as u32]);
        t += 1;
    }
    triangles
}

/// Groups a flat `u32` index list into triangles, three indices each; a trailing incomplete
/// group is dropped.
pub fn triangles_from_u32_indices(values: &Vec<u32>) -> (triangles: Vec<[u32; 3]>)
    ensures
        triangles@.len() == values@.len() / 3,
        forall|t: int|
            0 <= t < triangles@.len() ==> #[trigger] triangles@[t] == [
                values@[3 * t],
                values@[3 * t + 1],
                values@[3 * t + 2],
            ],
{
    let mut triangles: Vec<[u32; 3]> = Vec::new();
    let count = values.len() / 3;
    let mut t: usize = 0;
    while t < count
        invariant
            count == values@.len() / 3,
            values@.len() <= usize::MAX,
            t <= count,
            triangles@.len() == t,
            forall|j: int|
                0 <= j < t ==> #[trigger] triangles@[j] == [
                    values@[3 * j],
                    values@[3 * j + 1],
                    values@[3 * j + 2],
                ],
        decreases count - t,
    {
        proof {
            lemma_group_in_bounds(t as int, values@.len() as int);
        }
        triangles.push([values[3 * t], values[3 * t + 1], values[3 * t + 2]]);
        t += 1;
    }
    triangles
}

} // verus!
