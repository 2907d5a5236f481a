use vstd::prelude::*;

use crate::area::{NavmeshArea, NavmeshAreaMask, NavmeshFilterMasks};

verus! {

/// How a search step moves from one polygon to the next.
#[derive(Clone, Copy, Debug, PartialEq, Eq, Structural)]
pub enum PathEdge {
    /// Through the shared edge with this portal id.
    Portal(u32),
    /// Along the off-mesh link with this index, from its start to its end when `forward`.
    Link { link_index: usize, forward: bool },
}

/// A polygon reachable in one step, and the edge that reaches it.
#[derive(Clone, Copy, Debug, PartialEq, Eq, Structural)]
pub struct NavmeshNeighbor {
    pub polygon: u32,
    pub via: PathEdge,
}

/// The graph part of a baked polygon.
#[derive(Debug)]
pub struct NavmeshPolygonLinks {
    pub area: NavmeshArea,
    pub mask: NavmeshAreaMask,
    pub portal_indices: Vec<u32>,
}

/// The graph part of a baked off-mesh link.
#[derive(Clone, Copy, Debug, PartialEq, Eq, Structural)]
pub struct NavmeshLinkEnds {
    pub from_polygon: u32,
    pub to_polygon: u32,
    pub bidirectional: bool,
    pub mask: NavmeshAreaMask,
}

/// The polygon graph of a baked surface: polygons, the portals between them and the off-mesh
/// links that join them.
#[derive(Debug)]
pub struct NavmeshTopology {
    pub polygons: Vec<NavmeshPolygonLinks>,
    pub portals: Vec<[u32; 2]>,
    pub links: Vec<NavmeshLinkEnds>,
}

/// The side of `portal` that is not `from` (or `from` itself for a portal with both sides on it).
pub open spec fn other_side(portal: [u32; 2], from: u32) -> u32 {
    if portal[0] == from {
        portal[1]
    } else {
        portal[0]
    }
}

/// The polygon on the far side of `portal` when crossing it from `from`.
pub fn portal_other_side(portal: [u32; 2], from: u32) -> (next: u32)
    ensures
        next == other_side(portal, from),
{
    if portal[0] == from {
        portal[1]
    } else {
        portal[0]
    }
}

/// The values held by the present entries of `s`, in order.
pub open spec fn present_values<A>(s: Seq<Option<A>>) -> Seq<A>
    decreases s.len(),
{
    if s.len() == 0 {
        Seq::empty()
    } else {
        present_values(s.drop_last()) + match s.last() {
            Some(a) => seq![a],
            None => Seq::empty(),
        }
    }
}

pub proof fn lemma_present_values_push<A>(s: Seq<Option<A>>, x: Option<A>)
    ensures
        present_values(s.push(x)) == present_values(s) + match x {
            Some(a) => seq![a],
            None => Seq::<A>::empty(),
        },
{
    assert(s.push(x).drop_last() =~= s);
}

/// A value is present exactly when some entry holds it.
pub proof fn lemma_present_values_contains<A>(s: Seq<Option<A>>, a: A)
    ensures
        present_values(s).contains(a) <==> exists|i: int| 0 <= i < s.len() && s[i] == Some(a),
    decreases s.len(),
{
    if s.len() > 0 {
        let t = s.drop_last();
        lemma_present_values_contains(t, a);
        let tail: Seq<A> = match s.last() {
            Some(b) => seq![b],
            None => Seq::empty(),
        };
        let r = present_values(t);
        assert(present_values(s) == r + tail);
        if present_values(s).contains(a) {
            let idx = choose|idx: int| 0 <= idx < (r + tail).len() && (r + tail)[idx] == a;
            if idx >= r.len() {
                assert(s[s.len() - 1] == Some(a));
            } else {
                assert(r[idx] == a);
                let i = choose|i: int| 0 <= i < t.len() && t[i] == Some(a);
                assert(s[i] == Some(a));
            }
        }
        if exists|i: int| 0 <= i < s.len() && s[i] == Some(a) {
            let i = choose|i: int| 0 <= i < s.len() && s[i] == Some(a);
            if i == s.len() - 1 {
                assert((r + tail)[r.len() as int] == a);
            } else {
                assert(t[i] == Some(a));
                let idx = choose|idx: int| 0 <= idx < r.len() && r[idx] == a;
                assert((r + tail)[idx] == a);
            }
        }
    }
}

impl NavmeshTopology {
    /// Every stored index points at an existing polygon or portal.
    pub open spec fn well_indexed(&self) -> bool {
        &&& forall|k: int|
            0 <= k < self.portals@.len() ==> #[trigger] self.portals@[k][0] < self.polygons@.len()
                && self.portals@[k][1] < self.polygons@.len()
        &&& forall|l: int|
            0 <= l < self.links@.len() ==> #[trigger] self.links@[l].from_polygon
                < self.polygons@.len() && self.links@[l].to_polygon < self.polygons@.len()
        &&& forall|p: int, i: int|
            0 <= p < self.polygons@.len() && 0 <= i < self.polygons@[p].portal_indices@.len()
                ==> #[trigger] self.polygons@[p].portal_indices@[i] < self.portals@.len()
    }

    /// Each polygon lists exactly the portals that touch it.
    pub open spec fn consistent(&self) -> bool {
        forall|p: int, k: u32|
            0 <= p < self.polygons@.len() ==> (#[trigger] self.polygons@[p].portal_indices@.contains(
                k,
            ) <==> (k < self.portals@.len() && (self.portals@[k as int][0] == p
                || self.portals@[k as int][1] == p)))
    }

    /// The step from `from` through portal `k`, when the filter allows the polygon beyond it.
    pub open spec fn portal_move(&self, filter: NavmeshFilterMasks, from: u32, k: u32) -> Option<
        NavmeshNeighbor,
    > {
        let next = other_side(self.portals@[k as int], from);
        if filter.allows_area_spec(self.polygons@[next as int].mask) {
            Some(NavmeshNeighbor { polygon: next, via: PathEdge::Portal(k) })
        } else {
            None
        }
    }

    /// The step from `from` along link `l`: forward from its start polygon, or backward from
    /// its end polygon when it is bidirectional, when the filter allows the link and the polygon
    /// it leads to.
    pub open spec fn link_move(&self, filter: NavmeshFilterMasks, from: u32, l: int) -> Option<
        NavmeshNeighbor,
    > {
        let link = self.links@[l];
        let (matches, next) = if link.from_polygon == from {
            (true, link.to_polygon)
        } else if link.bidirectional && link.to_polygon == from {
            (true, link.from_polygon)
        } else {
            (false, 0u32)
        };
        if matches && filter.allows_link_spec(link.mask) && filter.allows_area_spec(
            self.polygons@[next as int].mask,
        ) {
            Some(
                NavmeshNeighbor {
                    polygon: next,
                    via: PathEdge::Link { link_index: l as usize, forward: link.from_polygon == from },
                },
            )
        } else {
            None
        }
    }

    /// The portal steps out of `from` through the first `n` portals it lists.
    pub open spec fn portal_moves(&self, filter: NavmeshFilterMasks, from: u32, n: int) -> Seq<
        NavmeshNeighbor,
    > {
        present_values(
            self.polygons@[from as int].portal_indices@.take(n).map_values(
                |k: u32| self.portal_move(filter, from, k),
            ),
        )
    }

    /// The link steps out of `from` along the first `n` links.
    pub open spec fn link_moves(&self, filter: NavmeshFilterMasks, from: u32, n: int) -> Seq<
        NavmeshNeighbor,
    > {
        present_values(Seq::new(n as nat, |l: int| self.link_move(filter, from, l)))
    }

    /// Every step out of `from`: portal steps in the polygon's portal order, then link steps in
    /// link order.
    pub open spec fn neighbor_moves(&self, filter: NavmeshFilterMasks, from: u32) -> Seq<
        NavmeshNeighbor,
    > {
        self.portal_moves(filter, from, self.polygons@[from as int].portal_indices@.len() as int)
            + self.link_moves(filter, from, self.links@.len() as int)
    }

    /// The polygons a search may expand to from `from`, in the order it considers them.
    pub fn neighbors(&self, filter: &NavmeshFilterMasks, from: u32) -> (moves: Vec<NavmeshNeighbor>)
        requires
            self.well_indexed(),
            from < self.polygons@.len(),
        ensures
            moves@ == self.neighbor_moves(*filter, from),
    {
        let list = &self.polygons[from as usize].portal_indices;
        let mut moves: Vec<NavmeshNeighbor> = Vec::new();
        let mut i: usize = 0;
        while i < list.len()
            invariant
                self.well_indexed(),
                from < self.polygons@.len(),
                *list == self.polygons@[from as int].portal_indices,
                i <= list@.len(),
                moves@ == self.portal_moves(*filter, from, i as int),
            decreases list@.len() - i,
        {
            let k = list[i];
            let portal = self.portals[k as usize];
            let next = portal_other_side(portal, from);
            let ghost f = |k: u32| self.portal_move(*filter, from, k);
            assert(list@.take(i + 1).map_values(f) =~= list@.take(i as int).map_values(f).push(
                f(k),
            ));
            proof {
                lemma_present_values_push(list@.take(i as int).map_values(f), f(k));
            }
            if filter.allows_area(self.polygons[next as usize].mask) {
                moves.push(NavmeshNeighbor { polygon: next, via: PathEdge::Portal(k) });
            }
            i += 1;
        }
        assert(list@.take(list@.len() as int) =~= list@);
        let ghost portal_part = moves@;
        let mut l: usize = 0;
        while l < self.links.len()
            invariant
                self.well_indexed(),
                from < self.polygons@.len(),
                l <= self.links@.len(),
                portal_part == self.portal_moves(
                    *filter,
                    from,
                    self.polygons@[from as int].portal_indices@.len() as int,
                ),
                moves@ == portal_part + self.link_moves(*filter, from, l as int),
            decreases self.links@.len() - l,
        {
            let link = self.links[l];
            let ghost g = |j: int| self.link_move(*filter, from, j);
            assert(Seq::new((l + 1) as nat, g) =~= Seq::new(l as nat, g).push(g(l as int)));
            proof {
                lemma_present_values_push(Seq::new(l as nat, g), g(l as int));
            }
            let (matches, next) = if link.from_polygon == from {
                (true, link.to_polygon)
            } else if link.bidirectional && link.to_polygon == from {
                (true, link.from_polygon)
            } else {
                (false, 0u32)
            };
            if matches && filter.allows_link(link.mask) {
                if filter.allows_area(self.polygons[next as usize].mask) {
                    moves.push(
                        NavmeshNeighbor {
                            polygon: next,
                            via: PathEdge::Link { link_index: l, forward: link.from_polygon == from },
                        },
                    );
                }
            }
            assert(moves@ == portal_part + self.link_moves(*filter, from, l + 1));
            l += 1;
        }
        moves
    }
}

/// Portals can be crossed both ways: when a portal step leads from `from` to `to`, and the
/// filter allows `from`, the same portal leads back from `to` to `from`.
pub proof fn law_portal_moves_are_symmetric(
    topology: NavmeshTopology,
    filter: NavmeshFilterMasks,
    from: u32,
    to: u32,
    k: u32,
)
    requires
        topology.well_indexed(),
        topology.consistent(),
        from < topology.polygons@.len(),
        topology.neighbor_moves(filter, from).contains(
            NavmeshNeighbor { polygon: to, via: PathEdge::Portal(k) },
        ),
        filter.allows_area_spec(topology.polygons@[from as int].mask),
    ensures
        to < topology.polygons@.len(),
        filter.allows_area_spec(topology.polygons@[to as int].mask),
        topology.neighbor_moves(filter, to).contains(
            NavmeshNeighbor { polygon: from, via: PathEdge::Portal(k) },
        ),
{
    let there = NavmeshNeighbor { polygon: to, via: PathEdge::Portal(k) };
    let back = NavmeshNeighbor { polygon: from, via: PathEdge::Portal(k) };
    let list_from = topology.polygons@[from as int].portal_indices@;
    let fa = |j: u32| topology.portal_move(filter, from, j);
    let ga = |l: int| topology.link_move(filter, from, l);
    let pa = list_from.take(list_from.len() as int).map_values(fa);
    let la = Seq::new(topology.links@.len() as nat, ga);
    assert(list_from.take(list_from.len() as int) =~= list_from);
    let pp = present_values(pa);
    let lp = present_values(la);
    assert(topology.neighbor_moves(filter, from) == pp + lp);
    let idx = choose|idx: int| 0 <= idx < (pp + lp).len() && (pp + lp)[idx] == there;
    if idx >= pp.len() {
        assert(lp[idx - pp.len()] == there);
        assert(lp.contains(there));
        lemma_present_values_contains(la, there);
        let l = choose|l: int| 0 <= l < la.len() && la[l] == Some(there);
        assert(false);
    }
    assert(pp[idx] == there);
    lemma_present_values_contains(pa, there);
    let i = choose|i: int| 0 <= i < pa.len() && pa[i] == Some(there);
    assert(list_from[i] == k);
    assert(list_from.contains(k));
    let portal = topology.portals@[k as int];
    assert(k < topology.portals@.len());
    assert(portal[0] == from || portal[1] == from);
    assert(to == other_side(portal, from));
    assert(other_side(portal, to) == from);
    assert(portal[0] == to || portal[1] == to);
    let list_to = topology.polygons@[to as int].portal_indices@;
    assert(list_to.contains(k));
    let j = choose|j: int| 0 <= j < list_to.len() && list_to[j] == k;
    let fb = |x: u32| topology.portal_move(filter, to, x);
    let gb = |l: int| topology.link_move(filter, to, l);
    let pb = list_to.take(list_to.len() as int).map_values(fb);
    let lb = Seq::new(topology.links@.len() as nat, gb);
    assert(list_to.take(list_to.len() as int) =~= list_to);
    assert(pb[j] == Some(back));
    lemma_present_values_contains(pb, back);
    let qp = present_values(pb);
    let ql = present_values(lb);
    assert(topology.neighbor_moves(filter, to) == qp + ql);
    let m = choose|m: int| 0 <= m < qp.len() && qp[m] == back;
    assert((qp + ql)[m] == back);
}

/// Every off-mesh link that can be taken from `from` is offered, whatever other links leave
/// `from`: a link starting at `from` (forward), or a bidirectional link ending at `from`
/// (backward), whose mask the filter allows and whose far polygon's area the filter allows,
/// yields the step along it to that polygon.
pub proof fn law_allowed_links_are_offered(
    topology: NavmeshTopology,
    filter: NavmeshFilterMasks,
    from: u32,
    l: int,
)
    requires
        topology.well_indexed(),
        from < topology.polygons@.len(),
        0 <= l < topology.links@.len(),
        ({
            let link = topology.links@[l];
            let next = if link.from_polygon == from {
                link.to_polygon
            } else {
                link.from_polygon
            };
            &&& link.from_polygon == from || (link.bidirectional && link.to_polygon == from)
            &&& filter.allows_link_spec(link.mask)
            &&& filter.allows_area_spec(topology.polygons@[next as int].mask)
        }),
    ensures
        ({
            let link = topology.links@[l];
            let next = if link.from_polygon == from {
                link.to_polygon
            } else {
                link.from_polygon
            };
            topology.neighbor_moves(filter, from).contains(
                NavmeshNeighbor {
                    polygon: next,
                    via: PathEdge::Link { link_index: l as usize, forward: link.from_polygon == from },
                },
            )
        }),
{
    let link = topology.links@[l];
    let next = if link.from_polygon == from {
        link.to_polygon
    } else {
        link.from_polygon
    };
    let step = NavmeshNeighbor {
        polygon: next,
        via: PathEdge::Link { link_index: l as usize, forward: link.from_polygon == from },
    };
    let list_from = topology.polygons@[from as int].portal_indices@;
    let fa = |j: u32| topology.portal_move(filter, from, j);
    let ga = |j: int| topology.link_move(filter, from, j);
    let pa = list_from.take(list_from.len() as int).map_values(fa);
    let la = Seq::new(topology.links@.len() as nat, ga);
    let pp = present_values(pa);
    let lp = present_values(la);
    assert(topology.neighbor_moves(filter, from) == pp + lp);
    assert(la[l] == Some(step));
    lemma_present_values_contains(la, step);
    let idx = choose|idx: int| 0 <= idx < lp.len() && lp[idx] == step;
    assert((pp + lp)[pp.len() + idx] == step);
}

/// Every portal `from` lists is offered when the filter allows the polygon on its far side:
/// the step through it reaches that polygon.
pub proof fn law_allowed_portals_are_offered(
    topology: NavmeshTopology,
    filter: NavmeshFilterMasks,
    from: u32,
    i: int,
)
    requires
        topology.well_indexed(),
        from < topology.polygons@.len(),
        0 <= i < topology.polygons@[from as int].portal_indices@.len(),
        ({
            let k = topology.polygons@[from as int].portal_indices@[i];
            let portal = topology.portals@[k as int];
            let next = if portal[0] == from {
                portal[1]
            } else {
                portal[0]
            };
            filter.allows_area_spec(topology.polygons@[next as int].mask)
        }),
    ensures
        ({
            let k = topology.polygons@[from as int].portal_indices@[i];
            let portal = topology.portals@[k as int];
            let next = if portal[0] == from {
                portal[1]
            } else {
                portal[0]
            };
            topology.neighbor_moves(filter, from).contains(
                NavmeshNeighbor { polygon: next, via: PathEdge::Portal(k) },
            )
        }),
{
    let list_from = topology.polygons@[from as int].portal_indices@;
    let k = list_from[i];
    let portal = topology.portals@[k as int];
    let next = if portal[0] == from {
        portal[1]
    } else {
        portal[0]
    };
    let step = NavmeshNeighbor { polygon: next, via: PathEdge::Portal(k) };
    let fa = |j: u32| topology.portal_move(filter, from, j);
    let ga = |j: int| topology.link_move(filter, from, j);
    let pa = list_from.take(list_from.len() as int).map_values(fa);
    let la = Seq::new(topology.links@.len() as nat, ga);
    let pp = present_values(pa);
    let lp = present_values(la);
    assert(topology.neighbor_moves(filter, from) == pp + lp);
    assert(pa[i] == Some(step));
    lemma_present_values_contains(pa, step);
    let idx = choose|idx: int| 0 <= idx < pp.len() && pp[idx] == step;
    assert((pp + lp)[idx] == step);
}

/// Off-mesh links are only followed the way they allow: forward from their start polygon, or
/// backward from their end polygon when bidirectional, and only when the filter allows both
/// the link and the polygon it leads to.
pub proof fn law_link_moves_follow_link_direction(
    topology: NavmeshTopology,
    filter: NavmeshFilterMasks,
    from: u32,
    step: NavmeshNeighbor,
)
    requires
        topology.well_indexed(),
        from < topology.polygons@.len(),
        topology.links@.len() <= usize::MAX,
        topology.neighbor_moves(filter, from).contains(step),
        step.via is Link,
    ensures
        ({
            let l = step.via->link_index as int;
            let link = topology.links@[l];
            &&& 0 <= l < topology.links@.len()
            &&& filter.allows_link_spec(link.mask)
            &&& step.polygon < topology.polygons@.len()
            &&& filter.allows_area_spec(topology.polygons@[step.polygon as int].mask)
            &&& if step.via->forward {
                link.from_polygon == from && link.to_polygon == step.polygon
            } else {
                link.bidirectional && link.to_polygon == from && link.from_polygon == step.polygon
            }
        }),
{
    let list_from = topology.polygons@[from as int].portal_indices@;
    let fa = |j: u32| topology.portal_move(filter, from, j);
    let ga = |l: int| topology.link_move(filter, from, l);
    let pa = list_from.take(list_from.len() as int).map_values(fa);
    let la = Seq::new(topology.links@.len() as nat, ga);
    let pp = present_values(pa);
    let lp = present_values(la);
    assert(topology.neighbor_moves(filter, from) == pp + lp);
    let idx = choose|idx: int| 0 <= idx < (pp + lp).len() && (pp + lp)[idx] == step;
    if idx < pp.len() {
        assert(pp[idx] == step);
        lemma_present_values_contains(pa, step);
        let i = choose|i: int| 0 <= i < pa.len() && pa[i] == Some(step);
        assert(false);
    }
    assert(lp[idx - pp.len()] == step);
    lemma_present_values_contains(la, step);
    let l = choose|l: int| 0 <= l < la.len() && la[l] == Some(step);
    assert(la[l] == topology.link_move(filter, from, l));
    assert(step.via->link_index as int == l);
    let link = topology.links@[l];
    assert(link.from_polygon < topology.polygons@.len() && link.to_polygon < topology.polygons@.len());
}

} // verus!

verus! {

/// A topology whose polygons list, for each polygon, the portals that touch it in portal
/// order (the lists `link_portals` builds) is consistent: each polygon lists exactly the
/// portals that touch it, and every listed id names a portal.
pub proof fn law_linked_portal_lists_are_consistent(topology: NavmeshTopology)
    requires
        topology.portals@.len() <= u32::MAX,
        forall|p: int|
            0 <= p < topology.polygons@.len() ==> #[trigger] topology.polygons@[p].portal_indices@
                == crate::portals::touching(topology.portals@, p, topology.portals@.len() as int),
    ensures
        topology.consistent(),
        forall|p: int, i: int|
            0 <= p < topology.polygons@.len() && 0 <= i
                < topology.polygons@[p].portal_indices@.len() ==> #[trigger] topology.polygons@[p].portal_indices@[i]
                < topology.portals@.len(),
{
    let n = topology.portals@.len() as int;
    assert forall|p: int, k: u32| 0 <= p < topology.polygons@.len() implies (
    #[trigger] topology.polygons@[p].portal_indices@.contains(k) <==> (k < n && (
    topology.portals@[k as int][0] == p || topology.portals@[k as int][1] == p))) by {
        crate::portals::law_touching_lists_exactly_the_adjacent_portals(topology.portals@, p, n, k);
    }
    assert forall|p: int, i: int|
        0 <= p < topology.polygons@.len() && 0 <= i
            < topology.polygons@[p].portal_indices@.len() implies #[trigger] topology.polygons@[p].portal_indices@[i]
        < n by {
        let k = topology.polygons@[p].portal_indices@[i];
        assert(topology.polygons@[p].portal_indices@.contains(k));
        crate::portals::law_touching_lists_exactly_the_adjacent_portals(topology.portals@, p, n, k);
    }
}

} // verus!

verus! {

/// Every step out of `from` stays in the graph: it leads to an existing polygon through an
/// existing portal or link.
pub proof fn law_portal_or_link_move_is_valid(
    topology: NavmeshTopology,
    filter: NavmeshFilterMasks,
    from: u32,
    step: NavmeshNeighbor,
)
    requires
        topology.well_indexed(),
        from < topology.polygons@.len(),
        topology.neighbor_moves(filter, from).contains(step),
    ensures
        step.polygon < topology.polygons@.len(),
        filter.allows_area_spec(topology.polygons@[step.polygon as int].mask),
{
    let list_from = topology.polygons@[from as int].portal_indices@;
    let fa = |j: u32| topology.portal_move(filter, from, j);
    let ga = |l: int| topology.link_move(filter, from, l);
    let pa = list_from.take(list_from.len() as int).map_values(fa);
    let la = Seq::new(topology.links@.len() as nat, ga);
    let pp = present_values(pa);
    let lp = present_values(la);
    assert(topology.neighbor_moves(filter, from) == pp + lp);
    let idx = choose|idx: int| 0 <= idx < (pp + lp).len() && (pp + lp)[idx] == step;
    if idx < pp.len() {
        assert(pp[idx] == step);
        lemma_present_values_contains(pa, step);
        let i = choose|i: int| 0 <= i < pa.len() && pa[i] == Some(step);
        assert(list_from.take(list_from.len() as int)[i] == list_from[i]);
        let k = list_from[i];
        assert(k < topology.portals@.len());
    } else {
        assert(lp[idx - pp.len()] == step);
        lemma_present_values_contains(la, step);
        let l = choose|l: int| 0 <= l < la.len() && la[l] == Some(step);
        assert(la[l] == topology.link_move(filter, from, l));
    }
}

} // verus!
