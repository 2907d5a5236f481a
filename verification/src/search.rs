use vstd::prelude::*;

use crate::path::{NavmeshPathStatus, NavmeshProjectionPolicy};
use crate::topology::PathEdge;

verus! {

/// How the search first reached a polygon: from which polygon and along which edge.
#[derive(Clone, Copy, Debug, PartialEq, Eq, Structural)]
pub struct PreviousStep {
    pub previous_polygon: u32,
    pub via: PathEdge,
}

/// A polygon corridor and the edges between its consecutive polygons.
#[derive(Debug)]
pub struct SearchCorridor {
    pub polygons: Vec<u32>,
    pub steps: Vec<PathEdge>,
}

/// Every recorded step points back at an existing polygon.
pub open spec fn steps_well_indexed(previous: Seq<Option<PreviousStep>>) -> bool {
    forall|i: int|
        0 <= i < previous.len() && #[trigger] previous[i] is Some ==> previous[i]->0.previous_polygon
            < previous.len()
}

/// Walking back from `p` through the recorded steps reaches a polygon with no recorded step
/// within `fuel` polygons.
pub open spec fn chain_reaches_root(previous: Seq<Option<PreviousStep>>, p: int, fuel: nat) -> bool
    decreases fuel,
{
    if fuel == 0 {
        false
    } else {
        match previous[p] {
            None => true,
            Some(step) => chain_reaches_root(previous, step.previous_polygon as int, (fuel - 1) as nat),
        }
    }
}

/// `polygons` runs from a polygon with no recorded step to `target`, each polygon after the
/// first recorded as reached from the one before it along the matching entry of `steps`.
pub open spec fn is_corridor_to(
    previous: Seq<Option<PreviousStep>>,
    target: u32,
    polygons: Seq<u32>,
    steps: Seq<PathEdge>,
) -> bool {
    &&& polygons.len() == steps.len() + 1
    &&& polygons.last() == target
    &&& previous[polygons[0] as int] is None
    &&& forall|i: int|
        0 <= i < steps.len() ==> previous[#[trigger] polygons[i + 1] as int] == Some(
            PreviousStep { previous_polygon: polygons[i], via: steps[i] },
        )
}

fn reversed<T: Copy>(items: &Vec<T>) -> (out: Vec<T>)
    ensures
        out@ == items@.reverse(),
{
    let mut out: Vec<T> = Vec::new();
    let mut i: usize = items.len();
    while i > 0
        invariant
            i <= items@.len(),
            out@.len() == items@.len() - i,
            forall|j: int| 0 <= j < out@.len() ==> out@[j] == items@[items@.len() - 1 - j],
        decreases i,
    {
        i -= 1;
        out.push(items[i]);
    }
    assert(out@ =~= items@.reverse());
    out
}

/// Rebuilds the corridor that the search recorded for `target` by walking the recorded steps
/// back to the polygon where the search started. `None` when the walk does not end within as
/// many polygons as there are, which only a cycle of recorded steps can cause.
pub fn corridor_from_steps(previous: &Vec<Option<PreviousStep>>, target: u32) -> (corridor: Option<
    SearchCorridor,
>)
    requires
        target < previous@.len(),
        steps_well_indexed(previous@),
    ensures
        corridor is Some <==> chain_reaches_root(previous@, target as int, previous@.len()),
        corridor matches Some(c) ==> is_corridor_to(previous@, target, c.polygons@, c.steps@)
            && c.polygons@.len() <= previous@.len() && forall|i: int|
            0 <= i < c.polygons@.len() ==> #[trigger] c.polygons@[i] < previous@.len(),
{
    let n = previous.len();
    let mut back_polygons: Vec<u32> = Vec::new();
    back_polygons.push(target);
    let mut back_steps: Vec<PathEdge> = Vec::new();
    let mut current = target;
    let mut examined: usize = 0;
    while examined < n
        invariant
            n == previous@.len(),
            steps_well_indexed(previous@),
            examined <= n,
            current < n,
            back_polygons@.len() == examined + 1,
            back_steps@.len() == examined,
            back_polygons@[0] == target,
            back_polygons@.last() == current,
            forall|i: int| 0 <= i < back_polygons@.len() ==> #[trigger] back_polygons@[i] < n,
            forall|i: int|
                0 <= i < examined ==> previous@[#[trigger] back_polygons@[i] as int] == Some(
                    PreviousStep { previous_polygon: back_polygons@[i + 1], via: back_steps@[i] },
                ),
            chain_reaches_root(previous@, target as int, n as nat) == chain_reaches_root(
                previous@,
                current as int,
                (n - examined) as nat,
            ),
        decreases n - examined,
    {
        match previous[current as usize] {
            None => {
                let polygons = reversed(&back_polygons);
                let steps = reversed(&back_steps);
                assert forall|i: int| 0 <= i < steps@.len() implies previous@[#[trigger] polygons@[i
                    + 1] as int] == Some(
                    PreviousStep { previous_polygon: polygons@[i], via: steps@[i] },
                ) by {
                    let j = examined - 1 - i;
                    assert(polygons@[i + 1] == back_polygons@[j]);
                    assert(polygons@[i] == back_polygons@[j + 1]);
                    assert(steps@[i] == back_steps@[j]);
                }
                return Some(SearchCorridor { polygons, steps });
            },
            Some(step) => {
                back_polygons.push(step.previous_polygon);
                back_steps.push(step.via);
                current = step.previous_polygon;
                examined += 1;
            },
        }
    }
    None
}

/// The recorded steps determine the corridor: two corridors to the same target over the same
/// recorded steps are the same polygons along the same steps.
pub proof fn law_recorded_steps_determine_the_corridor(
    previous: Seq<Option<PreviousStep>>,
    target: u32,
    polygons: Seq<u32>,
    steps: Seq<PathEdge>,
    other_polygons: Seq<u32>,
    other_steps: Seq<PathEdge>,
)
    requires
        is_corridor_to(previous, target, polygons, steps),
        is_corridor_to(previous, target, other_polygons, other_steps),
    ensures
        polygons == other_polygons,
        steps == other_steps,
{
    let n = polygons.len() as int;
    let m = other_polygons.len() as int;
    if n < m {
        lemma_corridors_agree_from_the_end(previous, target, polygons, steps, other_polygons, other_steps, n - 1);
        assert(previous[polygons[0] as int] is None);
        let i = m - n - 1;
        assert(previous[other_polygons[i + 1] as int] == Some(
            PreviousStep { previous_polygon: other_polygons[i], via: other_steps[i] },
        ));
        assert(false);
    }
    if m < n {
        lemma_corridors_agree_from_the_end(previous, target, polygons, steps, other_polygons, other_steps, m - 1);
        assert(previous[other_polygons[0] as int] is None);
        let i = n - m - 1;
        assert(previous[polygons[i + 1] as int] == Some(
            PreviousStep { previous_polygon: polygons[i], via: steps[i] },
        ));
        assert(false);
    }
    assert forall|i: int| 0 <= i < n implies #[trigger] polygons[i] == other_polygons[i] by {
        lemma_corridors_agree_from_the_end(previous, target, polygons, steps, other_polygons, other_steps, n - 1 - i);
    }
    assert(polygons =~= other_polygons);
    assert forall|i: int| 0 <= i < steps.len() implies steps[i] == other_steps[i] by {
        assert(previous[polygons[i + 1] as int] == Some(
            PreviousStep { previous_polygon: polygons[i], via: steps[i] },
        ));
        assert(previous[other_polygons[i + 1] as int] == Some(
            PreviousStep { previous_polygon: other_polygons[i], via: other_steps[i] },
        ));
    }
    assert(steps =~= other_steps);
}

/// Two corridors to the same target agree on their last `j + 1` polygons.
proof fn lemma_corridors_agree_from_the_end(
    previous: Seq<Option<PreviousStep>>,
    target: u32,
    polygons: Seq<u32>,
    steps: Seq<PathEdge>,
    other_polygons: Seq<u32>,
    other_steps: Seq<PathEdge>,
    j: int,
)
    requires
        is_corridor_to(previous, target, polygons, steps),
        is_corridor_to(previous, target, other_polygons, other_steps),
        0 <= j < polygons.len(),
        j < other_polygons.len(),
    ensures
        polygons[polygons.len() - 1 - j] == other_polygons[other_polygons.len() - 1 - j],
    decreases j,
{
    let n = polygons.len() as int;
    let m = other_polygons.len() as int;
    if j > 0 {
        lemma_corridors_agree_from_the_end(previous, target, polygons, steps, other_polygons, other_steps, j - 1);
        let i = n - 1 - j;
        let i2 = m - 1 - j;
        assert(previous[polygons[i + 1] as int] == Some(
            PreviousStep { previous_polygon: polygons[i], via: steps[i] },
        ));
        assert(previous[other_polygons[i2 + 1] as int] == Some(
            PreviousStep { previous_polygon: other_polygons[i2], via: other_steps[i2] },
        ));
    }
}

/// Where a path query goes once its endpoints have been projected.
#[derive(Clone, Copy, Debug, PartialEq, Eq, Structural)]
pub enum EndpointOutcome {
    /// The start has no allowed polygon, or is off the mesh while the policy requires it on.
    StartOutside,
    /// The goal has no allowed polygon, or is off the mesh while the policy requires it on.
    GoalOutside,
    /// Both endpoints lie on this polygon: the path is the straight segment between them.
    SamePolygon(u32),
    /// The endpoints lie on different polygons: search from `start` to `goal`.
    Search { start: u32, goal: u32 },
}

/// Decides a path query from its endpoint projections: the polygon each endpoint projects to
/// (if any) and whether the projection moved it farther than the query epsilon.
pub fn classify_endpoints(
    policy: NavmeshProjectionPolicy,
    start_polygon: Option<u32>,
    start_beyond_epsilon: bool,
    goal_polygon: Option<u32>,
    goal_beyond_epsilon: bool,
) -> (outcome: EndpointOutcome)
    ensures
        outcome == (if start_polygon is None || (policy == NavmeshProjectionPolicy::RequireOnMesh
            && start_beyond_epsilon) {
            EndpointOutcome::StartOutside
        } else if goal_polygon is None || (policy == NavmeshProjectionPolicy::RequireOnMesh
            && goal_beyond_epsilon) {
            EndpointOutcome::GoalOutside
        } else if start_polygon->0 == goal_polygon->0 {
            EndpointOutcome::SamePolygon(start_polygon->0)
        } else {
            EndpointOutcome::Search { start: start_polygon->0, goal: goal_polygon->0 }
        }),
{
    let require_on_mesh = match policy {
        NavmeshProjectionPolicy::RequireOnMesh => true,
        NavmeshProjectionPolicy::ProjectToNearest => false,
    };
    let start = match start_polygon {
        None => {
            return EndpointOutcome::StartOutside;
        },
        Some(polygon) => polygon,
    };
    if require_on_mesh && start_beyond_epsilon {
        return EndpointOutcome::StartOutside;
    }
    let goal = match goal_polygon {
        None => {
            return EndpointOutcome::GoalOutside;
        },
        Some(polygon) => polygon,
    };
    if require_on_mesh && goal_beyond_epsilon {
        return EndpointOutcome::GoalOutside;
    }
    if start == goal {
        EndpointOutcome::SamePolygon(start)
    } else {
        EndpointOutcome::Search { start, goal }
    }
}

/// The status of a finished search and the polygon its path ends on: the goal when the search
/// reached it; otherwise the best polygon reached, when partial paths and the nearest-reachable
/// fallback are both enabled; otherwise no path at all.
pub fn search_outcome(
    reached_goal: bool,
    goal_polygon: u32,
    best_partial: u32,
    allow_partial: bool,
    nearest_reachable_fallback: bool,
) -> (outcome: (NavmeshPathStatus, Option<u32>))
    ensures
        outcome == (if reached_goal {
            (NavmeshPathStatus::Success, Some(goal_polygon))
        } else if allow_partial && nearest_reachable_fallback {
            (NavmeshPathStatus::Partial, Some(best_partial))
        } else {
            (NavmeshPathStatus::Unreachable, None)
        }),
{
    if reached_goal {
        (NavmeshPathStatus::Success, Some(goal_polygon))
    } else if allow_partial && nearest_reachable_fallback {
        (NavmeshPathStatus::Partial, Some(best_partial))
    } else {
        (NavmeshPathStatus::Unreachable, None)
    }
}

} // verus!

verus! {

/// Every step the search recorded is a move of the polygon graph: the polygon it reached is a
/// neighbour, along the recorded edge, of the polygon it came from.
pub open spec fn steps_follow_moves(
    topology: crate::topology::NavmeshTopology,
    filter: crate::area::NavmeshFilterMasks,
    previous: Seq<Option<PreviousStep>>,
) -> bool {
    forall|q: int|
        0 <= q < previous.len() && #[trigger] previous[q] is Some ==> topology.neighbor_moves(
            filter,
            previous[q]->0.previous_polygon,
        ).contains(
            crate::topology::NavmeshNeighbor { polygon: q as u32, via: previous[q]->0.via },
        )
}

/// When the search only records graph moves, a rebuilt corridor walks the polygon graph: each
/// polygon is a neighbour of the one before it, along the corridor's step between them.
pub proof fn law_corridor_steps_are_graph_moves(
    topology: crate::topology::NavmeshTopology,
    filter: crate::area::NavmeshFilterMasks,
    previous: Seq<Option<PreviousStep>>,
    target: u32,
    polygons: Seq<u32>,
    steps: Seq<PathEdge>,
)
    requires
        steps_follow_moves(topology, filter, previous),
        is_corridor_to(previous, target, polygons, steps),
        forall|i: int| 0 <= i < polygons.len() ==> #[trigger] polygons[i] < previous.len(),
    ensures
        forall|i: int|
            0 <= i < steps.len() ==> topology.neighbor_moves(filter, #[trigger] polygons[i]).contains(
                crate::topology::NavmeshNeighbor { polygon: polygons[i + 1], via: steps[i] },
            ),
{
    assert forall|i: int| 0 <= i < steps.len() implies topology.neighbor_moves(
        filter,
        #[trigger] polygons[i],
    ).contains(crate::topology::NavmeshNeighbor { polygon: polygons[i + 1], via: steps[i] }) by {
        let q = polygons[i + 1] as int;
        assert(previous[q] == Some(PreviousStep { previous_polygon: polygons[i], via: steps[i] }));
        assert(previous[q] is Some);
        assert(q as u32 == polygons[i + 1]);
    }
}

} // verus!

verus! {

/// The steps recorded after expanding `from` with the first `n` of `moves`: each move flagged
/// as improving records that its polygon was reached from `from` along its edge, later moves
/// overwriting earlier ones; the start polygon never records a step.
pub open spec fn recorded_after(
    previous: Seq<Option<PreviousStep>>,
    from: u32,
    moves: Seq<crate::topology::NavmeshNeighbor>,
    improved: Seq<bool>,
    start: u32,
    n: int,
) -> Seq<Option<PreviousStep>>
    decreases n,
{
    if n <= 0 {
        previous
    } else {
        let before = recorded_after(previous, from, moves, improved, start, n - 1);
        let m = moves[n - 1];
        if improved[n - 1] && m.polygon != start {
            before.update(m.polygon as int, Some(PreviousStep { previous_polygon: from, via: m.via }))
        } else {
            before
        }
    }
}

/// Recording an expansion keeps every improvement: a polygon reached by an improving move (other
/// than the start polygon) records the step from `from` along the last such move, whatever it
/// recorded before; every other polygon keeps its step.
pub proof fn law_recording_keeps_the_last_improvement(
    previous: Seq<Option<PreviousStep>>,
    from: u32,
    moves: Seq<crate::topology::NavmeshNeighbor>,
    improved: Seq<bool>,
    start: u32,
    n: int,
)
    requires
        0 <= n <= moves.len(),
        n <= improved.len(),
        forall|k: int| 0 <= k < n ==> (#[trigger] moves[k]).polygon < previous.len(),
    ensures
        recorded_after(previous, from, moves, improved, start, n).len() == previous.len(),
        forall|k: int|
            #![trigger moves[k]]
            0 <= k < n && improved[k] && moves[k].polygon != start && (forall|later: int|
                k < later < n && improved[later] ==> moves[later].polygon != moves[k].polygon)
                ==> recorded_after(previous, from, moves, improved, start, n)[moves[k].polygon as int]
                == Some(PreviousStep { previous_polygon: from, via: moves[k].via }),
        forall|q: int|
            0 <= q < previous.len() && (q == start || forall|k: int|
                0 <= k < n && improved[k] ==> moves[k].polygon != q) ==> #[trigger] recorded_after(
                previous,
                from,
                moves,
                improved,
                start,
                n,
            )[q] == previous[q],
    decreases n,
{
    if n > 0 {
        law_recording_keeps_the_last_improvement(previous, from, moves, improved, start, n - 1);
        let before = recorded_after(previous, from, moves, improved, start, n - 1);
        let after = recorded_after(previous, from, moves, improved, start, n);
        let m = moves[n - 1];
        assert forall|k: int|
            #![trigger moves[k]]
            0 <= k < n && improved[k] && moves[k].polygon != start && (forall|later: int|
                k < later < n && improved[later] ==> moves[later].polygon != moves[k].polygon)
                implies after[moves[k].polygon as int] == Some(
                PreviousStep { previous_polygon: from, via: moves[k].via },
            ) by {
            if k < n - 1 {
                assert(forall|later: int|
                    k < later < n - 1 && improved[later] ==> moves[later].polygon
                        != moves[k].polygon);
                if improved[n - 1] {
                    assert(m.polygon != moves[k].polygon);
                }
            }
        }
        assert forall|q: int|
            0 <= q < previous.len() && (q == start || forall|k: int|
                0 <= k < n && improved[k] ==> moves[k].polygon != q) implies #[trigger] after[q]
            == previous[q] by {
            if q != start {
                assert(forall|k: int| 0 <= k < n - 1 && improved[k] ==> moves[k].polygon != q);
                if improved[n - 1] {
                    assert(moves[n - 1].polygon != q);
                }
            }
        }
    }
}

/// The steps of a search over one polygon graph and filter: for each polygon, how the search
/// reached it. Only graph moves are recorded, only from the start polygon or from polygons the
/// search has reached, and never into the start polygon.
pub struct NavmeshSearchSteps {
    previous: Vec<Option<PreviousStep>>,
    start: u32,
    masks: crate::area::NavmeshFilterMasks,
    graph: Ghost<crate::topology::NavmeshTopology>,
}

impl NavmeshSearchSteps {
    /// The steps are graph moves of its graph and filter, recorded from the start or from
    /// reached polygons, never into the start polygon.
    pub closed spec fn records_graph_moves(self) -> bool {
        &&& self.previous@.len() == self.graph@.polygons@.len()
        &&& self.graph@.well_indexed()
        &&& self.start < self.previous@.len()
        &&& self.previous@[self.start as int] is None
        &&& steps_well_indexed(self.previous@)
        &&& steps_follow_moves(self.graph@, self.masks, self.previous@)
        &&& forall|q: int|
            0 <= q < self.previous@.len() && #[trigger] self.previous@[q] is Some ==> {
                let source = self.previous@[q]->0.previous_polygon;
                source == self.start || self.previous@[source as int] is Some
            }
    }

    /// For each polygon, the step that reached it, if any.
    pub closed spec fn recorded(self) -> Seq<Option<PreviousStep>> {
        self.previous@
    }

    /// The polygon the search starts from.
    pub closed spec fn start_polygon(self) -> u32 {
        self.start
    }

    /// The polygon graph searched.
    pub closed spec fn graph(self) -> crate::topology::NavmeshTopology {
        self.graph@
    }

    /// The filter of the search.
    pub closed spec fn masks(self) -> crate::area::NavmeshFilterMasks {
        self.masks
    }

    /// A search from `start` that has recorded nothing yet.
    pub fn new(
        topology: &crate::topology::NavmeshTopology,
        masks: crate::area::NavmeshFilterMasks,
        start: u32,
    ) -> (steps: Self)
        requires
            topology.well_indexed(),
            start < topology.polygons@.len(),
        ensures
            steps.graph() == *topology,
            steps.masks() == masks,
            steps.start_polygon() == start,
            steps.recorded() == Seq::new(topology.polygons@.len(), |i: int| None::<PreviousStep>),
            steps.records_graph_moves(),
    {
        let count = topology.polygons.len();
        let mut previous: Vec<Option<PreviousStep>> = Vec::new();
        let mut i: usize = 0;
        while i < count
            invariant
                count == topology.polygons@.len(),
                i <= count,
                previous@ == Seq::new(i as nat, |j: int| None::<PreviousStep>),
            decreases count - i,
        {
            previous.push(None);
            i += 1;
            assert(previous@ =~= Seq::new(i as nat, |j: int| None::<PreviousStep>));
        }
        NavmeshSearchSteps { previous, start, masks, graph: Ghost(*topology) }
    }

    /// Whether the search may expand `polygon`: it is the start or has been reached.
    pub fn is_reached(&self, polygon: u32) -> (reached: bool)
        ensures
            reached == (polygon < self.recorded().len() && (polygon == self.start_polygon()
                || self.recorded()[polygon as int] is Some)),
    {
        if polygon as usize >= self.previous.len() {
            return false;
        }
        polygon == self.start || self.previous[polygon as usize].is_some()
    }

    /// Records the expansion of `from`: for each of its moves (in the order `neighbors` lists
    /// them) that `improved` flags, the polygon it reaches records the step from `from`.
    pub fn record(&mut self, topology: &crate::topology::NavmeshTopology, from: u32, improved: &Vec<bool>)
        requires
            old(self).records_graph_moves(),
            *topology == old(self).graph(),
            from < old(self).recorded().len(),
            from == old(self).start_polygon() || old(self).recorded()[from as int] is Some,
            improved@.len() == old(self).graph().neighbor_moves(old(self).masks(), from).len(),
        ensures
            final(self).records_graph_moves(),
            final(self).graph() == old(self).graph(),
            final(self).masks() == old(self).masks(),
            final(self).start_polygon() == old(self).start_polygon(),
            final(self).recorded() == recorded_after(
                old(self).recorded(),
                from,
                old(self).graph().neighbor_moves(old(self).masks(), from),
                improved@,
                old(self).start_polygon(),
                improved@.len() as int,
            ),
    {
        let moves = topology.neighbors(&self.masks, from);
        let ghost initial = self.previous@;
        let mut i: usize = 0;
        while i < moves.len()
            invariant
                *topology == self.graph@,
                self.start == old(self).start,
                self.masks == old(self).masks,
                self.graph == old(self).graph,
                topology.well_indexed(),
                moves@ == self.graph@.neighbor_moves(self.masks, from),
                improved@.len() == moves@.len(),
                from < self.previous@.len(),
                from == self.start || self.previous@[from as int] is Some,
                i <= moves@.len(),
                self.previous@ == recorded_after(initial, from, moves@, improved@, self.start, i as int),
                self.previous@.len() == self.graph@.polygons@.len(),
                self.graph@.well_indexed(),
                self.start < self.previous@.len(),
                self.previous@[self.start as int] is None,
                steps_well_indexed(self.previous@),
                steps_follow_moves(self.graph@, self.masks, self.previous@),
                forall|q: int|
                    0 <= q < self.previous@.len() && #[trigger] self.previous@[q] is Some ==> {
                        let source = self.previous@[q]->0.previous_polygon;
                        source == self.start || self.previous@[source as int] is Some
                    },
            decreases moves@.len() - i,
        {
            let m = moves[i];
            if improved[i] && m.polygon != self.start {
                proof {
                    assert(moves@.contains(m)) by {
                        assert(moves@[i as int] == m);
                    }
                    crate::topology::law_portal_or_link_move_is_valid(self.graph@, self.masks, from, m);
                }
                let ghost before = self.previous@;
                self.previous.set(m.polygon as usize, Some(PreviousStep { previous_polygon: from, via: m.via }));
                proof {
                    assert forall|q: int|
                        0 <= q < self.previous@.len() && #[trigger] self.previous@[q] is Some implies self.graph@.neighbor_moves(
                        self.masks,
                        self.previous@[q]->0.previous_polygon,
                    ).contains(
                        crate::topology::NavmeshNeighbor {
                            polygon: q as u32,
                            via: self.previous@[q]->0.via,
                        },
                    ) by {
                        if q != m.polygon as int {
                            assert(before[q] is Some);
                        }
                    }
                    assert forall|q: int|
                        0 <= q < self.previous@.len() && #[trigger] self.previous@[q] is Some implies {
                        let source = self.previous@[q]->0.previous_polygon;
                        source == self.start || self.previous@[source as int] is Some
                    } by {
                        if q != m.polygon as int {
                            assert(before[q] is Some);
                        }
                    }
                }
            }
            i += 1;
        }
    }

    /// The corridor the search recorded for `target`: from the polygon where its recorded steps
    /// begin, which is the start polygon whenever the corridor has more than one polygon, along
    /// graph moves to `target`. `None` when the recorded steps loop.
    pub fn corridor(&self, target: u32) -> (corridor: Option<SearchCorridor>)
        requires
            self.records_graph_moves(),
            target < self.recorded().len(),
        ensures
            corridor is Some <==> chain_reaches_root(
                self.recorded(),
                target as int,
                self.recorded().len(),
            ),
            corridor matches Some(c) ==> {
                &&& is_corridor_to(self.recorded(), target, c.polygons@, c.steps@)
                &&& (c.polygons@.len() > 1 ==> c.polygons@[0] == self.start_polygon())
                &&& forall|i: int|
                    0 <= i < c.steps@.len() ==> self.graph().neighbor_moves(
                        self.masks(),
                        #[trigger] c.polygons@[i],
                    ).contains(
                        crate::topology::NavmeshNeighbor {
                            polygon: c.polygons@[i + 1],
                            via: c.steps@[i],
                        },
                    )
            },
    {
        let corridor = corridor_from_steps(&self.previous, target);
        proof {
            if let Some(c) = &corridor {
                law_corridor_steps_are_graph_moves(
                    self.graph@,
                    self.masks,
                    self.previous@,
                    target,
                    c.polygons@,
                    c.steps@,
                );
                if c.polygons@.len() > 1 {
                    let q = c.polygons@[1] as int;
                    assert(self.previous@[q] is Some);
                }
            }
        }
        corridor
    }
}

} // verus!

verus! {

/// A stretch of a corridor up to an off-mesh link: the indices of its portal steps, then the
/// index of the link step that ends it (none for the last stretch).
#[derive(Debug)]
pub struct CorridorLeg {
    pub portal_steps: Vec<usize>,
    pub link_step: Option<usize>,
}

/// The step indices of the first `n` legs, in order: each leg's portal steps, then its link step.
pub open spec fn leg_steps(legs: Seq<CorridorLeg>, n: int) -> Seq<usize>
    decreases n,
{
    if n <= 0 {
        Seq::empty()
    } else {
        let leg = legs[n - 1];
        leg_steps(legs, n - 1) + leg.portal_steps@ + match leg.link_step {
            Some(k) => seq![k],
            None => Seq::empty(),
        }
    }
}

/// Splits a corridor's steps at its off-mesh links: every leg but the last ends with a link
/// step, all other steps cross portals, and the legs list every step once, in order.
pub fn corridor_legs(steps: &Vec<PathEdge>) -> (legs: Vec<CorridorLeg>)
    ensures
        legs@.len() >= 1,
        legs@.last().link_step is None,
        forall|l: int| 0 <= l < legs@.len() - 1 ==> (#[trigger] legs@[l]).link_step is Some,
        forall|l: int, i: int|
            0 <= l < legs@.len() && 0 <= i < legs@[l].portal_steps@.len() ==> steps@[#[trigger] legs@[l].portal_steps@[i] as int] is Portal,
        forall|l: int|
            0 <= l < legs@.len() && (#[trigger] legs@[l]).link_step is Some ==> steps@[legs@[l].link_step->0 as int] is Link,
        leg_steps(legs@, legs@.len() as int) == Seq::new(steps@.len(), |i: int| i as usize),
{
    let mut legs: Vec<CorridorLeg> = Vec::new();
    let mut current: Vec<usize> = Vec::new();
    let mut i: usize = 0;
    while i < steps.len()
        invariant
            i <= steps@.len(),
            forall|l: int| 0 <= l < legs@.len() ==> (#[trigger] legs@[l]).link_step is Some,
            forall|l: int, j: int|
                0 <= l < legs@.len() && 0 <= j < legs@[l].portal_steps@.len() ==> steps@[#[trigger] legs@[l].portal_steps@[j] as int] is Portal,
            forall|l: int|
                0 <= l < legs@.len() && (#[trigger] legs@[l]).link_step is Some ==> steps@[legs@[l].link_step->0 as int] is Link,
            forall|j: int| 0 <= j < current@.len() ==> steps@[#[trigger] current@[j] as int] is Portal,
            leg_steps(legs@, legs@.len() as int) + current@ == Seq::new(i as nat, |j: int| j as usize),
        decreases steps@.len() - i,
    {
        let ghost before_legs = legs@;
        let ghost before_current = current@;
        match steps[i] {
            PathEdge::Portal(_) => {
                current.push(i);
                assert(leg_steps(legs@, legs@.len() as int) + current@ =~= (leg_steps(
                    legs@,
                    legs@.len() as int,
                ) + before_current).push(i));
                assert(leg_steps(legs@, legs@.len() as int) + current@ =~= Seq::new(
                    (i + 1) as nat,
                    |j: int| j as usize,
                ));
            },
            PathEdge::Link { .. } => {
                let mut finished: Vec<usize> = Vec::new();
                std::mem::swap(&mut finished, &mut current);
                legs.push(CorridorLeg { portal_steps: finished, link_step: Some(i) });
                proof {
                    assert(legs@.drop_last() =~= before_legs);
                    lemma_leg_steps_prefix(legs@, before_legs, before_legs.len() as int);
                }
                assert(leg_steps(legs@, legs@.len() as int) =~= Seq::new(
                    (i + 1) as nat,
                    |j: int| j as usize,
                ));
                assert(leg_steps(legs@, legs@.len() as int) + current@ =~= Seq::new(
                    (i + 1) as nat,
                    |j: int| j as usize,
                ));
            },
        }
        i += 1;
    }
    let ghost before_legs = legs@;
    let ghost before_current = current@;
    legs.push(CorridorLeg { portal_steps: current, link_step: None });
    assert(legs@.drop_last() =~= before_legs);
    proof {
        lemma_leg_steps_prefix(legs@, before_legs, before_legs.len() as int);
    }
    assert(leg_steps(legs@, legs@.len() as int) =~= Seq::new(steps@.len(), |j: int| j as usize));
    legs
}

/// `leg_steps` only reads the first `n` legs.
proof fn lemma_leg_steps_prefix(a: Seq<CorridorLeg>, b: Seq<CorridorLeg>, n: int)
    requires
        n <= a.len(),
        n <= b.len(),
        forall|l: int| 0 <= l < n ==> a[l] == b[l],
    ensures
        leg_steps(a, n) == leg_steps(b, n),
    decreases n,
{
    if n > 0 {
        lemma_leg_steps_prefix(a, b, n - 1);
    }
}

} // verus!
