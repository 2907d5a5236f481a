use vstd::prelude::*;

use crate::path::{NavmeshPathId, NavmeshPathStatus};

verus! {

/// Where a surface is in its bake cycle.
#[derive(Clone, Copy, Debug, PartialEq, Eq, Structural, Default)]
pub enum NavmeshBakeState {
    #[default]
    Empty,
    Dirty,
    Baking,
    Ready,
    Failed,
}

/// Why a surface was marked for a rebuild.
#[derive(Clone, Copy, Debug, PartialEq, Eq, Structural, Default)]
pub enum NavmeshDirtyReason {
    #[default]
    Manual,
    SourceChanged,
    SourceCountChanged,
    MeshChanged,
    LinkChanged,
}

/// The bake-cycle part of a surface's status: its state, whether a rebake is queued behind a
/// running bake, the generation of the published surface and its counts.
#[derive(Clone, Copy, Debug, PartialEq, Eq, Structural)]
pub struct NavmeshBakeLifecycle {
    pub state: NavmeshBakeState,
    pub queued_rebake: bool,
    pub generation: u64,
    pub polygon_count: u32,
    pub portal_count: u32,
    pub link_count: u32,
    pub source_count: u32,
}

/// The request id, status and surface generation of a stored path result.
#[derive(Clone, Copy, Debug, PartialEq, Eq, Structural)]
pub struct NavmeshResultHeader {
    pub request_id: NavmeshPathId,
    pub status: NavmeshPathStatus,
    pub generation: u64,
}

/// What to do with a path request whose result needs an update.
#[derive(Clone, Copy, Debug, PartialEq, Eq, Structural)]
pub enum NavmeshRequestAction {
    /// Query the surface data.
    RunQuery,
    /// Store a pending result until the surface settles.
    Wait,
    /// Store an invalid-surface result.
    InvalidSurface,
}

/// The counts of a freshly baked surface.
#[derive(Clone, Copy, Debug, PartialEq, Eq, Structural)]
pub struct NavmeshBakeCounts {
    pub polygon_count: u32,
    pub portal_count: u32,
    pub link_count: u32,
}

impl Default for NavmeshBakeLifecycle {
    fn default() -> (lifecycle: Self)
        ensures
            lifecycle == NavmeshBakeLifecycle::initial(),
    {
        NavmeshBakeLifecycle {
            state: NavmeshBakeState::Dirty,
            queued_rebake: false,
            generation: 0,
            polygon_count: 0,
            portal_count: 0,
            link_count: 0,
            source_count: 0,
        }
    }
}

impl NavmeshBakeLifecycle {
    /// A new surface: dirty, never baked.
    pub open spec fn initial() -> Self {
        NavmeshBakeLifecycle {
            state: NavmeshBakeState::Dirty,
            queued_rebake: false,
            generation: 0,
            polygon_count: 0,
            portal_count: 0,
            link_count: 0,
            source_count: 0,
        }
    }

    /// Marking dirty while a bake runs queues a rebake behind it; otherwise the surface is dirty.
    pub open spec fn marked_dirty(self) -> Self {
        if self.state == NavmeshBakeState::Baking {
            NavmeshBakeLifecycle { queued_rebake: true, ..self }
        } else {
            NavmeshBakeLifecycle { state: NavmeshBakeState::Dirty, ..self }
        }
    }

    /// A bake is wanted: the surface is dirty or has a queued rebake.
    pub open spec fn wants_bake(self) -> bool {
        self.state == NavmeshBakeState::Dirty || self.queued_rebake
    }

    /// Starting a bake consumes the queued rebake.
    pub open spec fn began_bake(self) -> Self {
        NavmeshBakeLifecycle { state: NavmeshBakeState::Baking, queued_rebake: false, ..self }
    }

    /// Publishing a baked surface: its generation and counts; ready, or dirty again when a
    /// rebake was queued meanwhile.
    pub open spec fn finished_success(
        self,
        generation: u64,
        counts: NavmeshBakeCounts,
        source_count: u32,
    ) -> Self {
        NavmeshBakeLifecycle {
            state: if self.queued_rebake {
                NavmeshBakeState::Dirty
            } else {
                NavmeshBakeState::Ready
            },
            generation,
            polygon_count: counts.polygon_count,
            portal_count: counts.portal_count,
            link_count: counts.link_count,
            source_count,
            ..self
        }
    }

    /// A failed bake keeps the published surface: failed, or dirty again when a rebake was
    /// queued meanwhile.
    pub open spec fn finished_failure(self, source_count: u32) -> Self {
        NavmeshBakeLifecycle {
            state: if self.queued_rebake {
                NavmeshBakeState::Dirty
            } else {
                NavmeshBakeState::Failed
            },
            source_count,
            ..self
        }
    }

    /// Queries run against the published surface once no bake is pending or running.
    pub open spec fn serves_queries(self) -> bool {
        self.state == NavmeshBakeState::Ready || self.state == NavmeshBakeState::Failed
    }

    /// A stored result is out of date: the surface is not settled or has another generation.
    pub open spec fn result_outdated(self, result_generation: u64) -> bool {
        !self.serves_queries() || result_generation != self.generation
    }

    /// A stored result must be reset to pending: it is out of date and not already pending.
    pub open spec fn invalidates(self, result: NavmeshResultHeader) -> bool {
        self.result_outdated(result.generation) && result.status != NavmeshPathStatus::Pending
    }

    /// A request needs a new result: it has none, the stored one answers another request or
    /// another generation, or it is pending.
    pub open spec fn request_wants_update(
        self,
        request_id: NavmeshPathId,
        existing: Option<NavmeshResultHeader>,
    ) -> bool {
        match existing {
            None => true,
            Some(r) => r.request_id != request_id || r.generation != self.generation || r.status
                == NavmeshPathStatus::Pending,
        }
    }

    /// What to do for a request that needs a new result.
    pub open spec fn request_action_spec(self, has_surface_data: bool) -> NavmeshRequestAction {
        if !has_surface_data {
            NavmeshRequestAction::InvalidSurface
        } else if self.serves_queries() {
            NavmeshRequestAction::RunQuery
        } else {
            NavmeshRequestAction::Wait
        }
    }

    /// Marks the surface for a rebuild.
    pub fn mark_dirty(&mut self)
        ensures
            *final(self) == old(self).marked_dirty(),
    {
        match self.state {
            NavmeshBakeState::Baking => {
                self.queued_rebake = true;
            },
            _ => {
                self.state = NavmeshBakeState::Dirty;
            },
        }
    }

    /// Whether an enabled surface must be marked dirty because its number of enabled sources
    /// changed or because it was never baked.
    pub fn sources_require_rebuild(&self, surface_enabled: bool, enabled_sources: u32) -> (rebuild:
        bool)
        ensures
            rebuild == (surface_enabled && (self.source_count != enabled_sources || self.state
                == NavmeshBakeState::Empty)),
    {
        surface_enabled && (self.source_count != enabled_sources || match self.state {
            NavmeshBakeState::Empty => true,
            _ => false,
        })
    }

    /// Whether an enabled surface counts as queued for a bake.
    pub fn is_queued(&self, surface_enabled: bool) -> (queued: bool)
        ensures
            queued == (surface_enabled && self.wants_bake()),
    {
        surface_enabled && (self.queued_rebake || match self.state {
            NavmeshBakeState::Dirty => true,
            _ => false,
        })
    }

    /// Whether a bake starts now: the surface is enabled, has no bake running, wants a bake,
    /// and its debounce delay has elapsed.
    pub fn ready_to_bake(&self, surface_enabled: bool, bake_running: bool, debounce_elapsed: bool) -> (start:
        bool)
        ensures
            start == (surface_enabled && !bake_running && self.wants_bake() && debounce_elapsed),
    {
        surface_enabled && !bake_running && self.is_queued(true) && debounce_elapsed
    }

    /// Starts a bake and returns the generation the baked surface will carry.
    pub fn begin_bake(&mut self) -> (generation: u64)
        requires
            old(self).generation < u64::MAX,
        ensures
            generation == old(self).generation + 1,
            *final(self) == old(self).began_bake(),
    {
        self.state = NavmeshBakeState::Baking;
        self.queued_rebake = false;
        self.generation + 1
    }

    /// Publishes a successful bake. Returns whether a rebake was queued meanwhile (the surface is
    /// dirty again and waits for its debounce delay) rather than ready.
    pub fn finish_bake_success(
        &mut self,
        generation: u64,
        counts: NavmeshBakeCounts,
        source_count: u32,
    ) -> (rebake_queued: bool)
        ensures
            rebake_queued == old(self).queued_rebake,
            *final(self) == old(self).finished_success(generation, counts, source_count),
    {
        self.generation = generation;
        self.polygon_count = counts.polygon_count;
        self.portal_count = counts.portal_count;
        self.link_count = counts.link_count;
        self.source_count = source_count;
        if self.queued_rebake {
            self.state = NavmeshBakeState::Dirty;
        } else {
            self.state = NavmeshBakeState::Ready;
        }
        self.queued_rebake
    }

    /// Records a failed bake.
    pub fn finish_bake_failure(&mut self, source_count: u32)
        ensures
            *final(self) == old(self).finished_failure(source_count),
    {
        self.source_count = source_count;
        if self.queued_rebake {
            self.state = NavmeshBakeState::Dirty;
        } else {
            self.state = NavmeshBakeState::Failed;
        }
    }

    /// Whether queries run against the published surface.
    pub fn serves(&self) -> (serves: bool)
        ensures
            serves == self.serves_queries(),
    {
        match self.state {
            NavmeshBakeState::Ready | NavmeshBakeState::Failed => true,
            _ => false,
        }
    }

    /// Whether a stored result must be reset to pending: it is out of date and not already
    /// pending.
    pub fn should_invalidate(&self, result: NavmeshResultHeader) -> (invalidate: bool)
        ensures
            invalidate == self.invalidates(result),
    {
        let outdated = !self.serves() || result.generation != self.generation;
        let pending = match result.status {
            NavmeshPathStatus::Pending => true,
            _ => false,
        };
        outdated && !pending
    }

    /// Whether a request needs a new result: it has none, the stored one answers another
    /// request or another generation, or it is pending.
    pub fn request_needs_update(&self, request_id: NavmeshPathId, existing: Option<
        NavmeshResultHeader,
    >) -> (update: bool)
        ensures
            update == self.request_wants_update(request_id, existing),
    {
        match existing {
            None => true,
            Some(r) => r.request_id.0 != request_id.0 || r.generation != self.generation || match r.status {
                NavmeshPathStatus::Pending => true,
                _ => false,
            },
        }
    }

    /// What to do for a request that needs a new result, given whether baked surface data exists.
    pub fn request_action(&self, has_surface_data: bool) -> (action: NavmeshRequestAction)
        ensures
            action == self.request_action_spec(has_surface_data),
    {
        if !has_surface_data {
            NavmeshRequestAction::InvalidSurface
        } else if self.serves() {
            NavmeshRequestAction::RunQuery
        } else {
            NavmeshRequestAction::Wait
        }
    }
}

/// A bake started from any state and published without interruption leaves the surface ready,
/// one generation later, with the baked counts.
pub proof fn law_uninterrupted_bake_publishes_next_generation(
    lifecycle: NavmeshBakeLifecycle,
    counts: NavmeshBakeCounts,
    source_count: u32,
)
    requires
        lifecycle.generation < u64::MAX,
    ensures
        ({
            let after = lifecycle.began_bake().finished_success(
                (lifecycle.generation + 1) as u64,
                counts,
                source_count,
            );
            &&& after.state == NavmeshBakeState::Ready
            &&& after.generation == lifecycle.generation + 1
            &&& after.polygon_count == counts.polygon_count
            &&& after.portal_count == counts.portal_count
            &&& after.link_count == counts.link_count
            &&& after.source_count == source_count
            &&& after.serves_queries()
            &&& !after.wants_bake()
        }),
{
}

/// A change during a running bake is not lost: whether that bake succeeds or fails, the surface
/// comes out wanting another bake.
pub proof fn law_changes_during_a_bake_are_rebaked(
    lifecycle: NavmeshBakeLifecycle,
    generation: u64,
    counts: NavmeshBakeCounts,
    source_count: u32,
)
    requires
        lifecycle.state == NavmeshBakeState::Baking,
    ensures
        lifecycle.marked_dirty().finished_success(generation, counts, source_count).wants_bake(),
        lifecycle.marked_dirty().finished_success(generation, counts, source_count).state
            == NavmeshBakeState::Dirty,
        lifecycle.marked_dirty().finished_failure(source_count).wants_bake(),
        lifecycle.marked_dirty().finished_failure(source_count).generation == lifecycle.generation,
{
}

/// Marking a surface dirty always makes it want a bake, and never changes its published
/// generation.
pub proof fn law_marking_dirty_requests_a_bake(lifecycle: NavmeshBakeLifecycle)
    ensures
        lifecycle.marked_dirty().wants_bake(),
        lifecycle.marked_dirty().generation == lifecycle.generation,
        !lifecycle.marked_dirty().serves_queries(),
{
}

/// After a new generation is published, a stored result of another generation is reset to
/// pending (unless it already is), and its request is queried again against the new surface.
pub proof fn law_new_generation_refreshes_results(
    lifecycle: NavmeshBakeLifecycle,
    result: NavmeshResultHeader,
    request_id: NavmeshPathId,
)
    requires
        lifecycle.serves_queries(),
        result.generation != lifecycle.generation,
    ensures
        result.status != NavmeshPathStatus::Pending ==> lifecycle.invalidates(result),
        lifecycle.request_wants_update(
            request_id,
            Some(NavmeshResultHeader { status: NavmeshPathStatus::Pending, ..result }),
        ),
        lifecycle.request_wants_update(request_id, Some(result)),
        lifecycle.request_action_spec(true) == NavmeshRequestAction::RunQuery,
{
}

/// A failed bake keeps the published surface in service: unless a rebake was queued meanwhile,
/// the surface keeps its generation, path requests are answered by querying it, and a stored
/// result of that generation stays current (it is neither reset to pending nor recomputed).
pub proof fn law_failed_bakes_keep_serving_the_published_surface(
    lifecycle: NavmeshBakeLifecycle,
    source_count: u32,
    result: NavmeshResultHeader,
)
    requires
        !lifecycle.queued_rebake,
    ensures
        ({
            let after = lifecycle.finished_failure(source_count);
            &&& after.state == NavmeshBakeState::Failed
            &&& after.generation == lifecycle.generation
            &&& !after.wants_bake()
            &&& after.request_action_spec(true) == NavmeshRequestAction::RunQuery
            &&& after.request_action_spec(false) == NavmeshRequestAction::InvalidSurface
            &&& (result.generation == lifecycle.generation ==> !after.invalidates(result))
            &&& (result.generation == lifecycle.generation && result.status
                != NavmeshPathStatus::Pending ==> !after.request_wants_update(
                result.request_id,
                Some(result),
            ))
        }),
{
}

/// A surface with a bake pending or running holds requests back: dirty, baking, or never baked
/// surfaces answer a request that has surface data with a pending result, and reset stored
/// results that are not already pending.
pub proof fn law_unsettled_surfaces_hold_requests(
    lifecycle: NavmeshBakeLifecycle,
    result: NavmeshResultHeader,
)
    requires
        lifecycle.state == NavmeshBakeState::Dirty || lifecycle.state == NavmeshBakeState::Baking
            || lifecycle.state == NavmeshBakeState::Empty,
    ensures
        lifecycle.request_action_spec(true) == NavmeshRequestAction::Wait,
        result.status != NavmeshPathStatus::Pending ==> lifecycle.invalidates(result),
{
}

/// A published surface answers requests: once a bake has succeeded without a rebake queued,
/// requests are answered by querying it and results of its generation stay current.
pub proof fn law_published_surfaces_answer_requests(
    lifecycle: NavmeshBakeLifecycle,
    generation: u64,
    counts: NavmeshBakeCounts,
    source_count: u32,
    result: NavmeshResultHeader,
)
    requires
        !lifecycle.queued_rebake,
    ensures
        ({
            let after = lifecycle.finished_success(generation, counts, source_count);
            &&& after.request_action_spec(true) == NavmeshRequestAction::RunQuery
            &&& (result.generation == generation ==> !after.invalidates(result))
        }),
{
}

/// A current result (same request, same generation, settled surface, not pending) is neither
/// invalidated nor recomputed.
pub proof fn law_current_results_are_kept(
    lifecycle: NavmeshBakeLifecycle,
    result: NavmeshResultHeader,
)
    requires
        lifecycle.serves_queries(),
        result.generation == lifecycle.generation,
        result.status != NavmeshPathStatus::Pending,
    ensures
        !lifecycle.invalidates(result),
        !lifecycle.request_wants_update(result.request_id, Some(result)),
{
}

} // verus!

verus! {

/// How many of the first `n` entries of `owners` are `owner`.
pub open spec fn owner_count(owners: Seq<u64>, owner: u64, n: int) -> nat
    decreases n,
{
    if n <= 0 {
        0
    } else {
        owner_count(owners, owner, n - 1) + if owners[n - 1] == owner {
            1nat
        } else {
            0nat
        }
    }
}

proof fn lemma_owner_count_bounded(owners: Seq<u64>, owner: u64, n: int)
    requires
        0 <= n,
    ensures
        owner_count(owners, owner, n) <= n,
    decreases n,
{
    if n > 0 {
        lemma_owner_count_bounded(owners, owner, n - 1);
    }
}

/// The count of an owner among the first `n` entries is the number of those entries that are
/// that owner.
pub proof fn law_owner_count_counts_matching_entries(owners: Seq<u64>, owner: u64, n: int)
    requires
        0 <= n <= owners.len(),
    ensures
        owner_count(owners, owner, n) == owners.take(n).filter(|x: u64| x == owner).len(),
    decreases n,
{
    reveal(Seq::filter);
    if n > 0 {
        law_owner_count_counts_matching_entries(owners, owner, n - 1);
        assert(owners.take(n).drop_last() =~= owners.take(n - 1));
        assert(owners.take(n).last() == owners[n - 1]);
    }
}

/// For each surface, identified by its entity bits, the number of enabled sources and links
/// that point at it: one entry of `owners` per source or link. Surfaces no entry points at
/// have no count.
pub fn count_sources_per_surface(owners: &Vec<u64>) -> (counts: std::collections::HashMap<
    u64,
    u32,
>)
    requires
        owners@.len() <= u32::MAX,
    ensures
        forall|surface: u64| #[trigger]
            counts@.contains_key(surface) <==> owner_count(owners@, surface, owners@.len() as int)
                > 0,
        forall|surface: u64|
            #[trigger] counts@.contains_key(surface) ==> counts@[surface] == owner_count(
                owners@,
                surface,
                owners@.len() as int,
            ),
{
    let mut counts: std::collections::HashMap<u64, u32> = std::collections::HashMap::new();
    let mut i: usize = 0;
    while i < owners.len()
        invariant
            i <= owners@.len(),
            owners@.len() <= u32::MAX,
            forall|surface: u64| #[trigger]
                counts@.contains_key(surface) <==> owner_count(owners@, surface, i as int) > 0,
            forall|surface: u64|
                #[trigger] counts@.contains_key(surface) ==> counts@[surface] == owner_count(
                    owners@,
                    surface,
                    i as int,
                ),
        decreases owners@.len() - i,
    {
        let owner = owners[i];
        proof {
            lemma_owner_count_bounded(owners@, owner, i as int);
        }
        let current: u32 = match counts.get(&owner) {
            Some(count) => *count,
            None => 0,
        };
        counts.insert(owner, current + 1);
        assert forall|surface: u64| owner_count(owners@, surface, i + 1) == owner_count(
            owners@,
            surface,
            i as int,
        ) + if surface == owner {
            1nat
        } else {
            0nat
        } by {}
        i += 1;
    }
    counts
}

} // verus!
