use vstd::prelude::*;

use crate::lifecycle::NavmeshResultHeader;
use crate::path::{NavmeshPathId, NavmeshPathStatus};

verus! {

/// Whether the follower moves on past waypoint `i`: it is within the waypoint distance of
/// it, or (past the first waypoint) it has overshot the segment ending at it.
pub open spec fn passes_waypoint(close: Seq<bool>, overshot: Seq<bool>, i: int) -> bool {
    close[i] || (i > 0 && overshot[i])
}

/// The waypoint the follower heads for, given for each waypoint whether it is close to it and
/// whether it has overshot the segment ending at it: starting from `waypoint_index` (clamped to
/// the last waypoint), it moves on past every waypoint it passes and stops at the first one it
/// does not pass, or at the last waypoint. An empty path gives 0.
pub fn advance_waypoint_index(
    point_count: usize,
    waypoint_index: usize,
    close: &Vec<bool>,
    overshot: &Vec<bool>,
) -> (next: usize)
    requires
        close@.len() == point_count,
        overshot@.len() == point_count,
    ensures
        point_count == 0 ==> next == 0,
        point_count > 0 ==> {
            let start = if waypoint_index < point_count {
                waypoint_index as int
            } else {
                point_count - 1
            };
            &&& start <= next < point_count
            &&& forall|i: int| start <= i < next ==> passes_waypoint(close@, overshot@, i)
            &&& (next == point_count - 1 || !passes_waypoint(close@, overshot@, next as int))
        },
{
    if point_count == 0 {
        return 0;
    }
    let mut index = if waypoint_index < point_count {
        waypoint_index
    } else {
        point_count - 1
    };
    let ghost start = index as int;
    while index + 1 < point_count && (close[index] || (index > 0 && overshot[index]))
        invariant
            close@.len() == point_count,
            overshot@.len() == point_count,
            point_count > 0,
            start <= index < point_count,
            forall|i: int| start <= i < index ==> passes_waypoint(close@, overshot@, i),
        decreases point_count - index,
    {
        index += 1;
    }
    index
}

/// The follower's bookkeeping: which request it waits for, which path it follows and how far
/// along it is.
#[derive(Clone, Copy, Debug, PartialEq, Eq, Structural)]
pub struct NavmeshFollowProgress {
    pub current_request_id: NavmeshPathId,
    pub active_path_request_id: NavmeshPathId,
    pub active_generation: u64,
    pub waypoint_index: usize,
    pub stale_path: bool,
    pub reached_goal: bool,
    pub has_resolved_target: bool,
}

impl Default for NavmeshFollowProgress {
    fn default() -> (progress: Self)
        ensures
            progress == NavmeshFollowProgress::initial(),
    {
        NavmeshFollowProgress {
            current_request_id: NavmeshPathId(0),
            active_path_request_id: NavmeshPathId(0),
            active_generation: 0,
            waypoint_index: 0,
            stale_path: true,
            reached_goal: false,
            has_resolved_target: false,
        }
    }
}

/// A follower has a usable path: the result answers the request it waits for, found a full or
/// partial path, and that path has points.
pub open spec fn usable_result(
    progress: NavmeshFollowProgress,
    result: NavmeshResultHeader,
    point_count: Option<usize>,
) -> bool {
    &&& result.request_id == progress.current_request_id
    &&& (result.status == NavmeshPathStatus::Success || result.status
        == NavmeshPathStatus::Partial)
    &&& point_count matches Some(n) && n > 0
}

impl NavmeshFollowProgress {
    /// A new follower: no request yet, its (absent) path stale.
    pub open spec fn initial() -> Self {
        NavmeshFollowProgress {
            current_request_id: NavmeshPathId(0),
            active_path_request_id: NavmeshPathId(0),
            active_generation: 0,
            waypoint_index: 0,
            stale_path: true,
            reached_goal: false,
            has_resolved_target: false,
        }
    }

    /// Whether the request it waits for is still pending: the agent carries a request with
    /// that id.
    pub open spec fn request_pending(self, pending_request: Option<NavmeshPathId>) -> bool {
        pending_request matches Some(id) && id == self.current_request_id
    }

    /// Whether the follower asks for a new path now.
    pub open spec fn wants_repath(
        self,
        target_moved: bool,
        pending_request: Option<NavmeshPathId>,
        result: Option<NavmeshResultHeader>,
        surface_generation: u64,
        interval_elapsed: bool,
    ) -> bool {
        let pending = self.request_pending(pending_request);
        let target_changed = !self.has_resolved_target || target_moved;
        let path_missing = result is None && !pending;
        let generation_mismatch = (result matches Some(r) && r.generation != surface_generation)
            && !pending;
        let request_mismatch = result matches Some(r) && r.request_id != self.current_request_id
            && !pending;
        let terminal = (result matches Some(r) && (r.status == NavmeshPathStatus::Unreachable
            || r.status == NavmeshPathStatus::InvalidSurface)) && !pending;
        let stale = self.stale_path && !pending;
        target_changed || path_missing || generation_mismatch || request_mismatch || terminal
            || stale || interval_elapsed || self.current_request_id == NavmeshPathId(0)
    }

    /// The state once a new request has been issued.
    pub open spec fn repathed(self, request_id: NavmeshPathId) -> Self {
        NavmeshFollowProgress {
            current_request_id: request_id,
            stale_path: false,
            reached_goal: false,
            has_resolved_target: true,
            ..self
        }
    }

    /// The state after looking at the stored result: rejected (stale) when there is no usable
    /// result or no surface; otherwise following it, restarting at its second point when it is a
    /// different path than the one followed so far.
    pub open spec fn adopted(
        self,
        result: Option<NavmeshResultHeader>,
        surface_known: bool,
        point_count: Option<usize>,
    ) -> Self {
        match result {
            None => NavmeshFollowProgress { stale_path: true, ..self },
            Some(r) => if !surface_known || !usable_result(self, r, point_count) {
                NavmeshFollowProgress { stale_path: true, ..self }
            } else if self.active_generation != r.generation || self.active_path_request_id
                != r.request_id {
                NavmeshFollowProgress {
                    active_generation: r.generation,
                    active_path_request_id: r.request_id,
                    waypoint_index: if point_count->0 > 1 {
                        1
                    } else {
                        0
                    },
                    ..self
                }
            } else {
                self
            },
        }
    }

    /// The state after a steering step along the path: arrived, or still travelling with the
    /// path stale when it belongs to another generation than the surface.
    pub open spec fn stepped(self, arrived: bool, result_generation: u64, surface_generation: u64) -> Self {
        if arrived {
            NavmeshFollowProgress { reached_goal: true, stale_path: false, ..self }
        } else {
            NavmeshFollowProgress {
                reached_goal: false,
                stale_path: result_generation != surface_generation,
                ..self
            }
        }
    }

    /// Whether the follower asks for a new path now: the target moved or was never resolved, or
    /// (unless the request it waits for is still pending) its result is missing, answers another
    /// request or generation, ended unreachable or on an invalid surface, or its path went stale;
    /// or the repath interval elapsed; or it never issued a request.
    pub fn needs_repath(
        &self,
        target_moved: bool,
        pending_request: Option<NavmeshPathId>,
        result: Option<NavmeshResultHeader>,
        surface_generation: u64,
        interval_elapsed: bool,
    ) -> (repath: bool)
        ensures
            repath == self.wants_repath(
                target_moved,
                pending_request,
                result,
                surface_generation,
                interval_elapsed,
            ),
    {
        let pending = match pending_request {
            Some(id) => id.0 == self.current_request_id.0,
            None => false,
        };
        let target_changed = !self.has_resolved_target || target_moved;
        let (path_missing, generation_mismatch, request_mismatch, terminal) = match result {
            None => (!pending, false, false, false),
            Some(r) => {
                let terminal_status = match r.status {
                    NavmeshPathStatus::Unreachable | NavmeshPathStatus::InvalidSurface => true,
                    _ => false,
                };
                (
                    false,
                    r.generation != surface_generation && !pending,
                    r.request_id.0 != self.current_request_id.0 && !pending,
                    terminal_status && !pending,
                )
            },
        };
        let stale = self.stale_path && !pending;
        target_changed || path_missing || generation_mismatch || request_mismatch || terminal
            || stale || interval_elapsed || self.current_request_id.0 == 0
    }

    /// Records a newly issued request.
    pub fn begin_repath(&mut self, request_id: NavmeshPathId)
        ensures
            *final(self) == old(self).repathed(request_id),
    {
        self.current_request_id = request_id;
        self.stale_path = false;
        self.reached_goal = false;
        self.has_resolved_target = true;
    }

    /// Looks at the stored result (its header, whether the surface exists, and the number of
    /// points of its path) and returns whether the follower steers along it.
    pub fn adopt_result(
        &mut self,
        result: Option<NavmeshResultHeader>,
        surface_known: bool,
        point_count: Option<usize>,
    ) -> (follows: bool)
        ensures
            follows == (result matches Some(r) && surface_known && usable_result(
                *old(self),
                r,
                point_count,
            )),
            *final(self) == old(self).adopted(result, surface_known, point_count),
    {
        let r = match result {
            None => {
                self.stale_path = true;
                return false;
            },
            Some(r) => r,
        };
        let settled = match r.status {
            NavmeshPathStatus::Success | NavmeshPathStatus::Partial => true,
            _ => false,
        };
        let has_points = match point_count {
            Some(n) => n > 0,
            None => false,
        };
        if !surface_known || r.request_id.0 != self.current_request_id.0 || !settled || !has_points {
            self.stale_path = true;
            return false;
        }
        if self.active_generation != r.generation || self.active_path_request_id.0
            != r.request_id.0 {
            self.active_generation = r.generation;
            self.active_path_request_id = r.request_id;
            self.waypoint_index = match point_count {
                Some(n) => if n > 1 {
                    1
                } else {
                    0
                },
                None => 0,
            };
        }
        true
    }

    /// Records the outcome of a steering step and returns whether the goal is reached.
    pub fn finish_step(&mut self, arrived: bool, result_generation: u64, surface_generation: u64) -> (reached:
        bool)
        ensures
            reached == arrived,
            *final(self) == old(self).stepped(arrived, result_generation, surface_generation),
    {
        if arrived {
            self.reached_goal = true;
            self.stale_path = false;
        } else {
            self.reached_goal = false;
            self.stale_path = result_generation != surface_generation;
        }
        arrived
    }
}

/// Request ids handed out to followers, counting up from 1.
#[derive(Clone, Copy, Debug, PartialEq, Eq, Structural, Default)]
pub struct NavmeshPathIdCounter {
    pub last: u64,
}

impl NavmeshPathIdCounter {
    /// Hands out the next request id.
    pub fn next_id(&mut self) -> (id: NavmeshPathId)
        requires
            old(self).last < u64::MAX,
        ensures
            final(self).last == old(self).last + 1,
            id.0 == final(self).last,
    {
        self.last = self.last + 1;
        NavmeshPathId(self.last)
    }
}

/// Ids handed out by a counter are never the unset id and never repeat: each is above every id
/// handed out before it.
pub proof fn law_issued_ids_are_fresh(before: NavmeshPathIdCounter, earlier: NavmeshPathId)
    requires
        before.last < u64::MAX,
        earlier.0 <= before.last,
    ensures
        before.last + 1 != 0,
        before.last + 1 != earlier.0,
{
}

/// A follower whose path belongs to an older surface generation marks it stale while it
/// travels, and then asks for a new path once no request is pending.
pub proof fn law_generation_change_triggers_repath(
    progress: NavmeshFollowProgress,
    result: NavmeshResultHeader,
    surface_generation: u64,
    target_moved: bool,
    interval_elapsed: bool,
)
    requires
        result.generation != surface_generation,
    ensures
        progress.stepped(false, result.generation, surface_generation).stale_path,
        progress.stepped(false, result.generation, surface_generation).wants_repath(
            target_moved,
            None,
            Some(result),
            surface_generation,
            interval_elapsed,
        ),
{
}

/// While the request it waits for is pending, a follower whose target has not moved and whose
/// interval has not elapsed does not issue another request.
pub proof fn law_pending_request_is_not_duplicated(
    progress: NavmeshFollowProgress,
    result: Option<NavmeshResultHeader>,
    surface_generation: u64,
)
    requires
        progress.has_resolved_target,
        progress.current_request_id != NavmeshPathId(0),
    ensures
        !progress.wants_repath(
            false,
            Some(progress.current_request_id),
            result,
            surface_generation,
            false,
        ),
{
}

/// Switching to a new path of two or more points heads for its second point: its first point
/// is where the follower stood.
pub proof fn law_new_path_heads_past_its_start(
    progress: NavmeshFollowProgress,
    result: NavmeshResultHeader,
    point_count: usize,
)
    requires
        usable_result(progress, result, Some(point_count)),
        progress.active_path_request_id != result.request_id,
        point_count > 1,
    ensures
        progress.adopted(Some(result), true, Some(point_count)).waypoint_index == 1,
        progress.adopted(Some(result), true, Some(point_count)).active_path_request_id
            == result.request_id,
{
}


/// Adopting a usable result makes it the followed path: the follower records the result's
/// request and generation; when either differs from the path followed so far (a new request,
/// or the same request answered on a rebaked surface), it restarts at the new path's second
/// point (its only point when it has one); otherwise nothing changes.
pub proof fn law_adopting_a_result_follows_its_generation(
    progress: NavmeshFollowProgress,
    result: NavmeshResultHeader,
    point_count: usize,
)
    requires
        result.request_id == progress.current_request_id,
        result.status == NavmeshPathStatus::Success || result.status == NavmeshPathStatus::Partial,
        point_count > 0,
    ensures
        ({
            let adopted = progress.adopted(Some(result), true, Some(point_count));
            &&& adopted.active_generation == result.generation
            &&& adopted.active_path_request_id == result.request_id
            &&& adopted.current_request_id == progress.current_request_id
            &&& adopted.stale_path == progress.stale_path
            &&& (result.generation != progress.active_generation || result.request_id
                != progress.active_path_request_id) ==> adopted.waypoint_index == (if point_count
                > 1 {
                1usize
            } else {
                0usize
            })
            &&& (result.generation == progress.active_generation && result.request_id
                == progress.active_path_request_id) ==> adopted == progress
        }),
{
}

/// A result the follower cannot use (none, no surface, another request, an unsettled or failed
/// status, or no points) leaves its path and progress as they were and marks the path stale.
pub proof fn law_unusable_results_mark_the_path_stale(
    progress: NavmeshFollowProgress,
    result: Option<NavmeshResultHeader>,
    surface_known: bool,
    point_count: Option<usize>,
)
    requires
        !(match result {
            Some(r) => surface_known && r.request_id == progress.current_request_id && (r.status
                == NavmeshPathStatus::Success || r.status == NavmeshPathStatus::Partial) && match point_count {
                Some(n) => n > 0,
                None => false,
            },
            None => false,
        }),
    ensures
        progress.adopted(result, surface_known, point_count) == (NavmeshFollowProgress {
            stale_path: true,
            ..progress
        }),
{
}

/// A steering step reports arrival as given and leaves the followed path alone: an arrived
/// follower has reached its goal with a fresh path; one still travelling has not, and its path
/// is stale exactly when it belongs to another generation than the surface.
pub proof fn law_steps_record_arrival_and_staleness(
    progress: NavmeshFollowProgress,
    arrived: bool,
    result_generation: u64,
    surface_generation: u64,
)
    ensures
        ({
            let after = progress.stepped(arrived, result_generation, surface_generation);
            &&& after.reached_goal == arrived
            &&& after.stale_path == (!arrived && result_generation != surface_generation)
            &&& after.current_request_id == progress.current_request_id
            &&& after.active_path_request_id == progress.active_path_request_id
            &&& after.active_generation == progress.active_generation
            &&& after.waypoint_index == progress.waypoint_index
            &&& after.has_resolved_target == progress.has_resolved_target
        }),
{
}

/// Issuing a request makes the follower wait for it with its target resolved, and forgets
/// arrival and staleness, while it keeps following its current path where it is.
pub proof fn law_repathing_waits_for_the_new_request(
    progress: NavmeshFollowProgress,
    request_id: NavmeshPathId,
)
    ensures
        ({
            let after = progress.repathed(request_id);
            &&& after.current_request_id == request_id
            &&& after.has_resolved_target
            &&& !after.stale_path
            &&& !after.reached_goal
            &&& after.active_path_request_id == progress.active_path_request_id
            &&& after.active_generation == progress.active_generation
            &&& after.waypoint_index == progress.waypoint_index
        }),
{
}

} // verus!
