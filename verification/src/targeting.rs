//! Which target a unit's search settles on, and how a grouped skill ranks the
//! units it may share out among its weapons.
//!
//! A search walks the candidates in the order the target trees list them,
//! team by team, and scores each as a unit with a full turn of sight scores
//! it, lower being better.

use vstd::prelude::*;

use crate::Error;
use crate::engagement::{FightActorView, SearchOrigin};
use crate::motion::{normal_visible_full_rotation_target_score_q32, normal_visible_full_rotation_target_score_spec};
use crate::order::{
    keys_ascend, lemma_ordering_ascends_and_keeps_every_entry, lemma_ordering_keeps_every_value, order_by_key,
    ordered_by_key, values_of,
};
use crate::quadtree::FightActorRef;
use crate::rules::{accepts_spec, AttackTargets, UnitDomain};
use crate::text::{decimal_spec, join3, unsigned_decimal};

verus! {

/// One entry of a search: the team whose list it stands in, what it names,
/// and how the fight sees it, none when it is gone.
#[derive(Debug, Clone, Copy)]
pub struct Candidate {
    pub listed_team: u32,
    pub target: FightActorRef,
    pub view: Option<FightActorView>,
}

/// Whether a candidate lives: as it stands now, or as the search last saw it.
pub open spec fn candidate_alive(view: FightActorView, live: bool) -> bool {
    if live {
        view.alive
    } else {
        view.query_alive
    }
}

/// Whether a candidate may be targeted: as it stands now, or, as the search
/// last saw it, a unit that lived or a building that could be.
pub open spec fn candidate_targetable(target: FightActorRef, view: FightActorView, live: bool) -> bool {
    if live {
        view.targetable
    } else {
        match target {
            FightActorRef::Unit(_) => view.query_alive,
            FightActorRef::Building(_) => view.targetable,
        }
    }
}

/// Where a candidate stands: now, or where the search last saw it.
pub open spec fn candidate_position(view: FightActorView, live: bool) -> (i64, i64) {
    if live {
        (view.x_q32, view.z_q32)
    } else {
        (view.query_x_q32, view.query_z_q32)
    }
}

/// How a unit searching from `origin` scores a candidate that stands at
/// `position` with `radius`.
pub open spec fn score_at(origin: SearchOrigin, position: (i64, i64), radius: i64) -> Option<i64> {
    normal_visible_full_rotation_target_score_spec(
        origin.x_q32,
        origin.z_q32,
        origin.radius,
        origin.rotation_q32,
        position.0,
        position.1,
        radius,
        origin.min_range,
        origin.range,
    )
}

/// How a searcher scores a candidate.
pub open spec fn candidate_score(candidate: Candidate, origin: SearchOrigin, live: bool) -> Option<i64> {
    let view = candidate.view->0;
    score_at(origin, candidate_position(view, live), view.radius)
}

/// Whether a search of `team` with an attack of `targets` may settle on a
/// candidate: an enemy list's entry that is still there, of the list's team,
/// living, targetable, of a domain the attack hits, and that scores.
pub open spec fn selectable(candidate: Candidate, team: u32, targets: AttackTargets, origin: SearchOrigin, live: bool) -> bool {
    &&& candidate.listed_team != team
    &&& candidate.view is Some
    &&& candidate.view->0.team == candidate.listed_team
    &&& candidate_alive(candidate.view->0, live)
    &&& candidate_targetable(candidate.target, candidate.view->0, live)
    &&& accepts_spec(targets, candidate.view->0.domain)
    &&& candidate_score(candidate, origin, live) is Some
}

/// Whether an attack of `targets` hits a unit of `domain`.
fn hits_domain(targets: AttackTargets, domain: UnitDomain) -> (result: bool)
    ensures
        result == accepts_spec(targets, domain),
{
    match domain {
        UnitDomain::Ground => targets.ground,
        UnitDomain::Air => targets.air,
    }
}

/// How a searcher scores a candidate it may consider; none when it is not
/// one.
fn consider(candidate: &Candidate, team: u32, targets: AttackTargets, origin: &SearchOrigin, live: bool) -> (score: Option<i64>)
    ensures
        selectable(*candidate, team, targets, *origin, live) <==> score is Some,
        score is Some ==> score == candidate_score(*candidate, *origin, live),
{
    if candidate.listed_team == team {
        return None;
    }
    match candidate.view {
        None => None,
        Some(view) => {
            let alive = if live {
                view.alive
            } else {
                view.query_alive
            };
            let targetable = if live {
                view.targetable
            } else {
                match candidate.target {
                    FightActorRef::Unit(_) => view.query_alive,
                    FightActorRef::Building(_) => view.targetable,
                }
            };
            if view.team != candidate.listed_team || !alive || !targetable || !hits_domain(targets, view.domain) {
                return None;
            }
            let (x_q32, z_q32) = if live {
                (view.x_q32, view.z_q32)
            } else {
                (view.query_x_q32, view.query_z_q32)
            };
            normal_visible_full_rotation_target_score_q32(
                origin.x_q32,
                origin.z_q32,
                origin.radius,
                origin.rotation_q32,
                x_q32,
                z_q32,
                view.radius,
                origin.min_range,
                origin.range,
            )
        },
    }
}

/// Whether `result` is what a unit of `team` searching from `origin` with an
/// attack of `targets` settles on: of the candidates it may consider, the
/// best scored, the first listed of equal ones; none when no enemy lives or
/// none scores.
pub open spec fn is_normal_selection(
    candidates: Seq<Candidate>,
    team: u32,
    targets: AttackTargets,
    origin: SearchOrigin,
    enemy_alive: bool,
    live: bool,
    result: Option<FightActorRef>,
) -> bool {
    match result {
        None => !enemy_alive || forall|i: int|
            0 <= i < candidates.len() ==> !selectable(#[trigger] candidates[i], team, targets, origin, live),
        Some(found) => enemy_alive && exists|i: int|
            0 <= i < candidates.len() && selectable(#[trigger] candidates[i], team, targets, origin, live)
                && candidates[i].target == found && (forall|j: int|
                0 <= j < candidates.len() && selectable(#[trigger] candidates[j], team, targets, origin, live)
                    ==> candidate_score(candidates[j], origin, live)->0 >= candidate_score(
                    candidates[i],
                    origin,
                    live,
                )->0 && (j < i ==> candidate_score(candidates[j], origin, live)->0 > candidate_score(
                    candidates[i],
                    origin,
                    live,
                )->0)),
    }
}

/// What a unit of `team` searching from `origin` with an attack of `targets`
/// settles on: of the candidates it may consider, the best scored, the first
/// listed of equal ones; none when no enemy lives or none scores. `live`
/// reads the candidates as they stand now rather than as the search last saw
/// them.
pub fn select_normal_target(
    candidates: &Vec<Candidate>,
    team: u32,
    targets: AttackTargets,
    origin: &SearchOrigin,
    enemy_alive: bool,
    live: bool,
) -> (result: Option<FightActorRef>)
    ensures
        is_normal_selection(candidates@, team, targets, *origin, enemy_alive, live, result),
{
    if !enemy_alive {
        return None;
    }
    let mut best: Option<(FightActorRef, i64)> = None;
    let ghost mut best_index: int = 0;
    let mut i: usize = 0;
    while i < candidates.len()
        invariant
            i <= candidates.len(),
            match best {
                None => forall|k: int| 0 <= k < i ==> !selectable(#[trigger] candidates[k], team, targets, *origin, live),
                Some((found, score)) => {
                    &&& 0 <= best_index < i
                    &&& selectable(candidates[best_index], team, targets, *origin, live)
                    &&& candidates[best_index].target == found
                    &&& candidate_score(candidates[best_index], *origin, live) == Some(score)
                    &&& forall|k: int|
                        0 <= k < i && selectable(#[trigger] candidates[k], team, targets, *origin, live)
                            ==> candidate_score(candidates[k], *origin, live)->0 >= score && (k < best_index
                            ==> candidate_score(candidates[k], *origin, live)->0 > score)
                },
            },
        decreases candidates.len() - i,
    {
        let candidate = &candidates[i];
        match consider(candidate, team, targets, origin, live) {
            Some(score) => {
                let better = match best {
                    None => true,
                    Some((_, best_score)) => score < best_score,
                };
                if better {
                    best = Some((candidate.target, score));
                    proof {
                        best_index = i as int;
                    }
                }
            },
            None => {},
        }
        i = i + 1;
    }
    match best {
        None => None,
        Some((found, _)) => {
            assert(selectable(candidates[best_index], team, targets, *origin, live));
            Some(found)
        },
    }
}

/// The unit a search settles on, for a caller that can take only a unit:
/// none when it settles on nothing, and a refusal naming the building when it
/// settles on one.
pub fn select_normal_unit_target(
    candidates: &Vec<Candidate>,
    team: u32,
    targets: AttackTargets,
    origin: &SearchOrigin,
    enemy_alive: bool,
    live: bool,
) -> (result: Result<Option<u64>, Error>)
    ensures
        match result {
            Ok(None) => is_normal_selection(candidates@, team, targets, *origin, enemy_alive, live, None),
            Ok(Some(id)) => is_normal_selection(
                candidates@,
                team,
                targets,
                *origin,
                enemy_alive,
                live,
                Some(FightActorRef::Unit(id)),
            ),
            Err(error) => exists|id: u64|
                is_normal_selection(candidates@, team, targets, *origin, enemy_alive, live, Some(FightActorRef::Building(id)))
                    && error.message@ == "Normal selector chose building "@ + decimal_spec(id as int)
                    + ", but this caller requires a unit"@,
        },
{
    match select_normal_target(candidates, team, targets, origin, enemy_alive, live) {
        None => Ok(None),
        Some(FightActorRef::Unit(id)) => Ok(Some(id)),
        Some(FightActorRef::Building(id)) => Err(Error::new(join3(
            "Normal selector chose building ",
            unsigned_decimal(id).as_str(),
            ", but this caller requires a unit",
        ))),
    }
}

/// Whether a grouped skill of `team` with an attack of `targets` ranks a
/// candidate: an enemy list's unit that is still there, living, of a domain
/// the attack hits, and that scores. Range is not asked here; each weapon
/// asks it later.
pub open spec fn rankable(candidate: Candidate, team: u32, targets: AttackTargets, origin: SearchOrigin, live: bool) -> bool {
    &&& candidate.listed_team != team
    &&& candidate.target is Unit
    &&& candidate.view is Some
    &&& candidate_alive(candidate.view->0, live)
    &&& accepts_spec(targets, candidate.view->0.domain)
    &&& candidate_score(candidate, origin, live) is Some
}

/// The units a grouped skill ranks, each with its score, in the order the
/// search lists them.
pub open spec fn scored_units(
    candidates: Seq<Candidate>,
    team: u32,
    targets: AttackTargets,
    origin: SearchOrigin,
    live: bool,
) -> Seq<(i64, u64)>
    decreases candidates.len(),
{
    if candidates.len() == 0 {
        Seq::empty()
    } else {
        let earlier = scored_units(candidates.drop_last(), team, targets, origin, live);
        let last = candidates.last();
        if rankable(last, team, targets, origin, live) {
            earlier.push((candidate_score(last, origin, live)->0, last.target->Unit_0))
        } else {
            earlier
        }
    }
}

/// The units a grouped skill may share out, best scored first, those of equal
/// score in the order the search lists them.
pub open spec fn ranked_units(
    candidates: Seq<Candidate>,
    team: u32,
    targets: AttackTargets,
    origin: SearchOrigin,
    live: bool,
) -> Seq<u64> {
    values_of(ordered_by_key(scored_units(candidates, team, targets, origin, live)))
}

/// The units a grouped skill of `team` searching from `origin`, which faces
/// its body's bearing, may share out among its weapons: every living enemy
/// unit of a domain its attack hits that scores, best scored first, those of
/// equal score in the order the search lists them.
pub fn rank_group_unit_targets(
    candidates: &Vec<Candidate>,
    team: u32,
    targets: AttackTargets,
    origin: &SearchOrigin,
    live: bool,
) -> (ranked: Vec<u64>)
    ensures
        ranked@ == ranked_units(candidates@, team, targets, *origin, live),
{
    let mut scored: Vec<(i64, u64)> = Vec::new();
    let mut i: usize = 0;
    while i < candidates.len()
        invariant
            i <= candidates.len(),
            scored@ == scored_units(candidates@.take(i as int), team, targets, *origin, live),
        decreases candidates.len() - i,
    {
        let candidate = &candidates[i];
        let ghost before = candidates@.take(i as int);
        proof {
            assert(candidates@.take(i as int + 1).drop_last() =~= before);
            assert(candidates@.take(i as int + 1).last() == candidates@[i as int]);
        }
        if candidate.listed_team != team {
            match (candidate.target, candidate.view) {
                (FightActorRef::Unit(id), Some(view)) => {
                    let alive = if live {
                        view.alive
                    } else {
                        view.query_alive
                    };
                    if alive && hits_domain(targets, view.domain) {
                        let (x_q32, z_q32) = if live {
                            (view.x_q32, view.z_q32)
                        } else {
                            (view.query_x_q32, view.query_z_q32)
                        };
                        match normal_visible_full_rotation_target_score_q32(
                            origin.x_q32,
                            origin.z_q32,
                            origin.radius,
                            origin.rotation_q32,
                            x_q32,
                            z_q32,
                            view.radius,
                            origin.min_range,
                            origin.range,
                        ) {
                            Some(score) => {
                                scored.push((score, id));
                            },
                            None => {},
                        }
                    }
                },
                _ => {},
            }
        }
        i = i + 1;
    }
    proof {
        assert(candidates@.take(candidates.len() as int) =~= candidates@);
    }
    let ordered = order_by_key(&scored);
    let mut ranked: Vec<u64> = Vec::new();
    let mut k: usize = 0;
    while k < ordered.len()
        invariant
            k <= ordered.len(),
            ranked@ =~= ordered@.take(k as int).map_values(|entry: (i64, u64)| entry.1),
        decreases ordered.len() - k,
    {
        ranked.push(ordered[k].1);
        k = k + 1;
    }
    assert(ordered@.take(ordered.len() as int) =~= ordered@);
    assert(ranked@ =~= values_of(ordered@));
    ranked
}

/// A grouped skill ranks every unit it scores, as often as it scores it,
/// best scored first.
pub proof fn lemma_ranking_is_best_first_and_keeps_every_unit(
    candidates: Seq<Candidate>,
    team: u32,
    targets: AttackTargets,
    origin: SearchOrigin,
    live: bool,
)
    ensures
        keys_ascend(ordered_by_key(scored_units(candidates, team, targets, origin, live))),
        ranked_units(candidates, team, targets, origin, live).to_multiset() == values_of(
            scored_units(candidates, team, targets, origin, live),
        ).to_multiset(),
{
    lemma_ordering_ascends_and_keeps_every_entry(scored_units(candidates, team, targets, origin, live));
    lemma_ordering_keeps_every_value(scored_units(candidates, team, targets, origin, live));
}

} // verus!
