use std::collections::BTreeMap;

use simulation::compile::{CompiledLayout, Placement};
use simulation::data::{Channel, Entry};
use simulation::fight::{run, AvoidanceVelocity, Event, Fight};
use simulation::rules::{
    AttackConfig, AttackPath, AttackTargets, AttackTiming, FormationConfig, FormationFootprint, RvoConfig, RvoSize,
    UnitConfig, UnitConfigs, UnitDomain, WeaponMode, WeaponTopology,
};
use simulation::run::EndReason;
use simulation::skill::MotionState;

fn lone(name: &str, path: AttackPath) -> UnitConfig {
    UnitConfig {
        schema: "mechcore.unit".to_owned(),
        name: name.to_owned(),
        unit_type_id: if name == "arclight" { 1 } else { 2 },
        formation: FormationConfig { members: 1, slot_size: 10_000, footprint: FormationFootprint { width: 10_000, depth: 10_000 } },
        domain: UnitDomain::Ground,
        max_life: 1_000,
        collision_radius: 1_000,
        move_speed: 7_000,
        rotate_speed: 180_000,
        has_body: false,
        independent_aim: None,
        rvo: RvoConfig { outer_radius: 2_000, inner_radius: 1_500, size: RvoSize::S, collider_priority: 1, priority_q32: 0 },
        attack: AttackConfig {
            base_damage: 100,
            min_range: 0,
            range: 120_000,
            attack_half_angle: 10_000,
            targets: AttackTargets { ground: true, air: false },
            lock_target: true,
            quick_switch_target: false,
            timing: AttackTiming {
                interval: 2_000,
                interval_offset: 0,
                initial_cooldown: 0,
                prepare: 0,
                attack_point: 0,
                backswing: 0,
                cooling: 0,
            },
            splash_radius: 0,
            weapons: WeaponTopology {
                mode: WeaponMode::Normal,
                indices: vec![0],
                per_skill: 1,
                fusillade: None,
                allow_same_target: None,
                rotation_speed: None,
            },
            melee: false,
            path,
            magazine: None,
        },
    }
}

fn configs() -> UnitConfigs {
    UnitConfigs::from_configs(vec![lone("arclight", AttackPath::Direct)]).unwrap()
}

fn placement(team: u32, name: &str, world_z: i64) -> Placement {
    Placement {
        team,
        unit_id: 0,
        formation_id: 0,
        formation_index: 0,
        name: name.to_owned(),
        world_x: 0,
        world_z,
        rotation: if team == 0 { 0 } else { 180_000 },
        rotated: false,
        level: 1,
        corrections: Vec::<(Channel, Entry)>::new(),
    }
}

fn layout(placements: Vec<Placement>) -> CompiledLayout {
    CompiledLayout { round: 1, placements, constructions: Vec::new(), tower_levels: BTreeMap::new() }
}

/// Every unit standing where it is.
fn standing(fight: &Fight) -> Vec<AvoidanceVelocity> {
    fight
        .units
        .iter()
        .map(|unit| AvoidanceVelocity { target_x_q32: unit.x_q32, target_z_q32: unit.z_q32, speed_q32: 0 })
        .collect()
}

fn standing_answers(count: usize, units: usize) -> Vec<Vec<AvoidanceVelocity>> {
    vec![vec![AvoidanceVelocity { target_x_q32: 0, target_z_q32: 0, speed_q32: 0 }; units]; count]
}

#[test]
fn a_unit_type_without_a_description_is_refused() {
    let refused = Fight::new(&layout(vec![placement(0, "ghost", 0)]), &configs(), 7).err().unwrap();
    assert_eq!(refused.message, "unit type \"ghost\" has no configuration");
}

#[test]
fn a_unit_that_does_not_strike_is_refused() {
    let units = UnitConfigs { units: vec![lone("laser", AttackPath::Laser { damage_multipliers: vec![1 << 32] })] };
    let refused = Fight::new(&layout(vec![placement(0, "laser", 0)]), &units, 7).err().unwrap();
    assert_eq!(refused.message, "unit type \"laser\" attacks by a path this fight does not carry");
}

#[test]
fn a_fight_puts_blue_before_red_whatever_the_layout_order() {
    let fight = Fight::new(&layout(vec![placement(1, "arclight", 50), placement(0, "arclight", -50)]), &configs(), 7)
        .unwrap();
    assert_eq!(fight.units.len(), 2);
    assert_eq!(fight.units[0].team, 0);
    assert_eq!(fight.units[1].team, 1);
    assert!(fight.units.iter().all(|unit| unit.lock.is_none() && unit.life == 1_000));
    // With no offset the interval is the description's: one second, twenty ticks.
    assert!(fight.units.iter().all(|unit| unit.cycle.current_attack_interval == 20));
}

#[test]
fn two_units_on_one_place_are_refused() {
    let refused =
        Fight::new(&layout(vec![placement(0, "arclight", 0), placement(0, "arclight", 0)]), &configs(), 7).err().unwrap();
    assert_eq!(refused.message, "two initial same-team units have equal world coordinates");
}

#[test]
fn a_unit_in_reach_locks_on_then_strikes_at_its_attack_point() {
    let mut fight =
        Fight::new(&layout(vec![placement(0, "arclight", -5), placement(1, "arclight", 5)]), &configs(), 7).unwrap();
    let answer = standing(&fight);
    // The tick a unit enters its attack it launches nothing.
    let events = fight.step(0, &answer).unwrap();
    assert!(events.is_empty());
    assert_eq!(fight.units[0].lock, Some(1));
    assert_eq!(fight.units[1].lock, Some(0));
    assert_eq!(fight.units[0].cycle.motion, MotionState::Attacking);
    // The next it launches, and with no attack point the blow lands at once.
    let events = fight.step(1, &answer).unwrap();
    assert_eq!(
        events,
        vec![
            Event::Damage { source: 0, target: 1, amount: 100 },
            Event::Damage { source: 1, target: 0, amount: 100 },
        ]
    );
    assert_eq!(fight.units[0].life, 900);
    assert_eq!(fight.units[0].cycle.next_attack_step, 21);
    // The next blow waits for the interval.
    let events = fight.step(2, &answer).unwrap();
    assert!(events.is_empty());
}

#[test]
fn a_unit_out_of_reach_moves_where_the_solver_sends_it() {
    let mut fight =
        Fight::new(&layout(vec![placement(0, "arclight", -500), placement(1, "arclight", 500)]), &configs(), 7).unwrap();
    let before = fight.units[0].z_q32;
    let mut answer = standing(&fight);
    answer[0] = AvoidanceVelocity { target_x_q32: fight.units[0].x_q32, target_z_q32: fight.units[1].z_q32, speed_q32: 7 << 32 };
    let events = fight.step(0, &answer).unwrap();
    assert!(events.is_empty());
    assert!(fight.units[0].z_q32 > before);
    assert_eq!(fight.units[0].cycle.motion, MotionState::Moving);
    assert_eq!(fight.units[1].z_q32, answer[1].target_z_q32);
}

#[test]
fn an_answer_not_one_per_unit_is_refused_and_changes_nothing() {
    let mut fight =
        Fight::new(&layout(vec![placement(0, "arclight", -5), placement(1, "arclight", 5)]), &configs(), 7).unwrap();
    let refused = fight.step(0, &Vec::new()).err().unwrap();
    assert_eq!(refused.message, "the avoidance answer is not one per unit");
    assert!(fight.units.iter().all(|unit| unit.life == 1_000 && unit.lock.is_none()));
}

#[test]
fn blue_acts_first_and_wins_an_even_duel() {
    let duel = layout(vec![placement(0, "arclight", -5), placement(1, "arclight", 5)]);
    let outcome = run(&duel, &configs(), 7, &standing_answers(2_400, 2)).unwrap();
    assert_eq!(outcome.end, EndReason::NaturalModuleDrain);
    assert_eq!(outcome.winner, Some(0));
    // Blows land at ticks 1, 21, ... and red falls to blue's tenth, at tick
    // 181, before it strikes its own.
    assert_eq!(outcome.steps, 182);
    assert_eq!(outcome.units[1].life, 0);
    assert_eq!(outcome.units[0].life, 100);
    assert_eq!(outcome.events.last(), Some(&Event::Died { unit: 1, source: 0 }));
    // The tick the fight is decided every unit stands down.
    assert!(outcome.units.iter().all(|unit| unit.lock.is_none() && unit.cycle.motion == MotionState::Idle));

    // The same layout, seed and answers run the same fight.
    let again = run(&duel, &configs(), 7, &standing_answers(2_400, 2)).unwrap();
    assert_eq!(again.events, outcome.events);
    assert_eq!(again.steps, outcome.steps);
}

#[test]
fn units_that_never_meet_run_to_the_time_limit() {
    let apart = layout(vec![placement(0, "arclight", -500), placement(1, "arclight", 500)]);
    let fight = Fight::new(&apart, &configs(), 7).unwrap();
    let answers = vec![standing(&fight); 2_400];
    let outcome = run(&apart, &configs(), 7, &answers).unwrap();
    assert_eq!(outcome.end, EndReason::ForcedTimeLimit);
    assert_eq!(outcome.steps, 2_400);
    assert_eq!(outcome.winner, None);
    assert!(outcome.events.is_empty());
}

#[test]
fn a_run_whose_answers_run_out_is_refused() {
    let apart = layout(vec![placement(0, "arclight", -500), placement(1, "arclight", 500)]);
    let refused = run(&apart, &configs(), 7, &standing_answers(3, 2)).err().unwrap();
    assert_eq!(refused.message, "the avoidance answers ran out before the fight ended");
}

#[test]
fn a_layout_with_one_side_ends_after_its_first_tick() {
    let alone = layout(vec![placement(0, "arclight", 0)]);
    let outcome = run(&alone, &configs(), 7, &standing_answers(1, 1)).unwrap();
    assert_eq!(outcome.end, EndReason::NaturalModuleDrain);
    assert_eq!(outcome.steps, 1);
    assert_eq!(outcome.winner, Some(0));
}

#[test]
fn a_staggered_duel_ends_with_the_survivor_on_its_described_interval() {
    let mut staggered = lone("arclight", AttackPath::Direct);
    staggered.attack.timing.interval_offset = 400;
    let units = UnitConfigs { units: vec![staggered] };
    let duel = layout(vec![placement(0, "arclight", -5), placement(1, "arclight", 5)]);
    let outcome = run(&duel, &units, 11, &standing_answers(2_400, 2)).unwrap();
    assert_eq!(outcome.end, EndReason::NaturalModuleDrain);
    let survivor = outcome.units.iter().find(|unit| unit.life > 0).unwrap();
    assert_eq!(outcome.winner, Some(survivor.team));
    assert_eq!(survivor.cycle.current_attack_interval, 20);
    let again = run(&duel, &units, 11, &standing_answers(2_400, 2)).unwrap();
    assert_eq!(again.events, outcome.events);
    assert_eq!(again.steps, outcome.steps);
}
