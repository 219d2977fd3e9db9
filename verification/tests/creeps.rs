use xenos::creeps::conqueror::{after_claim, plan_claim, ClaimError, ClaimFollowup, ClaimOutcome, ClaimStep};
use xenos::creeps::harvester::{find_harvest_target, harvester_count};
use xenos::creeps::lrh::{last_lrh_state, lrh_priorities, pick_target_room, LrhState};
use xenos::creeps::roles::{
    count_roles_in_room, next_role, role_priority, spawn_config_by_role, target_number_of_role_in_room, CreepRecord,
    Part, RoomCensus,
};
use xenos::creeps::scout::next_scout_room;
use xenos::creeps::spawning::{after_spawn, creep_name, BodyPlan, DryRun, NameStep, SpawnError, SpawnOutcome};
use xenos::creeps::{find_dropped_energy, stock_message, load_gate, move_succeeded, task_priorities, unload_gate, LoadGate, MoveOutcome, Role, UnloadGate};
use xenos::rooms::WorldPosition;
use xenos::state::RoomIFF;

fn census() -> RoomCensus {
    RoomCensus {
        level: 3,
        position: WorldPosition([0, 0]),
        n_sources: 2,
        n_hostiles: 0,
        n_containers: 1,
        energy_in_containers: 2000,
        n_constructions: 5,
    }
}

#[test]
fn role_numbers_and_names() {
    assert_eq!(Role::from(0), Role::Unknown);
    assert_eq!(Role::from(5), Role::Lrh);
    assert_eq!(Role::from(9), Role::Defender);
    assert_eq!(Role::Gofer.as_u8(), 4);
    assert_eq!(Role::Conqueror.to_string(), "Conqueror");
    assert_eq!(Role::Lrw.name(), "Lrw");
    let all = Role::all_roles();
    assert_eq!(all.len(), 9);
    assert_eq!(all[0], Role::Upgrader);
    assert_eq!(all[8], Role::Defender);
    assert_eq!(role_priority(Role::Defender), 4);
    assert_eq!(role_priority(Role::Lrw), -4);
    assert_eq!(role_priority(Role::Upgrader), 0);
}

#[test]
fn targets_per_role() {
    let c = census();
    let t = |r| target_number_of_role_in_room(r, &c, &[]);
    assert_eq!(t(Role::Defender), 0);
    assert_eq!(t(Role::Upgrader), 1);
    assert_eq!(t(Role::Harvester), 2);
    assert_eq!(t(Role::Worker), 6);
    assert_eq!(t(Role::Conqueror), 1);
    assert_eq!(t(Role::Lrh), 4);
    assert_eq!(t(Role::Gofer), 1);
    assert_eq!(t(Role::Lrw), 1);
    assert_eq!(t(Role::Scout), 1);
    assert_eq!(t(Role::Unknown), 0);
    // three expansion flags within 10 rooms, one farther
    let flags = [WorldPosition([1, 1]), WorldPosition([-5, 5]), WorldPosition([0, 10]), WorldPosition([11, 0])];
    assert_eq!(target_number_of_role_in_room(Role::Conqueror, &c, &flags), 3);
    assert_eq!(target_number_of_role_in_room(Role::Lrw, &c, &flags), 3);
}

#[test]
fn next_role_is_most_urgent_short_role() {
    let c = census();
    let mut counts = vec![
        (Role::Upgrader, 1),
        (Role::Harvester, 1),
        (Role::Worker, 6),
        (Role::Gofer, 0),
        (Role::Lrh, 4),
        (Role::Conqueror, 1),
        (Role::Lrw, 1),
        (Role::Scout, 1),
        (Role::Defender, 0),
    ];
    assert_eq!(next_role(&counts, &c, &[]), Some(Role::Harvester));
    counts[1].1 = 2;
    assert_eq!(next_role(&counts, &c, &[]), Some(Role::Gofer));
    counts[3].1 = 1;
    assert_eq!(next_role(&counts, &c, &[]), None);
}

fn rec(home: Option<&str>, role: Option<i64>) -> CreepRecord {
    CreepRecord { home_room: home.map(|h| h.to_string()), role }
}

#[test]
fn roles_are_counted_per_home_room() {
    let records = [
        rec(Some("W1N1"), Some(2)),
        rec(Some("W1N1"), Some(2)),
        rec(Some("E1N1"), Some(2)),
        rec(Some("W1N1"), None),
        rec(None, Some(3)),
        rec(Some("W1N1"), Some(4)),
        rec(Some("W1N1"), Some(0)),
        rec(Some("W1N1"), Some(256 + 9)),
    ];
    let counts = count_roles_in_room(&records, &"W1N1".to_string());
    assert_eq!(
        counts,
        vec![
            (Role::Upgrader, 0),
            (Role::Harvester, 2),
            (Role::Worker, 0),
            (Role::Gofer, 1),
            (Role::Lrh, 0),
            (Role::Conqueror, 0),
            (Role::Lrw, 0),
            (Role::Scout, 0),
            (Role::Defender, 1),
        ]
    );
}

#[test]
fn spawn_configs() {
    let c = spawn_config_by_role(3, Role::Harvester);
    assert_eq!(c.basic_body.as_slice(), &[Part::Move, Part::Work, Part::Carry, Part::Work]);
    assert_eq!(c.body_extension.as_slice(), &[Part::Work]);
    assert_eq!(c.body_max, Some(8));
    assert_eq!(spawn_config_by_role(5, Role::Gofer).body_max, Some(48));
    assert_eq!(spawn_config_by_role(8, Role::Gofer).body_max, Some(50));
    assert_eq!(spawn_config_by_role(8, Role::Worker).body_max, Some(36));
    assert_eq!(spawn_config_by_role(1, Role::Scout).body_max, None);
    assert!(spawn_config_by_role(1, Role::Scout).body_extension.is_empty());
}

#[test]
fn body_grows_while_affordable() {
    let config = spawn_config_by_role(3, Role::Harvester);
    let mut plan = BodyPlan::new(&config);
    assert!(plan.grow());
    assert_eq!(plan.current_body().len(), 5);
    assert_eq!(plan.record(DryRun::Affordable), Ok(()));
    assert!(plan.grow());
    assert_eq!(plan.record(DryRun::NotEnough), Ok(()));
    assert!(!plan.grow());
    assert_eq!(plan.body_to_spawn(), vec![Part::Move, Part::Work, Part::Carry, Part::Work, Part::Work]);
}

#[test]
fn body_stops_at_its_maximum() {
    let config = spawn_config_by_role(3, Role::Harvester);
    let mut plan = BodyPlan::new(&config);
    let mut steps = 0;
    while plan.grow() {
        plan.record(DryRun::Affordable).unwrap();
        steps += 1;
    }
    assert_eq!(steps, 4);
    assert_eq!(plan.body_to_spawn().len(), 8);
}

#[test]
fn body_never_passes_its_maximum() {
    let config = spawn_config_by_role(1, Role::Upgrader);
    assert_eq!(config.body_max, Some(16));
    let mut plan = BodyPlan::new(&config);
    while plan.grow() {
        plan.record(DryRun::Affordable).unwrap();
    }
    assert_eq!(plan.body_to_spawn().len(), 15);
}

#[test]
fn body_is_cut_at_fifty_parts() {
    let config = spawn_config_by_role(8, Role::Defender);
    let mut plan = BodyPlan::new(&config);
    while plan.grow() {
        plan.record(DryRun::Affordable).unwrap();
    }
    assert_eq!(plan.body_to_spawn().len(), 50);
}

#[test]
fn refused_body_is_an_error() {
    let config = spawn_config_by_role(3, Role::Worker);
    let mut plan = BodyPlan::new(&config);
    assert!(plan.grow());
    assert_eq!(plan.record(DryRun::Refused), Err(SpawnError::CanNotSpawn));
    assert_eq!(plan.body_to_spawn(), vec![Part::Move, Part::Carry, Part::Work]);
    let scout = spawn_config_by_role(3, Role::Scout);
    let mut plan = BodyPlan::new(&scout);
    assert!(!plan.grow());
    assert_eq!(plan.body_to_spawn(), vec![Part::Move]);
}

#[test]
fn creep_names() {
    assert_eq!(creep_name(Role::Harvester, 12345, 0), "Harvester_0929");
    assert_eq!(creep_name(Role::Harvester, 12345, 1), "Harvester_092a");
    assert_eq!(creep_name(Role::Scout, 5, 0), "Scout_0005");
    assert_eq!(creep_name(Role::Gofer, 9999, 100), "Gofer_2773");
    assert_eq!(creep_name(Role::Lrh, 0, 70000), "Lrh_11170");
    assert_eq!(after_spawn(SpawnOutcome::Spawned, 3), NameStep::Record);
    assert_eq!(after_spawn(SpawnOutcome::NameExists, 3), NameStep::Retry(4));
    assert_eq!(after_spawn(SpawnOutcome::Refused, 3), NameStep::Fail);
}

#[test]
fn loading_gates() {
    assert_eq!(load_gate(None, 0, 50), LoadGate::NotLoading);
    assert_eq!(load_gate(Some(false), 0, 50), LoadGate::NotLoading);
    assert_eq!(load_gate(Some(true), 50, 50), LoadGate::Full);
    assert_eq!(load_gate(Some(true), 10, 50), LoadGate::Proceed);
    assert_eq!(unload_gate(Some(true), 10), UnloadGate::Loading);
    assert_eq!(unload_gate(None, 0), UnloadGate::Empty);
    assert_eq!(unload_gate(Some(false), 10), UnloadGate::Proceed);
    assert!(move_succeeded(MoveOutcome::Moving));
    assert!(move_succeeded(MoveOutcome::Tired));
    assert!(!move_succeeded(MoveOutcome::Refused));
}

#[test]
fn task_priorities_favour_the_last_task() {
    assert_eq!(task_priorities(2, 4), vec![0, 0, 1, 0]);
    assert_eq!(task_priorities(7, 4), vec![1, 0, 0, 0]);
    assert_eq!(task_priorities(-1, 3), vec![1, 0, 0]);
    assert_eq!(task_priorities((1i64 << 32) + 1, 3), vec![0, 1, 0]);
    assert_eq!(last_lrh_state(2), LrhState::Unloading);
    assert_eq!(last_lrh_state(5), LrhState::Idle);
    assert_eq!(lrh_priorities(LrhState::Loading), [0, 1, 0]);
}

#[test]
fn long_range_harvesters_spread_over_rooms() {
    let a = WorldPosition([0, 1]);
    let b = WorldPosition([1, 0]);
    let c = WorldPosition([0, -1]);
    let rooms = [(a, None), (b, Some(RoomIFF::Hostile)), (c, Some(RoomIFF::Neutral))];
    let mut counts = [2, 0, 1, 0];
    assert_eq!(pick_target_room(&rooms, &mut counts), Some(c));
    assert_eq!(counts, [2, 0, 2, 0]);
    // a tie goes to the first
    assert_eq!(pick_target_room(&rooms, &mut counts), Some(a));
    assert_eq!(counts, [3, 0, 2, 0]);
    let hostile = [(b, Some(RoomIFF::Friendly))];
    assert_eq!(pick_target_room(&hostile, &mut counts), None);
    assert_eq!(counts, [3, 0, 2, 0]);
}

#[test]
fn scouts_visit_unknown_then_oldest_rooms() {
    let a = WorldPosition([0, 1]);
    let b = WorldPosition([1, 0]);
    let c = WorldPosition([0, -1]);
    let d = WorldPosition([-1, 0]);
    assert_eq!(next_scout_room(&[(a, Some(100)), (b, Some(50)), (c, None), (d, Some(1))]), c);
    assert_eq!(next_scout_room(&[(a, Some(100)), (b, Some(50)), (d, Some(50))]), b);
    assert_eq!(next_scout_room(&[]), WorldPosition([0, 0]));
    assert_eq!(next_scout_room(&[(a, Some(2_000_000_000))]), WorldPosition([0, 0]));
}

#[test]
fn harvesters_pick_the_least_crowded_nearest_source() {
    assert_eq!(find_harvest_target(&[(5, 2), (3, 1), (1, 1), (0, 3)]), Some(2));
    assert_eq!(find_harvest_target(&[(5, 2), (5, 2)]), Some(0));
    assert_eq!(find_harvest_target(&[]), None);
    let targets = [Some("s1".to_string()), None, Some("s2".to_string()), Some("s1".to_string())];
    assert_eq!(harvester_count(&targets, &"s1".to_string()), 2);
    assert_eq!(harvester_count(&targets, &"s3".to_string()), 0);
}

#[test]
fn conquerors_claim_their_target_room() {
    let here = WorldPosition([1, 2]);
    assert_eq!(plan_claim(None, here), Err(ClaimError::NoTarget));
    assert_eq!(plan_claim(Some(&"E1N2".to_string()), here), Ok(ClaimStep::Claim));
    assert_eq!(plan_claim(Some(&"W3S4".to_string()), here), Ok(ClaimStep::MoveTo(WorldPosition([-3, -4]))));
    assert_eq!(
        plan_claim(Some(&"nowhere".to_string()), here),
        Err(ClaimError::InvalidTarget("Failed to parse coordinates"))
    );
    assert_eq!(after_claim(ClaimOutcome::Claimed), ClaimFollowup::Done);
    assert_eq!(after_claim(ClaimOutcome::NotInRange), ClaimFollowup::Approach);
    assert_eq!(after_claim(ClaimOutcome::Refused), ClaimFollowup::Failed);
}

#[test]
fn creeps_pick_the_largest_pile_and_sign_in_turn() {
    assert_eq!(find_dropped_energy(&[5, 9, 2, 9, 1]), Some(3));
    assert_eq!(find_dropped_energy(&[7]), Some(0));
    assert_eq!(find_dropped_energy(&[]), None);
    assert_eq!(stock_message(10), "Become as gods");
    assert_eq!(stock_message(11), "This cannot continue");
}
