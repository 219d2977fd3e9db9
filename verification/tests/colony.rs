use xenos::bt::TaskInput;
use xenos::constructions::{blocks, is_free, LookKind};
use xenos::state::game_state::forgotten_creeps;
use xenos::collections::{Container, Index};
use xenos::expansion::{keep_marker, remove_exp_markers, MarkerView};
use xenos::rooms::{neighbours, WorldPosition};
use xenos::state::{scout_info, CreepName, RoomIFF, ScoutInfo, WrappedState};
use xenos::structures::spawns::{spawn_index, spawn_turn};
use xenos::structures::towers::{attack_succeeded, find_repair_target, may_repair, needs_repair, AttackOutcome};

#[test]
fn scouts_record_who_holds_a_room() {
    let s = scout_info(None, 2, 100);
    assert_eq!(s.iff, RoomIFF::NoMansLand);
    assert_eq!(s.n_sources, 2);
    assert_eq!(s.time_of_recording, 100);
    assert_eq!(scout_info(Some((true, 3)), 1, 0).iff, RoomIFF::Friendly);
    assert_eq!(scout_info(Some((false, 0)), 1, 0).iff, RoomIFF::Neutral);
    assert_eq!(scout_info(Some((false, 5)), 1, 0).iff, RoomIFF::Hostile);
    assert_eq!(scout_info(None, 300, 0).n_sources, 44);
    assert_eq!(RoomIFF::default(), RoomIFF::Unknown);
    let d = ScoutInfo::default();
    assert_eq!((d.iff, d.n_sources, d.time_of_recording), (RoomIFF::Unknown, 0, 0));
}

struct Bucket(Option<i16>);

impl TaskInput for Bucket {
    fn spec_cpu_bucket(&self) -> Option<i16> {
        self.0
    }

    fn cpu_bucket(&self) -> Option<i16> {
        self.0
    }
}

#[test]
fn wrapped_state_passes_the_bucket_on() {
    let mut state = Bucket(Some(42));
    let w = WrappedState::new("item", &mut state);
    assert_eq!(w.item, "item");
    assert_eq!(w.cpu_bucket(), Some(42));
    let name = CreepName("Harvester_0929");
    assert_eq!(name.0, "Harvester_0929");
    assert!(CreepName("a") < CreepName("b"));
}

#[test]
fn expansion_markers_are_dropped_once_rooms_stand() {
    let a = WorldPosition([1, 1]);
    let b = WorldPosition([2, 2]);
    let c = WorldPosition([3, 3]);
    let d = WorldPosition([4, 4]);
    let e = WorldPosition([5, 5]);
    let markers = [
        (a, MarkerView::Unseen),
        (b, MarkerView::NoController),
        (c, MarkerView::Controlled { my: true, level: 4, spawns: 1 }),
        (d, MarkerView::Controlled { my: true, level: 4, spawns: 0 }),
        (e, MarkerView::Controlled { my: false, level: 8, spawns: 3 }),
    ];
    assert_eq!(remove_exp_markers(&markers), vec![a, d, e]);
    assert!(keep_marker(MarkerView::Controlled { my: true, level: 3, spawns: 2 }));
}

#[test]
fn towers_attack_and_repair() {
    assert!(may_repair(750, 1000));
    assert!(!may_repair(749, 1000));
    assert!(needs_repair(true, 9999, 0));
    assert!(!needs_repair(true, 10000, 20000));
    assert!(needs_repair(false, 5, 10));
    assert!(!needs_repair(false, 10, 10));
    assert_eq!(find_repair_target(&[5, 3, 3, 9]), Some(1));
    assert_eq!(find_repair_target(&[]), None);
    assert!(attack_succeeded(AttackOutcome::Attacking));
    assert!(attack_succeeded(AttackOutcome::RclNotEnough));
    assert!(!attack_succeeded(AttackOutcome::Refused));
}

#[test]
fn spawn_schedule() {
    assert!(spawn_turn(10));
    assert!(!spawn_turn(11));
    assert_eq!(spawn_index(7, 3), 1);
    assert_eq!(spawn_index(7, 1), 0);
}

#[test]
fn neighbours_through_exits() {
    // north, west, south, east
    let n = neighbours(WorldPosition([3, 4]), [true, false, true, true]);
    assert_eq!(n, vec![WorldPosition([3, 5]), WorldPosition([3, 3]), WorldPosition([4, 4])]);
    assert_eq!(neighbours(WorldPosition([3, 4]), [false; 4]), vec![]);
    // names of powers of ten lose a digit, and so do the neighbours read back
    let n = neighbours(WorldPosition([9, 0]), [false, false, false, true]);
    assert_eq!(n, vec![WorldPosition([0, 0])]);
}

#[test]
fn containers_address_their_items() {
    assert_eq!(Index::as_usize(200u8), 200);
    assert_eq!(<u16 as Index>::from_usize(1000), 1000u16);
    let mut items = [1u32, 2, 3, 4, 5, 6, 7, 8];
    assert_eq!(<[u32; 8] as Container>::capacity(), 8);
    assert_eq!(*Container::get(&items, 3u8), 4);
    Container::set(&mut items, 3u8, 40);
    *Container::get_mut(&mut items, 0u8) += 10;
    assert_eq!(items, [11, 2, 3, 40, 5, 6, 7, 8]);
    assert_eq!(<[u8; 1024] as Container>::capacity(), 1024);
}

#[test]
fn dead_creeps_are_forgotten() {
    let names = vec!["a".to_string(), "b".to_string(), "c".to_string()];
    let alive = vec!["c".to_string(), "a".to_string()];
    assert_eq!(forgotten_creeps(&names, &alive), vec!["b".to_string()]);
    assert_eq!(forgotten_creeps(&names, &[]), names);
}

#[test]
fn what_blocks_building() {
    assert!(blocks(LookKind::Wall));
    assert!(blocks(LookKind::OtherStructure));
    assert!(blocks(LookKind::ConstructionSite));
    assert!(!blocks(LookKind::Road));
    assert!(!blocks(LookKind::Other));
    assert!(is_free(&[LookKind::Other, LookKind::Road]));
    assert!(!is_free(&[LookKind::Other, LookKind::ConstructionSite]));
    assert!(is_free(&[]));
}
