use xenos::collections::flaggrid::BitRoomGrid5050;
use xenos::collections::{FlagGrid, FlagGrid1717, QueueError};
use xenos::constructions::extensions::{ExtensionOutcome, ExtensionSearch, ExtensionStep};
use xenos::constructions::roads::{can_continue_building, plan_roads, road_steps, RoadBlock, RoadError};
use xenos::constructions::spawns::{find_initial_point, InitialPointError};
use xenos::constructions::storage::{storage_anchor, StorageError};
use xenos::constructions::{
    after_site, construction_turn, initial_square, storage_site_result, structure_order, ConstructionMatrix,
    ConstructionMatrixError, NextPos, Point, SiteFollowup, SiteOutcome, StructureKind,
};
use xenos::state::ConstructionState;

fn room() -> String {
    "W1N1".to_string()
}

#[test]
fn queueing_any_point_opens_nothing() {
    let mut m = ConstructionMatrix::default().with_position(Point(-3, 70));
    assert!(!m.next_square_on_grid());
    assert_eq!(m.pop_open_pos(), None);
    let mut m = ConstructionMatrix::default().with_position(Point(50, 50));
    assert!(m.next_square_on_grid());
    assert_eq!(m.pop_open_pos(), None);
    assert!(ConstructionMatrix::default().next_square_on_grid());
}

#[test]
fn exploring_a_free_square_opens_its_positions() {
    let mut m = ConstructionMatrix::new().with_position(Point(25, 25));
    assert_eq!(m.peek_open_pos(), None);
    let next = m.find_next_pos(&room()).unwrap();
    assert_eq!(next, NextPos::Survey(Point(25, 25)));
    assert_eq!(ConstructionMatrix::tile_bounds(Point(25, 25)), (24, 24, 26, 26));
    let p = m.finish_survey(&room(), Point(25, 25), &[]).unwrap();
    assert_eq!(p, Point(25, 25));
    assert_eq!(m.find_next_pos(&room()).unwrap(), NextPos::Open(Point(25, 25)));
    assert_eq!(m.pop_open_pos(), Some(Point(25, 25)));
    assert_eq!(m.pop_open_pos(), Some(Point(25, 24)));
    assert_eq!(m.pop_open_pos(), Some(Point(24, 25)));
    assert_eq!(m.pop_open_pos(), Some(Point(26, 25)));
    assert_eq!(m.pop_open_pos(), Some(Point(25, 26)));
    assert_eq!(m.pop_open_pos(), None);
    // the four squares around it were queued, in order
    assert_eq!(m.take_next_tile(), Some(Point(27, 25)));
    assert_eq!(m.take_next_tile(), Some(Point(25, 27)));
    assert_eq!(m.take_next_tile(), Some(Point(25, 23)));
    assert_eq!(m.take_next_tile(), Some(Point(23, 25)));
}

#[test]
fn crowded_square_is_out_of_space() {
    let mut m = ConstructionMatrix::new().with_position(Point(25, 25));
    assert_eq!(m.find_next_pos(&room()).unwrap(), NextPos::Survey(Point(25, 25)));
    // (24, 24) and (26, 26) are blocked, the duplicate counts once, (24, 25)
    // is a walking tile and does not count
    let taken = [(24, 24), (26, 26), (24, 24), (24, 25)];
    let r = m.finish_survey(&room(), Point(25, 25), &taken);
    assert!(matches!(r, Err(ConstructionMatrixError::OutOfSpace(ref n)) if n == "W1N1"));
    assert_eq!(m.peek_open_pos(), None);
}

#[test]
fn nothing_left_to_explore_is_out_of_space() {
    let mut m = ConstructionMatrix::default();
    let r = m.find_next_pos(&room());
    assert!(matches!(r, Err(ConstructionMatrixError::OutOfSpace(ref n)) if n == "W1N1"));
    assert_eq!(m.take_next_tile(), None);
}

#[test]
fn explored_squares_are_not_queued_again() {
    let mut m = ConstructionMatrix::new().with_position(Point(10, 10)).with_position(Point(12, 8));
    assert_eq!(m.take_next_tile(), Some(Point(10, 10)));
    // around (12, 8): (14, 8) and (12, 6) lie in its own square, explored
    // now, (12, 10) and (10, 8) are queued already
    assert_eq!(m.take_next_tile(), Some(Point(12, 8)));
    assert_eq!(m.take_next_tile(), Some(Point(12, 10)));
    assert_eq!(m.take_next_tile(), Some(Point(10, 12)));
    assert_eq!(m.take_next_tile(), Some(Point(10, 8)));
    assert_eq!(m.take_next_tile(), Some(Point(8, 10)));
    assert_eq!(m.take_next_tile(), Some(Point(12, 12)));
    assert_eq!(m.take_next_tile(), Some(Point(8, 12)));
    assert_eq!(m.take_next_tile(), Some(Point(8, 8)));
}

#[test]
fn border_squares_have_no_neighbours() {
    let mut m = ConstructionMatrix::new().with_position(Point(2, 2));
    assert_eq!(m.take_next_tile(), Some(Point(2, 2)));
    assert_eq!(m.take_next_tile(), None);
    let mut m = ConstructionMatrix::new().with_position(Point(4, 4));
    assert_eq!(m.take_next_tile(), Some(Point(4, 4)));
    assert_eq!(m.take_next_tile(), Some(Point(6, 4)));
    assert_eq!(m.take_next_tile(), Some(Point(4, 6)));
    assert_eq!(ConstructionMatrix::tile_bounds(Point(0, 49)), (0, 48, 1, 49));
}

#[test]
fn plans_are_kept_per_room() {
    let mut state = ConstructionState::new();
    let a = "W1N1".to_string();
    let b = "E5S5".to_string();
    {
        let m = state.get_matrix_mut(&a, Point(20, 20));
        assert_eq!(m.take_next_tile(), Some(Point(20, 20)));
    }
    {
        let m = state.get_matrix_mut(&b, Point(30, 30));
        assert_eq!(m.peek_open_pos(), None);
    }
    {
        // the plan of a room is made once: the initial point is ignored now
        let m = state.get_matrix_mut(&a, Point(40, 40));
        assert_eq!(m.take_next_tile(), Some(Point(22, 20)));
    }
    assert_eq!(state.construction_matrices.len(), 2);
    assert_eq!(state.construction_matrices[0].0, "W1N1");
    assert_eq!(state.construction_matrices[1].0, "E5S5");
}

#[test]
fn construction_turns() {
    assert_eq!(construction_turn(10, 3), Some(1));
    assert_eq!(construction_turn(8, 3), None);
    assert_eq!(construction_turn(9, 3), Some(0));
    assert_eq!(construction_turn(7, 1), Some(0));
    assert_eq!(construction_turn(5, 1), None);
}

#[test]
fn structures_and_site_followups() {
    assert_eq!(
        structure_order(),
        [StructureKind::Tower, StructureKind::Extension, StructureKind::Extension, StructureKind::Spawn]
    );
    assert_eq!(after_site(SiteOutcome::Placed), SiteFollowup::NextPosition);
    assert_eq!(after_site(SiteOutcome::InvalidTarget), SiteFollowup::NextPosition);
    assert_eq!(after_site(SiteOutcome::Full), SiteFollowup::RoomFull);
    assert_eq!(after_site(SiteOutcome::Refused), SiteFollowup::SamePosition);
    assert_eq!(storage_site_result(SiteOutcome::Placed), Ok(()));
    assert!(storage_site_result(SiteOutcome::Full).is_err());
    assert!(storage_site_result(SiteOutcome::InvalidTarget).is_err());
}

#[test]
fn initial_square_falls_back() {
    assert_eq!(initial_square(Some(Point(3, 4)), Some(Point(5, 6))), Point(3, 4));
    assert_eq!(initial_square(None, Some(Point(5, 6))), Point(5, 6));
    assert_eq!(initial_square(None, None), Point(25, 25));
}

#[test]
fn first_spawn_goes_between_points_of_interest() {
    let sources = [Point(10, 10), Point(30, 20)];
    // (10,10) -> (20,15) -> halfway to the controller (40, 41): (30, 28)
    assert_eq!(find_initial_point(true, &sources, Some(Point(40, 41))), Ok(Point(30, 28)));
    assert_eq!(find_initial_point(true, &sources, None), Ok(Point(20, 15)));
    assert_eq!(find_initial_point(false, &sources, None), Err(InitialPointError::NotMine));
    assert_eq!(find_initial_point(true, &[Point(1, 1)], None), Err(InitialPointError::TooFewPoints));
}

#[test]
fn storage_goes_near_controller_and_sources() {
    let c = Some((Point(20, 20), 4));
    assert_eq!(storage_anchor(c, false, &[Point(10, 30)]), Ok(Point(15, 25)));
    // controller (20,20); halfway points (15,25) and (30,20); (20,20) -> (17,22) -> (23,21)
    assert_eq!(storage_anchor(c, false, &[Point(10, 30), Point(40, 20)]), Ok(Point(23, 21)));
    assert_eq!(storage_anchor(None, false, &[Point(1, 1)]), Err(StorageError::NoController));
    assert_eq!(storage_anchor(Some((Point(20, 20), 3)), false, &[Point(1, 1)]), Err(StorageError::LevelTooLow));
    assert_eq!(storage_anchor(c, true, &[Point(1, 1)]), Err(StorageError::HasStorage));
    assert_eq!(storage_anchor(c, false, &[]), Err(StorageError::NoSources));
}

#[test]
fn road_building_conditions() {
    assert_eq!(can_continue_building(2, false, true), Err(RoadBlock::LevelTooLow));
    assert_eq!(can_continue_building(3, true, true), Err(RoadBlock::IncompleteConstructions));
    assert_eq!(can_continue_building(3, false, false), Err(RoadBlock::NoTower));
    assert_eq!(can_continue_building(8, false, true), Ok(()));
    assert_eq!(road_steps(0), 0);
    assert_eq!(road_steps(1), 0);
    assert_eq!(road_steps(5), 4);
}

#[test]
fn roads_connect_unconnected_targets_to_the_first() {
    let mut grid = BitRoomGrid5050::default();
    assert_eq!(plan_roads(&mut grid, &[]), Err(RoadError::NothingToConnect));
    let targets = [Point(25, 25), Point(10, 10), Point(25, 25), Point(40, 3)];
    let (center, rest) = plan_roads(&mut grid, &targets).unwrap();
    assert_eq!(center, Point(25, 25));
    // the centre is connected now and left out
    assert_eq!(rest, vec![Point(10, 10), Point(40, 3)]);
    assert_eq!(grid.get(25, 25), 1);
    xenos::constructions::roads::mark_connected(&mut grid, Point(10, 10));
    let (_, rest) = plan_roads(&mut grid, &targets).unwrap();
    assert_eq!(rest, vec![Point(40, 3)]);
}

#[test]
fn at_most_sixteen_roads_a_tick() {
    let mut grid = BitRoomGrid5050::default();
    let mut targets = vec![Point(0, 0)];
    for i in 1..30 {
        targets.push(Point(i, 1));
    }
    let (_, rest) = plan_roads(&mut grid, &targets).unwrap();
    assert_eq!(rest.len(), 16);
    assert_eq!(rest[15], Point(16, 1));
}

#[test]
fn matrix_parts_round_trip() {
    let mut m = ConstructionMatrix::new().with_position(Point(25, 25));
    m.find_next_pos(&room()).unwrap();
    m.finish_survey(&room(), Point(25, 25), &[]).unwrap();
    let todo = m.todo_points();
    let open = m.open_points();
    let text = m.done_grid().compressed().unwrap();
    assert_eq!(text, "0_144-1_1-0_144");
    let done = FlagGrid1717::decompress(&text).unwrap();
    let mut back = ConstructionMatrix::from_parts(&todo, done, &open).unwrap();
    assert_eq!(back.todo_points(), todo);
    assert_eq!(back.open_points(), open);
    assert_eq!(back.pop_open_pos(), Some(Point(25, 25)));
    let too_many = vec![Point(10, 10); 9];
    let r = ConstructionMatrix::from_parts(&todo, FlagGrid1717::default(), &too_many);
    assert!(matches!(r, Err(QueueError::Full)));
}

#[test]
fn extension_search_spreads_from_the_spawn() {
    let mut search = ExtensionSearch::new(Point(25, 25));
    assert_eq!(search.next_candidate(), Some(Point(24, 25)));
    assert_eq!(search.record(ExtensionOutcome::Refused), ExtensionStep::Continue);
    assert_eq!(search.next_candidate(), Some(Point(26, 25)));
    assert_eq!(search.record(ExtensionOutcome::Placed), ExtensionStep::Continue);
    assert_eq!(search.next_candidate(), Some(Point(25, 24)));
    assert_eq!(search.next_candidate(), Some(Point(25, 26)));
    assert_eq!(search.next_candidate(), Some(Point(24, 24)));
    assert_eq!(search.record(ExtensionOutcome::Full), ExtensionStep::RoomFull);
    assert_eq!(search.record(ExtensionOutcome::RclNotEnough), ExtensionStep::Done);
    assert_eq!(search.placed(), 1);
}

#[test]
fn extension_search_stops_after_five_sites() {
    let mut search = ExtensionSearch::new(Point(10, 10));
    let mut seen = Vec::new();
    while let Some(p) = search.next_candidate() {
        assert!(!seen.contains(&p));
        seen.push(p);
        search.record(ExtensionOutcome::Placed);
    }
    assert_eq!(search.placed(), 5);
    assert_eq!(seen.len(), 5);
}

#[test]
fn extension_search_peeks_without_taking() {
    let mut search = ExtensionSearch::new(Point(5, 5));
    assert_eq!(search.peek_candidate(), Some(Point(4, 5)));
    assert_eq!(search.peek_candidate(), Some(Point(4, 5)));
    assert_eq!(search.next_candidate(), Some(Point(4, 5)));
    assert_eq!(search.peek_candidate(), Some(Point(6, 5)));
}
