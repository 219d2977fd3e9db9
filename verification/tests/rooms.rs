use xenos::rooms::{manhatten_distance, WorldPosition};

#[test]
fn rooms_test_manhatten() {
    let a = "W43N1";
    let b = "W45S1";

    let d = manhatten_distance(a, b).expect("Failed to get the dinstance");

    assert_eq!(d, 4);
}

#[test]
fn mod_test_manhatten() {
    let a = "W43N1";
    let b = "W45S1";

    let d = manhatten_distance(a, b).expect("Failed to get the dinstance");

    assert_eq!(d, 4);
}

#[test]
fn rooms_test_string_conversion() {
    let pos = WorldPosition([12, 12]);
    let name = pos.to_string();
    assert_eq!(name.as_str(), "E12N12");

    let pos = WorldPosition([-12, 12]);
    let name = pos.to_string();
    assert_eq!(name.as_str(), "W12N12");

    let pos = WorldPosition([1, -8]);
    let name = pos.to_string();
    assert_eq!(name.as_str(), "E1S8");
}

#[test]
fn world_position_test_string_conversion() {
    let pos = WorldPosition([12, 12]);
    let name = pos.to_string();
    assert_eq!(name.as_str(), "E12N12");

    let pos = WorldPosition([-12, 12]);
    let name = pos.to_string();
    assert_eq!(name.as_str(), "W12N12");

    let pos = WorldPosition([1, -8]);
    let name = pos.to_string();
    assert_eq!(name.as_str(), "E1S8");
}

#[test]
fn parse_name_reads_signs() {
    assert_eq!(WorldPosition::parse_name("W43N1").unwrap(), WorldPosition([-43, 1]));
    assert_eq!(WorldPosition::parse_name("E0S7").unwrap(), WorldPosition([0, -7]));
    assert_eq!(WorldPosition::parse_name("sim").err(), Some("Failed to parse coordinates"));
    assert_eq!(WorldPosition::parse_name("E1N2S3").err(), Some("Failed to parse coordinates"));
}

#[test]
fn name_round_trip() {
    for x in -120..120i16 {
        let p = WorldPosition([x, 7 - x]);
        if x.abs() == 10 || x.abs() == 100 || (7 - x).abs() == 10 || (7 - x).abs() == 100 {
            continue;
        }
        let name = p.to_string();
        assert_eq!(WorldPosition::parse_name(name.as_str()).unwrap(), p);
    }
}

#[test]
fn powers_of_ten_lose_a_digit() {
    assert_eq!(WorldPosition([10, 100]).to_string().as_str(), "E0N00");
}

#[test]
fn neighbours_and_distance() {
    let p = WorldPosition([3, -2]);
    let n = p.neighbours_in_vectors();
    // north, west, south, east
    assert_eq!(n[0], WorldPosition([3, -1]));
    assert_eq!(n[1], WorldPosition([2, -2]));
    assert_eq!(n[2], WorldPosition([3, -3]));
    assert_eq!(n[3], WorldPosition([4, -2]));
    assert_eq!(p.dist(WorldPosition([-1, 5])), 11);
    assert!(manhatten_distance("W1N1", "nowhere").is_err());
}
