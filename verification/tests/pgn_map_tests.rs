use bgfastnet_lib::pgn_map::{get_paths_for_pgn, get_pgn_for_path, get_pgn_name};

#[test]
fn test_get_pgn_for_path() {
    assert_eq!(
        get_pgn_for_path("environment.wind.speedApparent"),
        Some((128258, "Apparent Wind Speed"))
    );
    assert_eq!(get_pgn_for_path("navigation.headingTrue"), Some((127250, "Heading")));
    assert_eq!(get_pgn_for_path("navigation.position"), Some((129025, "Position (Latitude)")));
    assert_eq!(get_pgn_for_path("unknown.path"), None);
}

#[test]
fn test_get_paths_for_pgn() {
    let paths = get_paths_for_pgn(127250);
    assert!(paths.contains(&"navigation.headingTrue"));
    assert!(paths.contains(&"navigation.headingMagnetic"));
}

#[test]
fn test_get_pgn_name() {
    assert_eq!(get_pgn_name(128258), Some("Apparent Wind Speed"));
    assert_eq!(get_pgn_name(99999), None);
}

#[test]
fn paths_for_pgn_in_table_order() {
    assert_eq!(
        get_paths_for_pgn(129291),
        vec!["navigation.speedOverGround", "navigation.courseOverGroundTrue"]
    );
    assert_eq!(get_paths_for_pgn(127245), vec!["navigation.rateOfTurn"]);
    assert!(get_paths_for_pgn(1).is_empty());
}

#[test]
fn listed_paths_map_back_to_their_pgn() {
    for pgn in [127240, 127245, 127249, 127250, 127251, 127257, 128258, 128259, 128267, 128275, 129025, 129291] {
        let paths = get_paths_for_pgn(pgn);
        assert!(!paths.is_empty());
        for p in paths {
            let (found, name) = get_pgn_for_path(p).unwrap();
            assert_eq!(found, pgn);
            assert_eq!(get_pgn_name(pgn), Some(name));
        }
    }
}

#[test]
fn pgn_name_iff_paths() {
    for pgn in [0u32, 127240, 127241, 127251, 129025, 129292, 4294967295] {
        assert_eq!(get_pgn_name(pgn).is_some(), !get_paths_for_pgn(pgn).is_empty());
    }
}

#[test]
fn path_lookup_is_exact() {
    assert_eq!(get_pgn_for_path("navigation.attitude.rol"), None);
    assert_eq!(get_pgn_for_path("Navigation.attitude.roll"), None);
    assert_eq!(get_pgn_for_path(""), None);
    assert_eq!(get_pgn_for_path("steering.rudderAngle"), Some((127251, "Vessel Heading")));
}
