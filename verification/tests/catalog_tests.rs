use sokoban::direction::Direction;
use sokoban::levels_config::{LevelConfigData, LevelsConfig, LevelsConfigInternal};
use sokoban::save::SaveData;

fn sample_catalog() -> LevelsConfig {
    let levels = vec![
        LevelConfigData { name: "First".to_string(), data: vec!["#@#".to_string()] },
        LevelConfigData { name: "Second".to_string(), data: vec!["#+#".to_string()] },
    ];
    LevelsConfig::from_internal(LevelsConfigInternal { levels })
}

#[test]
fn catalog_hands_out_levels_by_index() {
    let c = sample_catalog();
    assert_eq!(c.total_levels(), 2);
    let first = c.get_level(0).unwrap();
    assert_eq!(first.name, "First");
    assert_eq!(first.data, vec!["#@#".to_string()]);
    let second = c.get_level(1).unwrap();
    assert_eq!(second.name, "Second");
}

#[test]
fn catalog_returns_none_past_the_end() {
    let c = sample_catalog();
    assert!(c.get_level(2).is_none());
    assert!(c.get_level(usize::MAX).is_none());
}

#[test]
fn empty_catalog_has_no_levels() {
    let c = LevelsConfig::from_internal(LevelsConfigInternal { levels: Vec::new() });
    assert_eq!(c.total_levels(), 0);
    assert!(c.get_level(0).is_none());
}

#[test]
fn save_data_starts_at_level_zero() {
    let s = SaveData::default();
    assert_eq!(s.get_max_unlocked_level(), 0);
}

#[test]
fn save_data_records_progress() {
    let mut s = SaveData::default();
    s.set_max_unlocked_level(7);
    assert_eq!(s.get_max_unlocked_level(), 7);
    s.set_max_unlocked_level(3);
    assert_eq!(s.get_max_unlocked_level(), 3);
}

#[test]
fn direction_offsets_match_the_grid() {
    assert_eq!(Direction::Left.to_offset(), (0, -1));
    assert_eq!(Direction::Right.to_offset(), (0, 1));
    assert_eq!(Direction::Up.to_offset(), (-1, 0));
    assert_eq!(Direction::Down.to_offset(), (1, 0));
}

#[test]
fn direction_inversion_is_an_involution() {
    for d in [Direction::Left, Direction::Right, Direction::Up, Direction::Down] {
        assert_eq!(d.invert().invert(), d);
        let (dr, dc) = d.to_offset();
        let (ir, ic) = d.invert().to_offset();
        assert_eq!(dr + ir, 0);
        assert_eq!(dc + ic, 0);
    }
}
