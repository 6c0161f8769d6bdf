//! Behavior of the binding engine: edits, recalculation, load and save.

use gridbind::engine::{Document, Engine, LoadError, LoadFailure, Outputs, SaveError, SaveFailure};
use gridbind::model::{layout_order, CatalogEntry, Direction};

fn entry(id: u64, large: bool) -> CatalogEntry {
    CatalogEntry { id, large }
}

/// A small schema: two scalar fields (defaults 1.0 and 0.0, in
/// millionths), one storage group with items 1, 2, 3, and a thruster
/// catalog with items 10 and 11.
fn test_engine() -> Engine {
    let defaults: Vec<i64> = vec![1_000_000, 0];
    let groups = vec![vec![entry(1, false), entry(2, false), entry(3, true)]];
    let thrusters = vec![entry(10, false), entry(11, true)];
    Engine::new(defaults, &groups, &thrusters, None)
}

fn complete(engine: &mut Engine, values: Vec<u64>) {
    assert!(engine.needs_recalc());
    engine.complete_recalc(Outputs { values });
}

#[test]
fn new_engine_starts_at_defaults_and_owes_one_recalc() {
    let engine = test_engine();
    assert_eq!(engine.scalar_count(), 2);
    assert_eq!(engine.scalar_value(0), 1_000_000);
    assert_eq!(engine.scalar_value(1), 0);
    assert_eq!(engine.scalar_text(0), "");
    assert_eq!(engine.group_count(), 1);
    assert_eq!(engine.group_len(0), 3);
    assert_eq!(engine.count_of(0, 0), None);
    assert_eq!(engine.count_text(0, 0), "");
    assert_eq!(engine.thruster_len(), 2);
    assert_eq!(engine.thruster_count(Direction::Up, 0), None);
    assert!(engine.needs_recalc());
    assert!(engine.sink_values().is_none());
    assert!(engine.current_file_path().is_none());
}

#[test]
fn scalar_edit_writes_parsed_value_and_keeps_text() {
    let mut engine = test_engine();
    engine.edit_scalar(0, String::from("2.5"));
    assert_eq!(engine.scalar_value(0), 2_500_000);
    assert_eq!(engine.scalar_text(0), "2.5");
    assert!(engine.needs_recalc());
}

#[test]
fn unparseable_scalar_edit_falls_back_to_the_default() {
    let mut engine = test_engine();
    engine.edit_scalar(0, String::from("7.25"));
    assert_eq!(engine.scalar_value(0), 7_250_000);
    // The fallback is the configured default, not the prior value.
    engine.edit_scalar(0, String::from("not a number"));
    assert_eq!(engine.scalar_value(0), 1_000_000);
    assert_eq!(engine.scalar_text(0), "not a number");
    // The edit still counts as a mutation: recomputation is owed.
    assert!(engine.needs_recalc());
}

#[test]
fn unparseable_count_edit_falls_back_to_zero() {
    let mut engine = test_engine();
    engine.edit_count(0, 1, String::from("9"));
    assert_eq!(engine.count_of(0, 1), Some(9));
    engine.edit_count(0, 1, String::from("x"));
    assert_eq!(engine.count_of(0, 1), Some(0));
    assert!(engine.needs_recalc());
}

#[test]
fn recalc_settles_after_every_edit() {
    let mut engine = test_engine();
    complete(&mut engine, vec![100]);
    assert!(!engine.needs_recalc());
    assert_eq!(engine.sink_values().unwrap(), &vec![100]);

    engine.edit_scalar(1, String::from("3"));
    assert!(engine.needs_recalc());
    // The sink still shows the old frame until the host completes.
    assert_eq!(engine.sink_values().unwrap(), &vec![100]);
    complete(&mut engine, vec![200]);
    assert!(!engine.needs_recalc());
    assert_eq!(engine.sink_values().unwrap(), &vec![200]);
}

#[test]
fn directional_edits_touch_only_their_direction() {
    let mut engine = test_engine();
    engine.edit_thruster(Direction::Up, 0, String::from("4"));
    assert_eq!(engine.thruster_count(Direction::Up, 0), Some(4));
    for d in [
        Direction::Down,
        Direction::Front,
        Direction::Back,
        Direction::Left,
        Direction::Right,
    ] {
        assert_eq!(engine.thruster_count(d, 0), None);
        assert_eq!(engine.thruster_text(d, 0), "");
    }
    assert_eq!(engine.thruster_count(Direction::Up, 1), None);
    assert_eq!(engine.count_of(0, 0), None);
}

#[test]
fn load_replaces_model_and_refreshes_every_field() {
    let mut engine = test_engine();
    engine.edit_count(0, 2, String::from("8"));
    let doc = Document {
        scalars: vec![2_000_000, 500_000],
        // Item 1 loads with count 3, item 2 with count 0; item 3 is absent.
        groups: vec![vec![(1, 3), (2, 0)]],
        thrusters: vec![vec![(10, 5)], vec![], vec![], vec![], vec![], vec![]],
    };
    let r = engine.load_apply(Ok(doc), String::from("/tmp/a.json"), Some(String::from("/tmp")));
    assert!(r.is_ok());
    assert_eq!(engine.scalar_value(0), 2_000_000);
    assert_eq!(engine.scalar_text(0), "2.00");
    assert_eq!(engine.scalar_text(1), "0.50");
    // Present counts display their digits; absent items go blank.
    assert_eq!(engine.count_of(0, 0), Some(3));
    assert_eq!(engine.count_text(0, 0), "3");
    assert_eq!(engine.count_of(0, 1), Some(0));
    assert_eq!(engine.count_text(0, 1), "0");
    assert_eq!(engine.count_of(0, 2), None);
    assert_eq!(engine.count_text(0, 2), "");
    assert_eq!(engine.thruster_count(Direction::Up, 0), Some(5));
    assert_eq!(engine.thruster_text(Direction::Up, 0), "5");
    assert_eq!(engine.thruster_count(Direction::Down, 0), None);
    // Bookkeeping moved; one batched recalculation is owed.
    assert_eq!(engine.current_file_path().unwrap(), "/tmp/a.json");
    assert_eq!(engine.current_dir_path().unwrap(), "/tmp");
    assert!(engine.needs_recalc());
    // A blank edit of the blank field parses to the zero default.
    engine.edit_count(0, 2, String::new());
    assert_eq!(engine.count_of(0, 2), Some(0));
}

#[test]
fn load_drops_pairs_the_catalog_does_not_know() {
    let mut engine = test_engine();
    let doc = Document {
        scalars: vec![0, 0],
        groups: vec![vec![(99, 7), (2, 4)]],
        thrusters: vec![vec![], vec![], vec![], vec![], vec![], vec![]],
    };
    engine.load_apply(Ok(doc), String::from("p"), None).unwrap();
    assert_eq!(engine.count_of(0, 0), None);
    assert_eq!(engine.count_of(0, 1), Some(4));
    assert_eq!(engine.count_of(0, 2), None);
}

#[test]
fn failed_load_changes_nothing() {
    let mut engine = test_engine();
    engine.edit_scalar(0, String::from("3.5"));
    engine.edit_count(0, 0, String::from("6"));
    engine.edit_thruster(Direction::Left, 1, String::from("2"));
    complete(&mut engine, vec![7, 8]);

    for failure in [LoadFailure::Unreadable, LoadFailure::Unparseable] {
        let r = engine.load_apply(Err(failure), String::from("/nowhere"), None);
        match (failure, r) {
            (LoadFailure::Unreadable, Err(LoadError::FileUnreadable { path })) => {
                assert_eq!(path, "/nowhere");
            }
            (LoadFailure::Unparseable, Err(LoadError::ContentUnparseable { path })) => {
                assert_eq!(path, "/nowhere");
            }
            _ => panic!("wrong load outcome"),
        }
        // Model, field displays and sink are byte-for-byte untouched.
        assert_eq!(engine.scalar_value(0), 3_500_000);
        assert_eq!(engine.scalar_text(0), "3.5");
        assert_eq!(engine.count_of(0, 0), Some(6));
        assert_eq!(engine.count_text(0, 0), "6");
        assert_eq!(engine.thruster_count(Direction::Left, 1), Some(2));
        assert_eq!(engine.sink_values().unwrap(), &vec![7, 8]);
        assert!(engine.current_file_path().is_none());
        assert!(!engine.needs_recalc());
    }
}

#[test]
fn save_round_trip_restores_the_model() {
    let mut engine = test_engine();
    engine.edit_scalar(0, String::from("4.25"));
    engine.edit_scalar(1, String::from("12"));
    engine.edit_count(0, 0, String::from("5"));
    engine.edit_count(0, 1, String::from("0"));
    engine.edit_thruster(Direction::Front, 1, String::from("9"));

    let saved = engine.export();

    // A fresh engine over the same schema, loaded from the saved document,
    // exports the same model for the calculator.
    let mut other = test_engine();
    other
        .load_apply(Ok(saved), String::from("s"), None)
        .unwrap();
    assert_eq!(other.scalar_value(0), 4_250_000);
    assert_eq!(other.scalar_value(1), 12_000_000);
    assert_eq!(other.count_of(0, 0), Some(5));
    assert_eq!(other.count_of(0, 1), Some(0));
    assert_eq!(other.count_of(0, 2), None);
    assert_eq!(other.thruster_count(Direction::Front, 1), Some(9));
    assert_eq!(other.thruster_count(Direction::Back, 1), None);

    let a = engine.export();
    let b = other.export();
    assert_eq!(a.scalars, b.scalars);
    assert_eq!(a.groups, b.groups);
    assert_eq!(a.thrusters, b.thrusters);
}

#[test]
fn save_bookkeeping_moves_only_on_success() {
    let mut engine = test_engine();
    assert!(engine.save_target().is_none());

    let r = engine.save_commit(Err(SaveFailure::Unwritable), String::from("/x"), None);
    match r {
        Err(SaveError::FileUnwritable { path }) => assert_eq!(path, "/x"),
        _ => panic!("wrong save outcome"),
    }
    assert!(engine.save_target().is_none());

    let r = engine.save_commit(
        Err(SaveFailure::Unserializable),
        String::from("/y"),
        None,
    );
    match r {
        Err(SaveError::ContentUnserializable { path }) => assert_eq!(path, "/y"),
        _ => panic!("wrong save outcome"),
    }
    assert!(engine.save_target().is_none());

    let before = engine.export();
    let r = engine.save_commit(
        Ok(()),
        String::from("/tmp/out.json"),
        Some(String::from("/tmp")),
    );
    assert!(r.is_ok());
    assert_eq!(engine.save_target().unwrap(), "/tmp/out.json");
    assert_eq!(engine.current_dir_path().unwrap(), "/tmp");
    // A save never mutates the model.
    let after = engine.export();
    assert_eq!(before.scalars, after.scalars);
    assert_eq!(before.groups, after.groups);
    assert_eq!(before.thrusters, after.thrusters);
}

#[test]
fn lookup_tables_find_items_by_id() {
    let engine = test_engine();
    assert_eq!(engine.find_in_group(0, 2), Some(1));
    assert_eq!(engine.find_in_group(0, 99), None);
    assert_eq!(engine.group_item_id(0, 2), 3);
    assert_eq!(engine.find_thruster(11), Some(1));
    assert_eq!(engine.find_thruster(12), None);
}

#[test]
fn layout_puts_small_items_before_large_ones() {
    let entries = vec![entry(1, false), entry(2, true), entry(3, false), entry(4, true)];
    assert_eq!(layout_order(&entries), vec![0, 2, 1, 3]);
    let empty: Vec<CatalogEntry> = Vec::new();
    assert_eq!(layout_order(&empty), Vec::<usize>::new());
}

#[test]
fn directions_have_fixed_positions() {
    let all = [
        Direction::Up,
        Direction::Down,
        Direction::Front,
        Direction::Back,
        Direction::Left,
        Direction::Right,
    ];
    for (i, d) in all.iter().enumerate() {
        assert_eq!(d.index(), i);
    }
}
