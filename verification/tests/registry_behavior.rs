use icon_layout::codec::encode_records_string;
use icon_layout::parse::parse_layout_str;
use icon_layout::record::IconRecord;
use icon_layout::registry::IconRegistry;

fn rec(name: &str, x: f32, y: f32) -> IconRecord {
    IconRecord { name: String::from(name), x_bits: x.to_bits(), y_bits: y.to_bits() }
}

fn names(list: &[&str]) -> Vec<String> {
    list.iter().map(|n| String::from(*n)).collect()
}

fn position(reg: &IconRegistry, i: usize) -> (String, f32, f32) {
    let r = reg.record_at(i);
    (r.name.clone(), f32::from_bits(r.x_bits), f32::from_bits(r.y_bits))
}

#[test]
fn merge_keeps_persisted_and_defaults_rest() {
    let listing = names(&["A", "B", "C"]);
    let layout = vec![rec("A", 5.0, 5.0)];
    let reg = IconRegistry::build(&listing, &layout);
    assert_eq!(reg.len(), 3);
    assert_eq!(position(&reg, 0), (String::from("A"), 5.0, 5.0));
    assert_eq!(position(&reg, 1), (String::from("B"), 0.0, 0.0));
    assert_eq!(position(&reg, 2), (String::from("C"), 0.0, 0.0));
}

#[test]
fn merge_discards_stale_layout_entries() {
    let listing = names(&["A", "B"]);
    let layout = vec![rec("A", 1.0, 2.0), rec("deleted file", 9.0, 9.0)];
    let reg = IconRegistry::build(&listing, &layout);
    assert_eq!(reg.len(), 2);
    assert!(reg.find(&String::from("deleted file")).is_none());
}

#[test]
fn unpositioned_entries_overlap_at_origin() {
    let listing = names(&["one", "two"]);
    let layout: Vec<IconRecord> = Vec::new();
    let reg = IconRegistry::build(&listing, &layout);
    assert_eq!(position(&reg, 0), (String::from("one"), 0.0, 0.0));
    assert_eq!(position(&reg, 1), (String::from("two"), 0.0, 0.0));
}

#[test]
fn duplicate_layout_names_last_write_wins() {
    let listing = names(&["A"]);
    let layout = vec![rec("A", 1.0, 1.0), rec("A", 8.0, -8.0)];
    let reg = IconRegistry::build(&listing, &layout);
    assert_eq!(position(&reg, 0), (String::from("A"), 8.0, -8.0));
}

#[test]
fn set_position_moves_exactly_one_record() {
    let listing = names(&["A", "B"]);
    let layout: Vec<IconRecord> = Vec::new();
    let mut reg = IconRegistry::build(&listing, &layout);
    let found = reg.set_position(&String::from("B"), (40.0f32).to_bits(), (-2.0f32).to_bits());
    assert!(found);
    assert_eq!(position(&reg, 0), (String::from("A"), 0.0, 0.0));
    assert_eq!(position(&reg, 1), (String::from("B"), 40.0, -2.0));
}

#[test]
fn set_position_unknown_name_changes_nothing() {
    let listing = names(&["A"]);
    let layout = vec![rec("A", 3.0, 4.0)];
    let mut reg = IconRegistry::build(&listing, &layout);
    let found = reg.set_position(&String::from("missing"), 0, 0);
    assert!(!found);
    assert_eq!(position(&reg, 0), (String::from("A"), 3.0, 4.0));
}

#[test]
fn save_reload_reproduces_every_position() {
    let listing = names(&["A", "B", "C"]);
    let layout = vec![rec("B", -1.5, 6.25)];
    let mut reg = IconRegistry::build(&listing, &layout);
    reg.set_position(&String::from("C"), (123.0f32).to_bits(), (456.0f32).to_bits());
    let written = reg.save_string();
    let reloaded = parse_layout_str(&written);
    assert_eq!(
        reloaded,
        vec![rec("A", 0.0, 0.0), rec("B", -1.5, 6.25), rec("C", 123.0, 456.0)]
    );
}

#[test]
fn mutation_after_snapshot_stays_out_of_that_write() {
    let listing = names(&["A", "B"]);
    let layout: Vec<IconRecord> = Vec::new();
    let mut reg = IconRegistry::build(&listing, &layout);

    let snapshot = reg.snapshot();
    let moved = reg.set_position(&String::from("A"), (77.0f32).to_bits(), (88.0f32).to_bits());
    assert!(moved);

    let earlier_write = encode_records_string(&snapshot);
    let from_earlier = parse_layout_str(&earlier_write);
    assert_eq!(from_earlier[0], rec("A", 0.0, 0.0));

    let next_write = reg.save_string();
    let from_next = parse_layout_str(&next_write);
    assert_eq!(from_next[0], rec("A", 77.0, 88.0));
    assert_eq!(from_next[1], rec("B", 0.0, 0.0));
}

#[test]
fn positions_persist_across_runs() {
    let listing = names(&["A", "B"]);
    let empty_layout: Vec<IconRecord> = Vec::new();
    let mut first_run = IconRegistry::build(&listing, &empty_layout);
    first_run.set_position(&String::from("A"), (10.5f32).to_bits(), (-4.25f32).to_bits());
    let written = first_run.save_string();

    let next_layout = parse_layout_str(&written);
    let next_run = IconRegistry::build(&listing, &next_layout);
    assert_eq!(position(&next_run, 0), (String::from("A"), 10.5, -4.25));
    assert_eq!(position(&next_run, 1), (String::from("B"), 0.0, 0.0));
}

#[test]
fn find_reports_membership() {
    let listing = names(&["x", "y"]);
    let layout: Vec<IconRecord> = Vec::new();
    let reg = IconRegistry::build(&listing, &layout);
    assert_eq!(reg.find(&String::from("y")), Some(1));
    assert_eq!(reg.find(&String::from("z")), None);
}
