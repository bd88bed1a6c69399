use valley::config::{build_config, ConfigError, FieldDescriptor};
use valley::record::record_fields;

fn field(indexed: bool, supports_index: bool) -> FieldDescriptor {
    FieldDescriptor { indexed, supports_index }
}

#[test]
fn marked_fields_are_indexed_and_the_rest_are_not() {
    let fields = vec![field(true, true), field(false, true), field(true, true)];
    let config = match build_config(&fields) {
        Ok(config) => config,
        Err(_) => panic!("a shape with indexable marked fields must be accepted"),
    };
    assert_eq!(config.indexed, vec![0, 2]);
    assert_eq!(config.non_indexed, vec![1]);
}

#[test]
fn no_mark_at_all_indexes_every_field() {
    let fields = vec![field(false, true), field(false, true), field(false, true)];
    let config = match build_config(&fields) {
        Ok(config) => config,
        Err(_) => panic!("the index-everything default must be accepted"),
    };
    assert_eq!(config.indexed, vec![0, 1, 2]);
    assert_eq!(config.non_indexed, Vec::<usize>::new());
}

#[test]
fn a_marked_field_without_equality_support_is_rejected() {
    let fields = vec![field(false, true), field(true, false)];
    match build_config(&fields) {
        Err(ConfigError::UnindexableField { position }) => assert_eq!(position, 1),
        _ => panic!("an unindexable marked field must be rejected"),
    }
}

#[test]
fn the_default_rule_can_also_hit_an_unindexable_field() {
    // No field is marked, so all are indexed by default; the second one
    // cannot be, and is the first offender.
    let fields = vec![field(false, true), field(false, false), field(false, false)];
    match build_config(&fields) {
        Err(ConfigError::UnindexableField { position }) => assert_eq!(position, 1),
        _ => panic!("the default rule must not index an unindexable field"),
    }
}

#[test]
fn an_unindexable_field_left_unindexed_is_fine() {
    let fields = vec![field(true, true), field(false, false)];
    let config = match build_config(&fields) {
        Ok(config) => config,
        Err(_) => panic!("an unindexed field needs no equality support"),
    };
    assert_eq!(config.indexed, vec![0]);
    assert_eq!(config.non_indexed, vec![1]);
}

#[test]
fn a_shape_without_fields_yields_no_index_and_is_rejected() {
    let fields: Vec<FieldDescriptor> = Vec::new();
    assert!(matches!(build_config(&fields), Err(ConfigError::NoIndexedField)));
}

#[test]
fn the_record_shape_yields_indices_on_a_and_b_only() {
    let fields = record_fields();
    let config = match build_config(&fields) {
        Ok(config) => config,
        Err(_) => panic!("the record shape must be accepted"),
    };
    assert_eq!(config.indexed, vec![0, 1]);
    assert_eq!(config.non_indexed, vec![2]);
}
