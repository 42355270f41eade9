use bliss_mixer::rowid::rowid_or_zero;
use bliss_mixer::weights::{overwrite_weights, weight_fields};
use bliss_mixer::DIMENSIONS;

#[test]
fn weight_fields_in_order() {
    let fields = weight_fields("1.0,2.5,0");
    assert_eq!(fields, vec!["1.0".to_string(), "2.5".to_string(), "0".to_string()]);
}

#[test]
fn weight_fields_beyond_dimensions_are_ignored() {
    let setting: Vec<String> = (0..30).map(|i| i.to_string()).collect();
    let fields = weight_fields(&setting.join(","));
    assert_eq!(fields.len(), DIMENSIONS);
    assert_eq!(fields[0], "0");
    assert_eq!(fields[DIMENSIONS - 1], "22");
}

#[test]
fn weight_fields_of_empty_setting() {
    assert_eq!(weight_fields(""), vec![String::new()]);
}

#[test]
fn weight_fields_are_not_trimmed() {
    assert_eq!(weight_fields("1, 2"), vec!["1".to_string(), " 2".to_string()]);
}

#[test]
fn overwrite_first_weights_only() {
    let mut weights: [f32; DIMENSIONS] = [1.0; DIMENSIONS];
    overwrite_weights(&mut weights, &vec![0.5, 2.0]);
    assert_eq!(weights[0], 0.5);
    assert_eq!(weights[1], 2.0);
    for w in &weights[2..] {
        assert_eq!(*w, 1.0);
    }
}

#[test]
fn overwrite_all_weights() {
    let mut weights: [u32; DIMENSIONS] = [7; DIMENSIONS];
    let values: Vec<u32> = (0..DIMENSIONS as u32).collect();
    overwrite_weights(&mut weights, &values);
    assert_eq!(weights.to_vec(), values);
}

#[test]
fn overwrite_with_nothing_keeps_weights() {
    let mut weights: [u32; DIMENSIONS] = [3; DIMENSIONS];
    overwrite_weights(&mut weights, &Vec::new());
    assert_eq!(weights, [3; DIMENSIONS]);
}

#[test]
fn rowid_found_or_zero() {
    assert_eq!(rowid_or_zero(Some(1)), 1);
    assert_eq!(rowid_or_zero(Some(181)), 181);
    assert_eq!(rowid_or_zero(None), 0);
}
