use std::cmp::Ordering;

use equistore_labels::{is_valid_label_name, is_valid_schema, LabelValue, Labels, LabelsBuilder, LabelsError};

fn lv(values: &[i32]) -> Vec<LabelValue> {
    values.iter().map(|&v| LabelValue::new(v)).collect()
}

fn build(names: Vec<&str>, rows: &[&[i32]]) -> Labels {
    let mut builder = LabelsBuilder::new(names);
    for row in rows {
        builder.add(&lv(row)).unwrap();
    }
    builder.finish()
}

#[test]
fn label_value_conversions() {
    let v = LabelValue::new(-3);
    assert_eq!(v.i32(), -3);
    assert_eq!(v.isize(), -3);
    assert_eq!(LabelValue::new(7).usize(), 7);
    assert_eq!(LabelValue::from(12).i32(), 12);
    assert_eq!(LabelValue::from_u32(2147483647).i32(), i32::MAX);
    assert_eq!(LabelValue::from_usize(42).i32(), 42);
    assert_eq!(LabelValue::from_isize(-2147483648).i32(), i32::MIN);
    assert!(LabelValue::new(1) < LabelValue::new(2));
    assert_eq!(LabelValue::new(5), LabelValue::new(5));
}

#[test]
fn valid_label_names() {
    assert!(is_valid_label_name("a1"));
    assert!(is_valid_label_name("_x"));
    assert!(is_valid_label_name("foo_bar"));
    assert!(is_valid_label_name("Z"));
    assert!(!is_valid_label_name("1abc"));
    assert!(!is_valid_label_name(""));
    assert!(!is_valid_label_name("a-b"));
    assert!(!is_valid_label_name("a b"));
    assert!(!is_valid_label_name("é"));
}

#[test]
fn schema_validation() {
    assert!(is_valid_schema(&["a", "b"]));
    assert!(is_valid_schema(&[]));
    assert!(!is_valid_schema(&["a", "a"]));
    assert!(!is_valid_schema(&["a", "1b"]));
    assert!(!is_valid_schema(&["ab", "c", "ab"]));
}

#[test]
fn two_columns_two_rows() {
    let labels = build(vec!["a", "b"], &[&[1, 2], &[3, 4]]);
    assert_eq!(labels.size(), 2);
    assert_eq!(labels.count(), 2);
    assert!(!labels.is_empty());
    assert_eq!(labels.position(&lv(&[1, 2])), Some(0));
    assert_eq!(labels.position(&lv(&[3, 4])), Some(1));
    assert_eq!(labels.position(&lv(&[9, 9])), None);
    assert!(labels.contains(&lv(&[3, 4])));
    assert!(!labels.contains(&lv(&[4, 3])));
    assert!(!labels.contains(&lv(&[1])));
    assert_eq!(labels.names(), vec!["a", "b"]);
    assert_eq!(labels.index(0), &lv(&[1, 2])[..]);
    assert_eq!(labels.index(1), &lv(&[3, 4])[..]);
    assert_eq!(labels.values(), &lv(&[1, 2, 3, 4])[..]);
}

#[test]
fn c_names_are_null_terminated() {
    let labels = build(vec!["atom", "_s1"], &[]);
    let c = labels.c_names();
    assert_eq!(c.len(), 2);
    assert_eq!(c[0], b"atom\0".to_vec());
    assert_eq!(c[1], b"_s1\0".to_vec());
}

#[test]
fn duplicate_row_is_refused() {
    let mut builder = LabelsBuilder::new(vec!["x", "y"]);
    builder.add(&lv(&[0, 1])).unwrap();
    builder.add(&lv(&[2, 3])).unwrap();
    match builder.add(&lv(&[2, 3])) {
        Err(LabelsError::DuplicateEntry { values, position }) => {
            assert_eq!(values, lv(&[2, 3]));
            assert_eq!(position, 1);
        }
        Ok(()) => panic!("a duplicate row was accepted"),
    }
    // the builder stays usable after a refusal
    builder.add(&lv(&[4, 5])).unwrap();
    let labels = builder.finish();
    assert_eq!(labels.count(), 3);
    assert_eq!(labels.position(&lv(&[4, 5])), Some(2));
}

#[test]
fn distinct_rows_get_insertion_positions() {
    let rows: Vec<Vec<i32>> = (0..50).map(|i| vec![i % 7, i / 7, -i]).collect();
    let mut builder = LabelsBuilder::new(vec!["p", "q", "r"]);
    assert_eq!(builder.size(), 3);
    for row in &rows {
        builder.add(&lv(row)).unwrap();
    }
    let labels = builder.finish();
    assert_eq!(labels.count(), rows.len());
    for (i, row) in rows.iter().enumerate() {
        assert!(labels.contains(&lv(row)));
        assert_eq!(labels.position(&lv(row)), Some(i));
        assert_eq!(labels.index(i), &lv(row)[..]);
    }
}

#[test]
fn wide_rows_beyond_inline_capacity() {
    let labels = build(vec!["a", "b", "c", "d", "e", "f"], &[&[1, 2, 3, 4, 5, 6], &[1, 2, 3, 4, 5, 7]]);
    assert_eq!(labels.count(), 2);
    assert_eq!(labels.position(&lv(&[1, 2, 3, 4, 5, 7])), Some(1));
    assert_eq!(labels.position(&lv(&[1, 2, 3, 4, 5, 8])), None);
}

#[test]
fn iteration_in_position_order_and_restartable() {
    let labels = build(vec!["a"], &[&[5], &[3], &[9]]);
    let mut first = Vec::new();
    let mut it = labels.iter();
    assert_eq!(it.len(), 3);
    while let Some(row) = it.next() {
        first.push(row.to_vec());
    }
    assert_eq!(it.len(), 0);
    assert!(it.next().is_none());
    assert_eq!(first, vec![lv(&[5]), lv(&[3]), lv(&[9])]);
    let mut second = Vec::new();
    let mut again = labels.iter();
    while let Some(row) = again.next() {
        second.push(row.to_vec());
    }
    assert_eq!(first, second);
}

#[test]
fn zero_columns_give_empty_labels() {
    let builder = LabelsBuilder::new(vec![]);
    assert_eq!(builder.size(), 0);
    let labels = builder.finish();
    assert_eq!(labels.size(), 0);
    assert_eq!(labels.count(), 0);
    assert!(labels.is_empty());
    assert!(labels.names().is_empty());
    assert!(labels.iter().next().is_none());
}

#[test]
fn empty_labels_with_columns() {
    let labels = build(vec!["a", "b"], &[]);
    assert_eq!(labels.count(), 0);
    assert!(labels.is_empty());
    assert_eq!(labels.position(&lv(&[0, 0])), None);
}

#[test]
fn rebuild_from_flat_values() {
    let source = build(vec!["s", "t"], &[&[1, 1], &[0, 2], &[-4, 7]]);
    let names = source.names();
    let flat = source.values().to_vec();
    let rebuilt = match Labels::from_flat(names, &flat) {
        Ok(l) => l,
        Err(_) => panic!("rebuilding refused"),
    };
    assert_eq!(rebuilt.count(), source.count());
    assert_eq!(rebuilt.names(), source.names());
    for probe in [[1, 1], [0, 2], [-4, 7], [2, 0], [7, -4]] {
        assert_eq!(rebuilt.contains(&lv(&probe)), source.contains(&lv(&probe)));
        assert_eq!(rebuilt.position(&lv(&probe)), source.position(&lv(&probe)));
    }
}

#[test]
fn rebuild_from_flat_values_with_duplicate() {
    let flat = lv(&[1, 2, 3, 4, 1, 2]);
    match Labels::from_flat(vec!["a", "b"], &flat) {
        Err(LabelsError::DuplicateEntry { values, position }) => {
            assert_eq!(values, lv(&[1, 2]));
            assert_eq!(position, 0);
        }
        Ok(_) => panic!("duplicate rows were accepted"),
    }
}

#[test]
fn rebuild_with_no_columns() {
    let labels = match Labels::from_flat(vec![], &[]) {
        Ok(l) => l,
        Err(_) => panic!("rebuilding refused"),
    };
    assert_eq!(labels.count(), 0);
}

#[test]
fn cloned_labels_answer_alike() {
    let labels = build(vec!["a", "b"], &[&[1, 2], &[3, 4]]);
    let copy = labels.clone();
    assert_eq!(copy.names(), labels.names());
    assert_eq!(copy.values(), labels.values());
    assert_eq!(copy.c_names(), labels.c_names());
    assert_eq!(copy.position(&lv(&[3, 4])), Some(1));
    assert_eq!(copy.position(&lv(&[1, 2])), Some(0));
    assert_eq!(copy.position(&lv(&[2, 1])), None);
}

#[test]
fn reserve_changes_nothing() {
    let mut builder = LabelsBuilder::new(vec!["a"]);
    builder.add(&lv(&[1])).unwrap();
    builder.reserve(100);
    builder.reserve(usize::MAX);
    builder.add(&lv(&[2])).unwrap();
    let labels = builder.finish();
    assert_eq!(labels.count(), 2);
    assert_eq!(labels.position(&lv(&[2])), Some(1));
}

#[test]
fn equality_compares_names_and_values() {
    let a = build(vec!["a", "b"], &[&[1, 2], &[3, 4]]);
    let b = build(vec!["a", "b"], &[&[1, 2], &[3, 4]]);
    let reordered = build(vec!["a", "b"], &[&[3, 4], &[1, 2]]);
    let renamed = build(vec!["a", "c"], &[&[1, 2], &[3, 4]]);
    let shorter = build(vec!["a", "b"], &[&[1, 2]]);
    assert!(a == b);
    assert!(a == a.clone());
    assert!(a != reordered);
    assert!(a != renamed);
    assert!(a != shorter);
}

#[test]
fn label_values_compare_with_integers() {
    assert!(LabelValue::new(4) == 4);
    assert!(LabelValue::new(4) != 5);
    assert!(4 == LabelValue::new(4));
    assert!(-1 != LabelValue::new(1));
    assert_eq!(LabelValue::from(-9), LabelValue::new(-9));
}

#[test]
fn label_values_order_as_integers() {
    assert_eq!(LabelValue::new(-2).partial_cmp(&LabelValue::new(3)), Some(Ordering::Less));
    assert_eq!(LabelValue::new(3).partial_cmp(&LabelValue::new(3)), Some(Ordering::Equal));
    assert_eq!(LabelValue::new(7).partial_cmp(&LabelValue::new(3)), Some(Ordering::Greater));
    assert_eq!(LabelValue::new(-2).cmp(&LabelValue::new(3)), Ordering::Less);
    assert!(LabelValue::new(i32::MIN) < LabelValue::new(i32::MAX));
}
