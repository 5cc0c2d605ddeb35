use futures_orchestra::task::LabelSet;

#[test]
fn a_label_is_kept_once() {
    let mut set = LabelSet::new();
    assert!(set.is_empty());
    assert!(set.insert("red".to_string()));
    assert!(!set.insert("red".to_string()));
    assert_eq!(set.len(), 1);
    assert!(set.contains(&"red".to_string()));
    assert!(!set.contains(&"blue".to_string()));
}

fn set(names: &[&str]) -> LabelSet {
    LabelSet::from_labels(names.iter().map(|s| (*s).to_string()).collect())
}

#[test]
fn label_sets_are_disjoint_without_a_common_label() {
    assert!(set(&["a", "b"]).is_disjoint(&set(&["c"])));
    assert!(!set(&["a", "b"]).is_disjoint(&set(&["c", "b"])));
    assert!(set(&[]).is_disjoint(&set(&["a"])));
    assert!(set(&["a"]).is_disjoint(&set(&[])));
}

#[test]
fn a_label_set_lists_each_label_once() {
    let labels = set(&["x", "y", "x"]);
    let mut listed = labels.to_vec();
    listed.sort();
    assert_eq!(listed, vec!["x".to_string(), "y".to_string()]);
    let copy = labels.clone();
    assert_eq!(copy.len(), 2);
    assert_eq!(LabelSet::single("z".to_string()).to_vec(), vec!["z".to_string()]);
}
