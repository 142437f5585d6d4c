use superwork::group;

fn texts(ts: &[&str]) -> Vec<String> {
    ts.iter().map(|t| t.to_string()).collect()
}

#[test]
fn groups_gather_equal_keys_in_order() {
    let groups = group::groups_of(&texts(&["b", "a", "b", "c", "a"]));
    let keys: Vec<&str> = groups.iter().map(|g| g.key.as_str()).collect();
    assert_eq!(keys, vec!["a", "b", "c"]);
    assert_eq!(groups[0].members, vec![1, 4]);
    assert_eq!(groups[1].members, vec![0, 2]);
    assert_eq!(groups[2].members, vec![3]);
}

#[test]
fn distinct_texts_are_sorted_once() {
    assert_eq!(group::distinct_sorted(&texts(&["b", "a", "b"])), texts(&["a", "b"]));
    let mut list = texts(&["a", "c"]);
    group::insert_distinct(&mut list, "b".to_string());
    group::insert_distinct(&mut list, "c".to_string());
    assert_eq!(list, texts(&["a", "b", "c"]));
}

#[test]
fn ranking_is_stable_and_complete() {
    assert_eq!(group::ranked(&vec![1, 3, 2, 3]), vec![1, 3, 2, 0]);
    assert_eq!(group::ranked(&Vec::new()), Vec::<usize>::new());
    assert_eq!(group::sorted_places(&texts(&["c", "a", "b", "a"])), vec![1, 3, 2, 0]);
    assert_eq!(group::places_of(&texts(&["x", "y", "x"]), "x"), vec![0, 2]);
}
