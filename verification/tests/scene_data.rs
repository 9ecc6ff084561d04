use gl_lib::scene_3d::{DataMap, SceneControllerSelected, SceneInputs};

#[test]
fn ids_count_up_from_one() {
    let mut m: DataMap<&str> = DataMap::default();
    assert_eq!(1, m.insert("a"));
    assert_eq!(2, m.insert("b"));
    assert_eq!(Some(&"a"), m.get(&1));
    assert_eq!(Some(&"b"), m.get(&2));
    assert_eq!(None, m.get(&0));
    assert_eq!(None, m.get(&3));
}

#[test]
fn insert_then_get_finds_the_value() {
    let mut m: DataMap<i32> = DataMap::default();
    let id = m.insert(41);
    let other = m.insert(7);
    assert_eq!(Some(&41), m.get(&id));
    assert_eq!(Some(&7), m.get(&other));
}

#[test]
fn get_mut_changes_only_its_entry() {
    let mut m: DataMap<i32> = DataMap::default();
    let a = m.insert(1);
    let b = m.insert(2);
    if let Some(v) = m.get_mut(&a) {
        *v = 10;
    }
    assert_eq!(Some(&10), m.get(&a));
    assert_eq!(Some(&2), m.get(&b));
    assert!(m.get_mut(&99).is_none());
}

#[test]
fn remove_then_get_finds_nothing_and_ids_are_not_reused() {
    let mut m: DataMap<String> = DataMap::default();
    let a = m.insert("x".to_string());
    let b = m.insert("y".to_string());
    assert_eq!(Some("x".to_string()), m.remove(&a));
    assert_eq!(None, m.get(&a));
    assert_eq!(None, m.remove(&a));
    assert_eq!(Some(&"y".to_string()), m.get(&b));
    let c = m.insert("z".to_string());
    assert_eq!(3, c);
    assert_ne!(a, c);
}

#[test]
fn scene_inputs_follow_the_selected_controller() {
    let mut inputs = SceneInputs { free: 1, follow: 2, selected: SceneControllerSelected::Free };
    assert_eq!(1, *inputs.current());
    *inputs.current_mut() = 5;
    assert_eq!(5, inputs.free);
    assert_eq!(2, inputs.follow);
    inputs.selected = SceneControllerSelected::Follow;
    assert_eq!(2, *inputs.current());
    *inputs.current_mut() += 1;
    assert_eq!(3, inputs.follow);
    assert_eq!(5, inputs.free);
}
