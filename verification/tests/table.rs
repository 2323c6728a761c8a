use ztunnel::table::{Key, Record, Table};

#[test]
fn a_table_binds_keys_to_values() {
    let mut t: Table<String, u16> = Table::new();
    assert!(t.is_empty());
    assert_eq!(t.len(), 0);
    assert_eq!(t.get(&"a".to_string()), None);
    t.insert("a".to_string(), 1);
    t.insert("b".to_string(), 2);
    t.insert("a".to_string(), 3);
    assert!(!t.is_empty());
    assert_eq!(t.len(), 2);
    assert_eq!(t.get(&"a".to_string()), Some(&3));
    assert_eq!(t.get(&"b".to_string()), Some(&2));
    assert!(t.contains_key(&"b".to_string()));
    assert!(!t.contains_key(&"c".to_string()));
    // a key that is bound anew keeps its place
    assert_eq!(t.key_list(), vec!["a".to_string(), "b".to_string()]);
    assert_eq!(t.key_at(1), "b");
    assert_eq!(t.value_at(1), &2);
    t.set_value_at(1, 20);
    assert_eq!(t.get(&"b".to_string()), Some(&20));
    assert_eq!(t.remove(&"a".to_string()), Some(3));
    assert_eq!(t.remove(&"a".to_string()), None);
    assert_eq!(t.key_list(), vec!["b".to_string()]);
    assert_eq!(t.len(), 1);
}

#[test]
fn tables_are_merged_and_copied() {
    let mut t: Table<u16, u16> = Table::new();
    t.insert(1, 10);
    t.insert(2, 20);
    let mut other: Table<u16, u16> = Table::new();
    other.insert(2, 21);
    other.insert(3, 30);
    t.absorb(&other);
    assert_eq!(t.len(), 3);
    assert_eq!(t.get(&1), Some(&10));
    assert_eq!(t.get(&2), Some(&21));
    assert_eq!(t.get(&3), Some(&30));
    let copy = t.duplicate();
    assert_eq!(copy, t);
    assert_eq!(t.clone(), t);
    t.remove_all(&vec![1, 3, 4]);
    assert_eq!(t.key_list(), vec![2]);
    assert_eq!(copy.len(), 3);
    t.insert_all(&vec![5, 2, 6], &7);
    assert_eq!(t.key_list(), vec![2, 5, 6]);
    assert_eq!(t.get(&2), Some(&7));
    assert_eq!(t.get(&6), Some(&7));
    assert!("x".to_string().same(&"x".to_string()));
    assert!(!"x".to_string().same(&"y".to_string()));
    assert!(7u16.same(&7));
    assert_eq!(().duplicate(), ());
}
