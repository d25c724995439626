use ade_core::registry::Registry;

#[test]
fn ids_start_at_one_and_increase() {
    let mut registry: Registry<&'static str> = Registry::new();
    assert!(registry.can_allocate());
    assert_eq!(registry.allocate_id(), 1);
    assert_eq!(registry.allocate_id(), 2);
    assert_eq!(registry.allocate_id(), 3);
}

#[test]
fn insert_fails_only_on_an_identifier_in_use() {
    let mut registry: Registry<&'static str> = Registry::new();
    let id = registry.allocate_id();
    assert_eq!(registry.insert(id, "first"), Ok(()));
    assert_eq!(registry.insert(id, "second"), Err("second"));
    assert_eq!(registry.get(id), Some(&"first"));
    assert_eq!(registry.len(), 1);
}

#[test]
fn removed_identifier_is_not_handed_out_again() {
    let mut registry: Registry<u8> = Registry::new();
    let first = registry.allocate_id();
    assert_eq!(registry.insert(first, 7), Ok(()));
    assert_eq!(registry.remove(first), Some(7));
    assert_eq!(registry.remove(first), None);
    assert!(!registry.contains(first));
    let second = registry.allocate_id();
    assert!(second > first);
}

#[test]
fn insert_marks_the_identifier_as_handed_out() {
    let mut registry: Registry<u8> = Registry::new();
    assert_eq!(registry.insert(10, 1), Ok(()));
    assert_eq!(registry.allocate_id(), 11);
}

#[test]
fn get_mut_changes_the_stored_session() {
    let mut registry: Registry<Vec<u8>> = Registry::new();
    let id = registry.allocate_id();
    assert_eq!(registry.insert(id, vec![1]), Ok(()));
    if let Some(session) = registry.get_mut(id) {
        session.push(2);
    }
    assert_eq!(registry.get(id), Some(&vec![1, 2]));
    assert!(registry.get_mut(id + 1).is_none());
}
