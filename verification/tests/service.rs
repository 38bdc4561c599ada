use jb_api::db::prompt::ComponentID;
use jb_api::service::{SequenceStore, ServiceError};

fn ids_of(store: &SequenceStore) -> Vec<u64> {
    store.list().iter().map(|c| c.component_id.0).collect()
}

fn assert_strictly_sorted(store: &SequenceStore) {
    let members = store.list();
    for pair in members.windows(2) {
        assert!(
            pair[0].ordering < pair[1].ordering,
            "orderings not strictly increasing: {} vs {}",
            pair[0].ordering,
            pair[1].ordering
        );
    }
}

#[test]
fn insert_reposition_remove_scenario() {
    // Empty sequence: insert A first, B after A, C at the front, then move A
    // behind B and finally remove B.
    let mut store = SequenceStore::new();
    let a = ComponentID(1);
    let b = ComponentID(2);
    let c = ComponentID(3);

    assert!(store.insert(true, a, "A".to_owned(), None).is_ok());
    assert_eq!(ids_of(&store), vec![1]);

    assert!(store.insert(true, b, "B".to_owned(), Some(a)).is_ok());
    assert_eq!(ids_of(&store), vec![1, 2]);
    assert_strictly_sorted(&store);

    assert!(store.insert(true, c, "C".to_owned(), None).is_ok());
    assert_eq!(ids_of(&store), vec![3, 1, 2]);
    assert_strictly_sorted(&store);

    assert!(store.reposition(true, a, Some(b)).is_ok());
    assert_eq!(ids_of(&store), vec![3, 2, 1]);
    assert_strictly_sorted(&store);

    assert!(store.remove(true, b).is_ok());
    assert_eq!(ids_of(&store), vec![3, 1]);
    assert_strictly_sorted(&store);
}

#[test]
fn reposition_with_unknown_predecessor_changes_nothing() {
    let mut store = SequenceStore::new();
    let a = ComponentID(1);
    let b = ComponentID(2);
    store.insert(true, a, "A".to_owned(), None).unwrap();
    store.insert(true, b, "B".to_owned(), Some(a)).unwrap();
    let before: Vec<(u64, String)> = store
        .list()
        .iter()
        .map(|c| (c.component_id.0, c.ordering.clone()))
        .collect();

    let err = store.reposition(true, a, Some(ComponentID(99))).unwrap_err();
    assert_eq!(err, ServiceError::PredecessorNotFound);

    let after: Vec<(u64, String)> = store
        .list()
        .iter()
        .map(|c| (c.component_id.0, c.ordering.clone()))
        .collect();
    assert_eq!(before, after, "a failed reposition must leave positions untouched");
}

#[test]
fn reposition_is_order_idempotent() {
    let mut store = SequenceStore::new();
    store.insert(true, ComponentID(1), "A".to_owned(), None).unwrap();
    store.insert(true, ComponentID(2), "B".to_owned(), Some(ComponentID(1))).unwrap();
    store.insert(true, ComponentID(3), "C".to_owned(), Some(ComponentID(2))).unwrap();

    store.reposition(true, ComponentID(1), Some(ComponentID(3))).unwrap();
    let once = ids_of(&store);
    store.reposition(true, ComponentID(1), Some(ComponentID(3))).unwrap();
    let twice = ids_of(&store);
    assert_eq!(once, twice);
    assert_eq!(twice, vec![2, 3, 1]);
}

#[test]
fn reposition_twice_in_one_call_keeps_the_single_call_order() {
    let mut store = SequenceStore::new();
    store.insert(true, ComponentID(1), "A".to_owned(), None).unwrap();
    store.insert(true, ComponentID(2), "B".to_owned(), Some(ComponentID(1))).unwrap();
    store.insert(true, ComponentID(3), "C".to_owned(), Some(ComponentID(2))).unwrap();
    jb_api::service::reposition_twice_keeps_order(
        &mut store,
        ComponentID(1),
        Some(ComponentID(3)),
    );
    assert_eq!(ids_of(&store), vec![2, 3, 1]);
}

#[test]
fn reposition_cannot_use_itself_as_predecessor() {
    let mut store = SequenceStore::new();
    store.insert(true, ComponentID(1), "A".to_owned(), None).unwrap();
    let err = store.reposition(true, ComponentID(1), Some(ComponentID(1))).unwrap_err();
    assert_eq!(err, ServiceError::PredecessorNotFound);
}

#[test]
fn reposition_missing_member_reports_member_not_found() {
    let mut store = SequenceStore::new();
    store.insert(true, ComponentID(1), "A".to_owned(), None).unwrap();
    let err = store.reposition(true, ComponentID(42), None).unwrap_err();
    assert_eq!(err, ServiceError::MemberNotFound);
}

#[test]
fn insert_with_unknown_predecessor_is_rejected() {
    let mut store = SequenceStore::new();
    let err = store
        .insert(true, ComponentID(1), "A".to_owned(), Some(ComponentID(9)))
        .unwrap_err();
    assert_eq!(err, ServiceError::PredecessorNotFound);
    assert!(store.list().is_empty());
}

#[test]
fn remove_is_idempotent_on_absent_members() {
    let mut store = SequenceStore::new();
    store.insert(true, ComponentID(1), "A".to_owned(), None).unwrap();
    assert!(store.remove(true, ComponentID(7)).is_ok());
    assert_eq!(ids_of(&store), vec![1]);
}

#[test]
fn set_text_changes_only_the_text() {
    let mut store = SequenceStore::new();
    store.insert(true, ComponentID(1), "old".to_owned(), None).unwrap();
    store.insert(true, ComponentID(2), "keep".to_owned(), Some(ComponentID(1))).unwrap();
    let ordering_before = store.get(ComponentID(1)).unwrap().ordering.clone();

    store.set_text(true, ComponentID(1), "new".to_owned()).unwrap();

    let member = store.get(ComponentID(1)).unwrap();
    assert_eq!(member.text, "new");
    assert_eq!(member.ordering, ordering_before);
    assert_eq!(store.get(ComponentID(2)).unwrap().text, "keep");

    let err = store.set_text(true, ComponentID(9), "x".to_owned()).unwrap_err();
    assert_eq!(err, ServiceError::MemberNotFound);
}

#[test]
fn unauthorized_callers_change_nothing() {
    let mut store = SequenceStore::new();
    store.insert(true, ComponentID(1), "A".to_owned(), None).unwrap();
    let before = ids_of(&store);

    assert_eq!(
        store.insert(false, ComponentID(2), "B".to_owned(), None).unwrap_err(),
        ServiceError::NotAuthorized
    );
    assert_eq!(
        store.reposition(false, ComponentID(1), None).unwrap_err(),
        ServiceError::NotAuthorized
    );
    assert_eq!(
        store.remove(false, ComponentID(1)).unwrap_err(),
        ServiceError::NotAuthorized
    );
    assert_eq!(
        store.set_text(false, ComponentID(1), "x".to_owned()).unwrap_err(),
        ServiceError::NotAuthorized
    );
    assert_eq!(ids_of(&store), before);
}

#[test]
fn fifty_inserts_at_the_same_location_stay_ordered() {
    let mut store = SequenceStore::new();
    store.insert(true, ComponentID(0), "anchor".to_owned(), None).unwrap();
    for n in 1..=50u64 {
        store
            .insert(true, ComponentID(n), format!("m{n}"), Some(ComponentID(0)))
            .unwrap();
        assert_strictly_sorted(&store);
    }
    let ids = ids_of(&store);
    assert_eq!(ids.len(), 51);
    assert_eq!(ids[0], 0);
    // Later inserts after the same anchor land closer to it.
    let expected: Vec<u64> = std::iter::once(0).chain((1..=50).rev()).collect();
    assert_eq!(ids, expected);
    for member in store.list() {
        assert!(member.ordering.len() <= 60);
    }
}

#[test]
fn service_error_table() {
    assert_eq!(ServiceError::NotAuthorized.kind(), "NotAuthorized");
    assert_eq!(ServiceError::MemberNotFound.kind(), "MemberNotFound");
    assert_eq!(ServiceError::PredecessorNotFound.kind(), "PredecessorNotFound");
    assert_eq!(ServiceError::NotAuthorized.status_code(), 403);
    assert_eq!(ServiceError::MemberNotFound.status_code(), 404);
    assert_eq!(ServiceError::PredecessorNotFound.status_code(), 404);
    assert_eq!(ServiceError::MemberNotFound.message(), "Component does not exist");
}
