//! Session store: migrations, inserts, queries.

use pomo_shell::store::{migrations, NewSession, SessionFilter, SessionStore, StoreError};

fn work_session(completed_at: &str, duration_seconds: u64) -> NewSession {
    NewSession::finished("work".to_string(), duration_seconds, completed_at.to_string())
}

fn full_range() -> SessionFilter {
    SessionFilter { from: "".to_string(), to: "9999".to_string(), mode: None }
}

fn migrated_store() -> SessionStore {
    let mut store = SessionStore::new();
    store.apply_migrations(&migrations());
    store
}

#[test]
fn store_is_unusable_before_migrations() {
    let mut store = SessionStore::new();
    assert_eq!(store.schema_version(), 0);
    assert!(!store.sessions_table_exists());
    assert_eq!(
        store.insert_session(&work_session("2024-01-01T09:00:00Z", 1500)),
        Err(StoreError::MissingSessionsTable)
    );
    assert!(store.query(&full_range()).is_err());
}

#[test]
fn migrations_create_schema_version_one() {
    let store = migrated_store();
    assert_eq!(store.schema_version(), 1);
    assert!(store.sessions_table_exists());
    assert!(store.completed_at_index_exists());
}

#[test]
fn migrations_are_idempotent_on_rerun() {
    let mut store = migrated_store();
    let list = migrations();
    store.insert_session(&work_session("2024-01-01T09:00:00Z", 1500)).unwrap();
    // A second startup pass over the same list changes nothing.
    store.apply_migrations(&list);
    assert_eq!(store.schema_version(), 1);
    assert!(store.sessions_table_exists());
    assert!(store.completed_at_index_exists());
    assert_eq!(store.session_count(), 1);
    let rows = store.query(&full_range()).unwrap();
    assert_eq!(rows.len(), 1);
    assert_eq!(rows[0].id, 1);
}

#[test]
fn insert_then_query_round_trips_the_row() {
    let mut store = migrated_store();
    let id = store
        .insert_session(&NewSession {
            mode: "work".to_string(),
            duration_seconds: 1500,
            completed_at: "2024-01-01T09:00:00Z".to_string(),
            completed: false,
        })
        .unwrap();
    assert_eq!(id, 1);
    let rows = store
        .query(&SessionFilter {
            from: "2024-01-01T00:00:00Z".to_string(),
            to: "2024-01-01T23:59:59Z".to_string(),
            mode: None,
        })
        .unwrap();
    assert_eq!(rows.len(), 1);
    assert_eq!(rows[0].id, 1);
    assert_eq!(rows[0].mode, "work");
    assert_eq!(rows[0].duration_seconds, 1500);
    assert_eq!(rows[0].completed_at, "2024-01-01T09:00:00Z");
    assert!(!rows[0].completed);
}

#[test]
fn two_inserts_get_ids_one_and_two_in_order() {
    let mut store = migrated_store();
    let first = store
        .insert_session(&NewSession {
            mode: "work".to_string(),
            duration_seconds: 1500,
            completed_at: "2024-01-01T09:00:00Z".to_string(),
            completed: true,
        })
        .unwrap();
    let second = store
        .insert_session(&NewSession {
            mode: "short-break".to_string(),
            duration_seconds: 300,
            completed_at: "2024-01-01T09:25:00Z".to_string(),
            completed: true,
        })
        .unwrap();
    assert_eq!(first, 1);
    assert_eq!(second, 2);
    let rows = store.query(&full_range()).unwrap();
    assert_eq!(rows.len(), 2);
    assert_eq!(rows[0].id, 1);
    assert_eq!(rows[0].mode, "work");
    assert_eq!(rows[0].duration_seconds, 1500);
    assert_eq!(rows[0].completed_at, "2024-01-01T09:00:00Z");
    assert!(rows[0].completed);
    assert_eq!(rows[1].id, 2);
    assert_eq!(rows[1].mode, "short-break");
    assert_eq!(rows[1].duration_seconds, 300);
    assert_eq!(rows[1].completed_at, "2024-01-01T09:25:00Z");
    assert!(rows[1].completed);
}

#[test]
fn duplicate_content_is_never_rejected() {
    let mut store = migrated_store();
    let row = work_session("2024-01-01T09:00:00Z", 1500);
    assert_eq!(store.insert_session(&row), Ok(1));
    assert_eq!(store.insert_session(&row), Ok(2));
    assert_eq!(store.session_count(), 2);
}

#[test]
fn query_filters_by_time_range() {
    let mut store = migrated_store();
    store.insert_session(&work_session("2024-01-01T09:00:00Z", 1500)).unwrap();
    store.insert_session(&work_session("2024-01-02T09:00:00Z", 1500)).unwrap();
    let rows = store
        .query(&SessionFilter {
            from: "2024-01-02T00:00:00Z".to_string(),
            to: "2024-01-02T23:59:59Z".to_string(),
            mode: None,
        })
        .unwrap();
    assert_eq!(rows.len(), 1);
    assert_eq!(rows[0].id, 2);
    let rows = store
        .query(&SessionFilter {
            from: "2023-01-01T00:00:00Z".to_string(),
            to: "2023-12-31T23:59:59Z".to_string(),
            mode: None,
        })
        .unwrap();
    assert!(rows.is_empty());
}

#[test]
fn query_filters_by_mode() {
    let mut store = migrated_store();
    store.insert_session(&work_session("2024-01-01T09:00:00Z", 1500)).unwrap();
    store
        .insert_session(&NewSession {
            mode: "short-break".to_string(),
            duration_seconds: 300,
            completed_at: "2024-01-01T09:25:00Z".to_string(),
            completed: true,
        })
        .unwrap();
    let mut filter = full_range();
    filter.mode = Some("short-break".to_string());
    let rows = store.query(&filter).unwrap();
    assert_eq!(rows.len(), 1);
    assert_eq!(rows[0].mode, "short-break");
    filter.mode = Some("long-break".to_string());
    assert!(store.query(&filter).unwrap().is_empty());
}

#[test]
fn query_orders_by_completed_at_ascending() {
    let mut store = migrated_store();
    // Inserted out of chronological order.
    store.insert_session(&work_session("2024-01-03T09:00:00Z", 1500)).unwrap();
    store.insert_session(&work_session("2024-01-01T09:00:00Z", 1500)).unwrap();
    store.insert_session(&work_session("2024-01-02T09:00:00Z", 1500)).unwrap();
    let rows = store.query(&full_range()).unwrap();
    assert_eq!(rows.len(), 3);
    assert_eq!(rows[0].completed_at, "2024-01-01T09:00:00Z");
    assert_eq!(rows[1].completed_at, "2024-01-02T09:00:00Z");
    assert_eq!(rows[2].completed_at, "2024-01-03T09:00:00Z");
}

#[test]
fn equal_timestamps_keep_insertion_order() {
    let mut store = migrated_store();
    store.insert_session(&work_session("2024-01-01T09:00:00Z", 1500)).unwrap();
    store.insert_session(&work_session("2024-01-01T09:00:00Z", 300)).unwrap();
    let rows = store.query(&full_range()).unwrap();
    assert_eq!(rows.len(), 2);
    assert_eq!(rows[0].id, 1);
    assert_eq!(rows[0].duration_seconds, 1500);
    assert_eq!(rows[1].id, 2);
    assert_eq!(rows[1].duration_seconds, 300);
}

#[test]
fn migration_list_is_ascending_from_version_one() {
    let list = migrations();
    assert_eq!(list.len(), 1);
    assert_eq!(list[0].version, 1);
    assert_eq!(list[0].steps.len(), 2);
}
