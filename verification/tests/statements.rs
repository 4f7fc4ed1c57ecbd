use std::hash::{BuildHasher, BuildHasherDefault, DefaultHasher};
use mission_centre_pg::collector::statements::{key_with_hash, statement_key, StatementId, StatementKey};

#[test]
fn a_null_query_id_falls_back_to_a_hash_of_the_text() {
    let key = statement_key(10, 20, None, "VACUUM orders");
    assert!(matches!(key.id, StatementId::TextHash(_)));
    assert_eq!(key, statement_key(10, 20, None, "VACUUM orders"));
}

#[test]
fn different_query_texts_do_not_collide_onto_one_key() {
    assert_ne!(
        statement_key(10, 20, None, "VACUUM orders"),
        statement_key(10, 20, None, "VACUUM customers")
    );
}

#[test]
fn a_present_query_id_is_used_in_preference_to_the_text() {
    assert_eq!(
        statement_key(10, 20, Some(42), "SELECT 1"),
        StatementKey {
            user_oid: 10,
            db_oid: 20,
            id: StatementId::QueryId(42),
        }
    );
}

#[test]
fn the_same_query_id_under_a_different_role_is_a_different_statement() {
    assert_ne!(
        statement_key(10, 20, Some(42), "SELECT 1"),
        statement_key(11, 20, Some(42), "SELECT 1")
    );
}

#[test]
fn the_text_hash_is_the_default_hasher_on_the_text() {
    let expected = BuildHasherDefault::<DefaultHasher>::default().hash_one("VACUUM orders");
    assert_eq!(
        statement_key(1, 2, None, "VACUUM orders").id,
        StatementId::TextHash(expected)
    );
    assert_ne!(expected, 0);
}

#[test]
fn a_key_built_from_a_hash_uses_it_only_without_a_query_id() {
    assert_eq!(
        key_with_hash(1, 2, None, 77),
        StatementKey { user_oid: 1, db_oid: 2, id: StatementId::TextHash(77) }
    );
    assert_eq!(
        key_with_hash(1, 2, Some(5), 77),
        StatementKey { user_oid: 1, db_oid: 2, id: StatementId::QueryId(5) }
    );
}

#[test]
fn the_same_query_id_in_another_database_is_another_statement() {
    assert_ne!(
        statement_key(10, 20, Some(42), "SELECT 1"),
        statement_key(10, 21, Some(42), "SELECT 1")
    );
}
