use gjallarbot::data::Data;
use gjallarbot::json::Json;
use gjallarbot::servitor::{
    describe_server, list_servers, permit_role, permit_user, revoke_role, revoke_user, AddPermissionError,
    DiscordEntity, RemovePermissionError, ServerError,
};
use gjallarbot::store::PersistentJson;

fn s(x: &str) -> String {
    x.to_string()
}

fn numbers(v: &[u64]) -> Json {
    Json::Array(v.iter().map(|x| Json::Unsigned(*x)).collect())
}

fn store_with_server(users: &[u64], roles: &[u64]) -> PersistentJson<Data> {
    let record = Json::Object(vec![
        (s("servitor"), Json::Str(s("foo"))),
        (s("unit_name"), Json::Str(s("bar"))),
        (s("authorized_users"), numbers(users)),
        (s("authorized_roles"), numbers(roles)),
    ]);
    let doc = Json::Object(vec![(s("servitor"), Json::Object(vec![(s("SomeServer"), record)]))]);
    PersistentJson::new(s("data.json"), Some(&doc)).unwrap()
}

fn empty_store() -> PersistentJson<Data> {
    PersistentJson::new(s("data.json"), None).unwrap()
}

#[test]
fn given_non_existing_server_then_permit_user_returns_error_and_does_not_modify_data() {
    let mut data = empty_store();
    let result = permit_user(&mut data, "NonExistingServer", 12345678901234567);
    assert_eq!(
        result,
        Err(AddPermissionError::Server(ServerError::DoesNotExist { server_name: s("NonExistingServer") }))
    );
    assert!(list_servers(&data).is_empty());
}

#[test]
fn given_already_authorized_user_then_permit_user_returns_error_and_does_not_modify_data() {
    let mut data = store_with_server(&[12345678901234567], &[]);
    let result = permit_user(&mut data, "SomeServer", 12345678901234567);
    assert_eq!(
        result,
        Err(AddPermissionError::AlreadyAuthorized {
            server_name: s("SomeServer"),
            entity: DiscordEntity::User(12345678901234567)
        })
    );
    assert_eq!(describe_server(&data, "SomeServer").unwrap().authorized_users.len(), 1);
}

#[test]
fn given_new_user_then_permit_user_returns_success_and_adds_user() {
    let mut data = store_with_server(&[], &[]);
    let result = permit_user(&mut data, "SomeServer", 12345678901234567);
    assert_eq!(result, Ok(()));
    assert!(describe_server(&data, "SomeServer").unwrap().authorized_users.contains(12345678901234567));
}

#[test]
fn given_non_existing_server_then_revoke_user_returns_error_and_does_not_modify_data() {
    let mut data = empty_store();
    let result = revoke_user(&mut data, "NonExistingServer", 12345678901234567);
    assert_eq!(
        result,
        Err(RemovePermissionError::Server(ServerError::DoesNotExist { server_name: s("NonExistingServer") }))
    );
    assert!(list_servers(&data).is_empty());
}

#[test]
fn given_not_authorized_user_then_revoke_user_returns_error_and_does_not_modify_data() {
    let mut data = store_with_server(&[12345678901234567], &[]);
    let result = revoke_user(&mut data, "SomeServer", 76543210987654321);
    assert_eq!(
        result,
        Err(RemovePermissionError::AlreadyNotAuthorized {
            server_name: s("SomeServer"),
            entity: DiscordEntity::User(76543210987654321)
        })
    );
    assert_eq!(describe_server(&data, "SomeServer").unwrap().authorized_users.len(), 1);
}

#[test]
fn given_authorized_user_then_revoke_user_returns_success_and_removes_users() {
    let mut data = store_with_server(&[12345678901234567], &[]);
    let result = revoke_user(&mut data, "SomeServer", 12345678901234567);
    assert_eq!(result, Ok(()));
    assert!(!describe_server(&data, "SomeServer").unwrap().authorized_users.contains(12345678901234567));
}

#[test]
fn given_non_existing_server_then_permit_role_returns_error_and_does_not_modify_data() {
    let mut data = empty_store();
    let result = permit_role(&mut data, "NonExistingServer", 98765432109876543);
    assert_eq!(
        result,
        Err(AddPermissionError::Server(ServerError::DoesNotExist { server_name: s("NonExistingServer") }))
    );
    assert!(list_servers(&data).is_empty());
}

#[test]
fn given_already_authorized_role_then_permit_role_returns_error_and_does_not_modify_data() {
    let mut data = store_with_server(&[], &[98765432109876543]);
    let result = permit_role(&mut data, "SomeServer", 98765432109876543);
    assert_eq!(
        result,
        Err(AddPermissionError::AlreadyAuthorized {
            server_name: s("SomeServer"),
            entity: DiscordEntity::Role(98765432109876543)
        })
    );
    assert_eq!(describe_server(&data, "SomeServer").unwrap().authorized_roles.len(), 1);
}

#[test]
fn given_new_role_then_permit_role_returns_success_and_adds_role() {
    let mut data = store_with_server(&[], &[]);
    let result = permit_role(&mut data, "SomeServer", 98765432109876543);
    assert_eq!(result, Ok(()));
    assert!(describe_server(&data, "SomeServer").unwrap().authorized_roles.contains(98765432109876543));
}

#[test]
fn given_non_existing_server_then_revoke_role_returns_error_and_does_not_modify_data() {
    let mut data = empty_store();
    let result = revoke_role(&mut data, "NonExistingServer", 98765432109876543);
    assert_eq!(
        result,
        Err(RemovePermissionError::Server(ServerError::DoesNotExist { server_name: s("NonExistingServer") }))
    );
    assert!(list_servers(&data).is_empty());
}

#[test]
fn given_not_authorized_role_then_revoke_role_returns_error_and_does_not_modify_data() {
    let mut data = store_with_server(&[], &[12345678901234567]);
    let result = revoke_role(&mut data, "SomeServer", 98765432109876543);
    assert_eq!(
        result,
        Err(RemovePermissionError::AlreadyNotAuthorized {
            server_name: s("SomeServer"),
            entity: DiscordEntity::Role(98765432109876543)
        })
    );
    assert_eq!(describe_server(&data, "SomeServer").unwrap().authorized_roles.len(), 1);
}

#[test]
fn given_authorized_role_then_revoke_role_returns_success_and_removes_role() {
    let mut data = store_with_server(&[], &[98765432109876543]);
    let result = revoke_role(&mut data, "SomeServer", 98765432109876543);
    assert_eq!(result, Ok(()));
    assert!(!describe_server(&data, "SomeServer").unwrap().authorized_roles.contains(98765432109876543));
}

#[test]
fn failed_grant_leaves_nothing_to_write() {
    let mut data = store_with_server(&[5], &[]);
    assert!(permit_user(&mut data, "SomeServer", 5).is_err());
    assert!(data.take_unsaved().is_none());
    assert_eq!(permit_user(&mut data, "SomeServer", 6), Ok(()));
    assert!(data.take_unsaved().is_some());
}
