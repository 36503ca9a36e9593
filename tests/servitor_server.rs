use gjallarbot::data::{Data, ServerInfo};
use gjallarbot::ids::IdSet;
use gjallarbot::json::Json;
use gjallarbot::servitor::{
    add_server, describe_server, list_servers, remove_server, AddServerError, RemoveServerError, ServerError,
};
use gjallarbot::store::PersistentJson;

fn s(x: &str) -> String {
    x.to_string()
}

fn store_with(entries: Vec<(&str, &str, &str)>) -> PersistentJson<Data> {
    let servers = entries
        .into_iter()
        .map(|(n, ep, unit)| {
            (s(n), Json::Object(vec![(s("servitor"), Json::Str(s(ep))), (s("unit_name"), Json::Str(s(unit)))]))
        })
        .collect();
    let doc = Json::Object(vec![(s("servitor"), Json::Object(servers))]);
    PersistentJson::new(s("data.json"), Some(&doc)).unwrap()
}

fn server(ep: &str, unit: &str) -> ServerInfo {
    ServerInfo { servitor: s(ep), unit_name: s(unit), authorized_users: IdSet::new(), authorized_roles: IdSet::new() }
}

/// The endpoints configured for every service the store names, as a fresh deployment has them.
fn endpoints_of(data: &PersistentJson<Data>) -> Vec<String> {
    list_servers(data).into_iter().map(|(_, info)| info.servitor).collect()
}

#[test]
fn given_invalid_servitor_name_then_add_server_returns_invalid_servitor_error_and_does_not_update_data() {
    let mut data = store_with(vec![]);
    let serv = endpoints_of(&data);

    let result = add_server(&mut data, &serv, "test", "NonExistingServitor", "some_name");

    assert_eq!(result, Err(AddServerError::InvalidServitor { name: s("NonExistingServitor") }));
    assert!(list_servers(&data).is_empty());
}

#[test]
fn given_duplicate_name_then_add_server_returns_error_and_does_not_update_data() {
    let mut data = store_with(vec![("SomeServer", "foo", "bar")]);
    let serv = endpoints_of(&data);

    let result = add_server(&mut data, &serv, "SomeServer", "foo", "some_name");

    assert_eq!(result, Err(AddServerError::Server(ServerError::AlreadyExists { server_name: s("SomeServer") })));
    assert_eq!(list_servers(&data), vec![(s("SomeServer"), server("foo", "bar"))]);
}

#[test]
fn given_valid_input_then_add_server_returns_success_and_adds_new_server() {
    let mut data = store_with(vec![("SomeServer", "foo", "bar")]);
    let serv = endpoints_of(&data);

    let result = add_server(&mut data, &serv, "NewServer", "foo", "some_name");

    assert_eq!(result, Ok(()));
    assert_eq!(
        list_servers(&data),
        vec![(s("NewServer"), server("foo", "some_name")), (s("SomeServer"), server("foo", "bar"))]
    );
}

#[test]
fn given_invalid_server_name_then_remove_server_returns_error_and_does_not_update_data() {
    let mut data = store_with(vec![("SomeServer", "foo", "bar")]);

    let result = remove_server(&mut data, "NonExistingServer");

    assert_eq!(
        result,
        Err(RemoveServerError::Server(ServerError::DoesNotExist { server_name: s("NonExistingServer") }))
    );
    assert_eq!(list_servers(&data), vec![(s("SomeServer"), server("foo", "bar"))]);
}

#[test]
fn given_valid_input_then_remove_server_returns_success_and_removes_server() {
    let mut data = store_with(vec![("SomeServer", "foo", "bar")]);

    let result = remove_server(&mut data, "SomeServer");

    assert_eq!(result, Ok(()));
    assert!(list_servers(&data).is_empty());
}

#[test]
fn given_servitor_data_then_list_servers_provides_correct_data_to_callback() {
    let data = store_with(vec![("SomeServer", "foo", "bar")]);
    assert_eq!(list_servers(&data), vec![(s("SomeServer"), server("foo", "bar"))]);
}

#[test]
fn given_nonexistent_server_then_describe_server_callbacks_with_error() {
    let data = store_with(vec![("SomeServer", "foo", "bar")]);
    let result = describe_server(&data, "NonExistingServer");
    assert_eq!(result, Err(ServerError::DoesNotExist { server_name: s("NonExistingServer") }));
}

#[test]
fn given_existing_server_then_describe_server_calls_function_with_server_info() {
    let data = store_with(vec![("SomeServer", "foo", "bar")]);
    match describe_server(&data, "SomeServer") {
        Ok(info) => assert_eq!(info, server("foo", "bar")),
        Err(_) => panic!("received error when it was not expected"),
    }
}

#[test]
fn unknown_endpoint_is_reported_before_a_taken_name() {
    let mut data = store_with(vec![("SomeServer", "foo", "bar")]);
    let result = add_server(&mut data, &[s("foo")], "SomeServer", "other", "unit");
    assert_eq!(result, Err(AddServerError::InvalidServitor { name: s("other") }));
}
