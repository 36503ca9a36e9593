use gjallarbot::data::{Data, WakeOnLanMachineInfo};
use gjallarbot::ids::IdSet;
use gjallarbot::json::Json;
use gjallarbot::mac::{InvalidMacError, MacAddress};
use gjallarbot::store::PersistentJson;
use gjallarbot::wake_on_lan::{
    add_machine, describe_machine, list_machines, remove_machine, AddMachineError, MachineError,
    RemoveMachineError,
};

fn s(x: &str) -> String {
    x.to_string()
}

fn numbers(v: &[u64]) -> Json {
    Json::Array(v.iter().map(|x| Json::Unsigned(*x)).collect())
}

fn machine(mac: [u64; 6], users: &[u64], roles: &[u64]) -> Json {
    Json::Object(vec![
        (s("mac"), numbers(&mac)),
        (s("authorized_users"), numbers(users)),
        (s("authorized_roles"), numbers(roles)),
    ])
}

fn store_with(entries: Vec<(&str, Json)>) -> PersistentJson<Data> {
    let doc = Json::Object(vec![(
        s("wake_on_lan"),
        Json::Object(entries.into_iter().map(|(n, j)| (s(n), j)).collect()),
    )]);
    PersistentJson::new(s("data.json"), Some(&doc)).unwrap()
}

fn empty_store() -> PersistentJson<Data> {
    PersistentJson::new(s("data.json"), None).unwrap()
}

fn info(mac: [u8; 6]) -> WakeOnLanMachineInfo {
    WakeOnLanMachineInfo { mac: MacAddress(mac), authorized_users: IdSet::new(), authorized_roles: IdSet::new() }
}

#[test]
fn given_duplicate_name_then_add_machine_returns_error_and_does_not_update_data() {
    let mut data = store_with(vec![("SomeMachine", machine([1, 2, 3, 4, 5, 6], &[], &[]))]);

    let result = add_machine(&mut data, "SomeMachine", "00:00:00:00:00:01");

    assert_eq!(
        result,
        Err(AddMachineError::Machine(MachineError::AlreadyExists { machine_name: s("SomeMachine") }))
    );
    assert_eq!(list_machines(&data), vec![(s("SomeMachine"), info([1, 2, 3, 4, 5, 6]))]);
    assert!(data.take_unsaved().is_none());
}

#[test]
fn given_invalid_mac_then_add_machine_returns_error_and_does_not_update_data() {
    let mut data = empty_store();

    let result = add_machine(&mut data, "NewMachine", "invalid_mac");

    assert_eq!(
        result,
        Err(AddMachineError::InvalidMac(InvalidMacError::WrongPartCount { expected: 6, actual: 1 }))
    );
    assert!(list_machines(&data).is_empty());
}

#[test]
fn given_mac_with_invalid_hex_then_add_machine_returns_error_and_does_not_update_data() {
    let mut data = empty_store();

    let result = add_machine(&mut data, "NewMachine", "AA:BB:CC:DD:EE:PP");

    assert_eq!(result, Err(AddMachineError::InvalidMac(InvalidMacError::InvalidHexString(s("PP")))));
    assert!(list_machines(&data).is_empty());
}

#[test]
fn given_valid_input_then_add_machine_returns_success_and_inserts_new_machine() {
    let mut data = empty_store();

    let result = add_machine(&mut data, "NewMachine", "00:00:00:00:00:01");

    assert_eq!(result, Ok(()));
    assert_eq!(list_machines(&data), vec![(s("NewMachine"), info([0, 0, 0, 0, 0, 1]))]);
    assert!(data.take_unsaved().is_some());
}

#[test]
fn given_nonexistent_machine_then_remove_machine_returns_error_and_does_not_modify_data() {
    let mut data = store_with(vec![("ExistingMachine", machine([1, 2, 3, 4, 5, 6], &[], &[]))]);

    let result = remove_machine(&mut data, "NonexistentMachine");

    assert_eq!(
        result,
        Err(RemoveMachineError::Machine(MachineError::DoesNotExist { machine_name: s("NonexistentMachine") }))
    );
    assert_eq!(list_machines(&data), vec![(s("ExistingMachine"), info([1, 2, 3, 4, 5, 6]))]);
}

#[test]
fn given_existing_machine_then_remove_machine_returns_success_and_removes_machine() {
    let mut data = store_with(vec![("MachineToRemove", machine([1, 2, 3, 4, 5, 6], &[], &[]))]);

    let result = remove_machine(&mut data, "MachineToRemove");

    assert_eq!(result, Ok(()));
    assert!(list_machines(&data).is_empty());
}

#[test]
fn given_wake_on_lan_data_then_list_machines_provides_correct_data_to_callback() {
    let data = store_with(vec![("ExistingMachine", machine([1, 2, 3, 4, 5, 6], &[], &[]))]);

    assert_eq!(list_machines(&data), vec![(s("ExistingMachine"), info([1, 2, 3, 4, 5, 6]))]);
}

#[test]
fn given_nonexistent_machine_then_describe_machine_callbacks_with_error() {
    let data = store_with(vec![("ExistingMachine", machine([1, 2, 3, 4, 5, 6], &[], &[]))]);

    let result = describe_machine(&data, "NonExistentMachine");

    assert_eq!(result, Err(MachineError::DoesNotExist { machine_name: s("NonExistentMachine") }));
}

#[test]
fn given_existing_machine_then_describe_machine_calls_function_with_machine_info() {
    let data = store_with(vec![("ExistingMachine", machine([1, 2, 3, 4, 5, 6], &[], &[]))]);

    match describe_machine(&data, "ExistingMachine") {
        Ok(machine) => assert_eq!(machine.mac, MacAddress([0x01, 0x02, 0x03, 0x04, 0x05, 0x06])),
        Err(_) => panic!("received error when it was not expected"),
    }
}

#[test]
fn adding_same_name_twice_reports_already_exists_and_keeps_store() {
    let mut data = empty_store();
    assert_eq!(add_machine(&mut data, "Den", "D8:43:AE:57:B4:1D"), Ok(()));
    let _ = data.take_unsaved();
    let before = list_machines(&data);

    let second = add_machine(&mut data, "Den", "00:00:00:00:00:01");

    assert_eq!(second, Err(AddMachineError::Machine(MachineError::AlreadyExists { machine_name: s("Den") })));
    assert_eq!(list_machines(&data), before);
    assert!(data.take_unsaved().is_none());
}

#[test]
fn names_are_case_sensitive() {
    let mut data = empty_store();
    assert_eq!(add_machine(&mut data, "Den", "01:02:03:04:05:06"), Ok(()));
    assert_eq!(add_machine(&mut data, "den", "01:02:03:04:05:07"), Ok(()));
    assert_eq!(list_machines(&data).len(), 2);
}

#[test]
fn machines_enumerate_in_name_order() {
    let mut data = empty_store();
    for name in ["beta", "Alpha", "alpha", "al"] {
        assert_eq!(add_machine(&mut data, name, "01:02:03:04:05:06"), Ok(()));
    }
    let names: Vec<String> = list_machines(&data).into_iter().map(|(n, _)| n).collect();
    assert_eq!(names, vec![s("Alpha"), s("al"), s("alpha"), s("beta")]);
}

#[test]
fn names_for_completion_start_with_the_typed_text() {
    let mut data = empty_store();
    for name in ["Attic", "Den", "Desk", "Dock"] {
        assert_eq!(add_machine(&mut data, name, "01:02:03:04:05:06"), Ok(()));
    }
    assert_eq!(data.data().wake_on_lan.names_starting_with("De", 25), vec![s("Den"), s("Desk")]);
    assert_eq!(data.data().wake_on_lan.names_starting_with("D", 2), vec![s("Den"), s("Desk")]);
    assert_eq!(data.data().wake_on_lan.names_starting_with("", 25).len(), 4);
    assert!(data.data().wake_on_lan.names_starting_with("x", 25).is_empty());
}
