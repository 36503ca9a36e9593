use gjallarbot::data::{Caller, Data};
use gjallarbot::json::Json;
use gjallarbot::mac::{MacAddress, MagicPacket};
use gjallarbot::store::PersistentJson;
use gjallarbot::wake_on_lan::{wake, wake_sent, MachineError, WakeError};

fn s(x: &str) -> String {
    x.to_string()
}

fn numbers(v: &[u64]) -> Json {
    Json::Array(v.iter().map(|x| Json::Unsigned(*x)).collect())
}

fn store_with_machine(users: Option<&[u64]>, roles: Option<&[u64]>) -> PersistentJson<Data> {
    let mut fields = vec![(s("mac"), numbers(&[1, 2, 3, 4, 5, 6]))];
    if let Some(u) = users {
        fields.push((s("authorized_users"), numbers(u)));
    }
    if let Some(r) = roles {
        fields.push((s("authorized_roles"), numbers(r)));
    }
    let doc = Json::Object(vec![(s("wake_on_lan"), Json::Object(vec![(s("ExistingMachine"), Json::Object(fields))]))]);
    PersistentJson::new(s("data.json"), Some(&doc)).unwrap()
}

fn dms(id: u64) -> Caller {
    Caller { user_id: id, roles: vec![] }
}

fn guild(id: u64, roles: Vec<u64>) -> Caller {
    Caller { user_id: id, roles }
}

fn expected_packet() -> MagicPacket {
    MagicPacket::from_mac(&MacAddress([0x01, 0x02, 0x03, 0x04, 0x05, 0x06]))
}

#[test]
fn given_nonexistent_machine_then_wake_returns_error() {
    let data = store_with_machine(None, None);
    let result = wake(&data, &dms(12345678901234567), "NonexistentMachine");
    assert_eq!(
        result,
        Err(WakeError::Machine(MachineError::DoesNotExist { machine_name: s("NonexistentMachine") }))
    );
}

#[test]
fn given_dm_call_and_existing_machine_but_user_not_in_allowed_list_then_wake_returns_error() {
    let data = store_with_machine(
        Some(&[98765432109876543, 98765432109876542]),
        Some(&[98765432109876541, 98765432109876540]),
    );
    let result = wake(&data, &dms(12345678901234567), "ExistingMachine");
    assert_eq!(
        result,
        Err(WakeError::Unauthorized { user: 12345678901234567, machine_name: s("ExistingMachine") })
    );
}

#[test]
fn given_guild_call_and_existing_machine_but_user_not_in_allowed_list_then_wake_returns_error() {
    let data = store_with_machine(
        Some(&[98765432109876543, 98765432109876542]),
        Some(&[98765432109876541, 98765432109876540]),
    );
    let result = wake(&data, &guild(12345678901234567, vec![12345678901234567]), "ExistingMachine");
    assert_eq!(
        result,
        Err(WakeError::Unauthorized { user: 12345678901234567, machine_name: s("ExistingMachine") })
    );
}

#[test]
fn given_dm_call_and_existing_machine_and_user_in_allowed_list_then_should_wake_machine() {
    let data = store_with_machine(Some(&[12345678901234567]), None);
    let result = wake(&data, &dms(12345678901234567), "ExistingMachine");
    assert_eq!(result, Ok(expected_packet()));
}

#[test]
fn given_guild_call_and_existing_machine_and_user_in_allowed_list_then_should_wake_machine() {
    let data = store_with_machine(Some(&[12345678901234567]), Some(&[]));
    let result = wake(&data, &guild(12345678901234567, vec![98765432109876543]), "ExistingMachine");
    assert_eq!(result, Ok(expected_packet()));
}

#[test]
fn given_guild_call_and_existing_machine_and_user_in_allowed_roles_then_should_wake_machine() {
    let data = store_with_machine(Some(&[]), Some(&[98765432109876543]));
    let result = wake(&data, &guild(12345678901234567, vec![98765432109876543]), "ExistingMachine");
    assert_eq!(result, Ok(expected_packet()));
}

#[test]
fn group_grant_admits_caller_not_listed_individually() {
    let data = store_with_machine(None, Some(&[100]));
    let result = wake(&data, &guild(1, vec![100]), "ExistingMachine");
    let packet = result.unwrap();
    assert_eq!(packet, expected_packet());
    assert_eq!(&packet.as_bytes()[6..12], &[1, 2, 3, 4, 5, 6]);
}

#[test]
fn empty_group_context_is_never_admitted_by_group_list() {
    let data = store_with_machine(None, Some(&[100]));
    let result = wake(&data, &dms(1), "ExistingMachine");
    assert_eq!(result, Err(WakeError::Unauthorized { user: 1, machine_name: s("ExistingMachine") }));
}

#[test]
fn send_failure_is_reported_with_its_kind() {
    assert_eq!(wake_sent(Ok(())), Ok(()));
    assert_eq!(
        wake_sent(Err(std::io::ErrorKind::PermissionDenied)),
        Err(WakeError::Io { kind: std::io::ErrorKind::PermissionDenied })
    );
}
