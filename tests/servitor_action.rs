use gjallarbot::data::{Caller, Data};
use gjallarbot::json::Json;
use gjallarbot::servitor::{
    action_result, check_status, execute_action, ActionTarget, ExecuteServitorActionError, ServerError,
    ServitorError,
};
use gjallarbot::store::PersistentJson;

fn s(x: &str) -> String {
    x.to_string()
}

fn numbers(v: &[u64]) -> Json {
    Json::Array(v.iter().map(|x| Json::Unsigned(*x)).collect())
}

fn store_with_server(users: &[u64], roles: &[u64]) -> PersistentJson<Data> {
    let record = Json::Object(vec![
        (s("servitor"), Json::Str(s("foo"))),
        (s("unit_name"), Json::Str(s("bar"))),
        (s("authorized_users"), numbers(users)),
        (s("authorized_roles"), numbers(roles)),
    ]);
    let doc = Json::Object(vec![(s("servitor"), Json::Object(vec![(s("SomeServer"), record)]))]);
    PersistentJson::new(s("data.json"), Some(&doc)).unwrap()
}

const ACTIONS: [&str; 5] = ["start", "stop", "restart", "reload", "status"];

/// Runs one action the way the bot does: decide, then call the endpoint only when told to.
/// The endpoint stand-in answers with `answer` and counts its calls per action.
fn run(
    data: &PersistentJson<Data>,
    endpoints: &[String],
    server: &str,
    caller: &Caller,
    action: usize,
    answer: Result<String, ServitorError>,
    calls: &mut [usize; 5],
) -> Result<String, ExecuteServitorActionError> {
    match execute_action(data, endpoints, server, caller) {
        Err(e) => Err(e),
        Ok(ActionTarget { servitor, unit_name }) => {
            assert_eq!(servitor, "foo");
            calls[action] += 1;
            action_result(answer.map(|status| format!("{status}:{unit_name}")))
        },
    }
}

fn dms(id: u64) -> Caller {
    Caller { user_id: id, roles: vec![] }
}

fn guild(id: u64, roles: Vec<u64>) -> Caller {
    Caller { user_id: id, roles }
}

fn expected_calls(action: usize) -> [usize; 5] {
    let mut c = [0; 5];
    c[action] = 1;
    c
}

#[test]
fn given_invalid_server_name_then_action_returns_invalid_server_error() {
    let data = PersistentJson::<Data>::new(s("data.json"), Some(&Json::Object(vec![(s("servitor"), Json::Object(vec![]))]))).unwrap();
    for action in 0..ACTIONS.len() {
        let mut calls = [0; 5];
        let result = run(&data, &[], "NonExistingServer", &dms(12345678901234567), action, Ok(s("ok")), &mut calls);
        assert_eq!(
            result,
            Err(ExecuteServitorActionError::Server(ServerError::DoesNotExist { server_name: s("NonExistingServer") }))
        );
        assert_eq!(calls, [0; 5]);
    }
}

#[test]
fn given_server_with_invalid_servitor_configured_then_action_returns_invalid_servitor_error() {
    let data = store_with_server(&[12345678901234567], &[]);
    for action in 0..ACTIONS.len() {
        let mut calls = [0; 5];
        let result = run(&data, &[], "SomeServer", &dms(12345678901234567), action, Ok(s("ok")), &mut calls);
        assert_eq!(
            result,
            Err(ExecuteServitorActionError::InvalidServitor { server_name: s("SomeServer"), servitor_name: s("foo") })
        );
        assert_eq!(calls, [0; 5]);
    }
}

#[test]
fn given_dm_call_but_user_not_in_allowed_list_then_action_returns_unauthorized_error() {
    let data = store_with_server(&[98765432109876543, 98765432109876542], &[98765432109876541, 98765432109876540]);
    for action in 0..ACTIONS.len() {
        let mut calls = [0; 5];
        let result = run(&data, &[s("foo")], "SomeServer", &dms(12345678901234567), action, Ok(s("ok")), &mut calls);
        assert_eq!(
            result,
            Err(ExecuteServitorActionError::Unauthorized { user: 12345678901234567, server_name: s("SomeServer") })
        );
        assert_eq!(calls, [0; 5]);
    }
}

#[test]
fn given_guild_call_but_user_not_in_allowed_list_then_action_returns_unauthorized_error() {
    let data = store_with_server(&[98765432109876543, 98765432109876542], &[98765432109876541, 98765432109876540]);
    for action in 0..ACTIONS.len() {
        let mut calls = [0; 5];
        let result =
            run(&data, &[s("foo")], "SomeServer", &guild(12345678901234567, vec![]), action, Ok(s("ok")), &mut calls);
        assert_eq!(
            result,
            Err(ExecuteServitorActionError::Unauthorized { user: 12345678901234567, server_name: s("SomeServer") })
        );
        assert_eq!(calls, [0; 5]);
    }
}

#[test]
fn given_unexpected_servitor_error_then_action_should_return_servitor_error() {
    let data = store_with_server(&[12345678901234567], &[]);
    for action in 0..ACTIONS.len() {
        let mut calls = [0; 5];
        let result = run(
            &data,
            &[s("foo")],
            "SomeServer",
            &dms(12345678901234567),
            action,
            Err(ServitorError::Unauthorized),
            &mut calls,
        );
        assert_eq!(result, Err(ExecuteServitorActionError::Servitor(ServitorError::Unauthorized)));
        assert_eq!(calls, expected_calls(action));
    }
}

#[test]
fn given_dm_call_and_user_in_allowed_list_then_should_action_server() {
    let data = store_with_server(&[12345678901234567], &[]);
    for action in 0..ACTIONS.len() {
        let mut calls = [0; 5];
        let result = run(&data, &[s("foo")], "SomeServer", &dms(12345678901234567), action, Ok(s("active")), &mut calls);
        assert_eq!(result, Ok(s("active:bar")));
        assert_eq!(calls, expected_calls(action));
    }
}

#[test]
fn given_guild_call_and_user_in_allowed_list_then_should_action_server() {
    let data = store_with_server(&[12345678901234567], &[]);
    for action in 0..ACTIONS.len() {
        let mut calls = [0; 5];
        let result = run(
            &data,
            &[s("foo")],
            "SomeServer",
            &guild(12345678901234567, vec![]),
            action,
            Ok(s("active")),
            &mut calls,
        );
        assert_eq!(result, Ok(s("active:bar")));
        assert_eq!(calls, expected_calls(action));
    }
}

#[test]
fn given_guild_call_and_users_role_in_allowed_list_then_should_action_server() {
    let data = store_with_server(&[], &[98765432109876543]);
    for action in 0..ACTIONS.len() {
        let mut calls = [0; 5];
        let result = run(
            &data,
            &[s("foo")],
            "SomeServer",
            &guild(12345678901234567, vec![98765432109876543]),
            action,
            Ok(s("active")),
            &mut calls,
        );
        assert_eq!(result, Ok(s("active:bar")));
        assert_eq!(calls, expected_calls(action));
    }
}

#[test]
fn web_scenario_stale_endpoint_is_reported_and_client_never_called() {
    let record = Json::Object(vec![
        (s("servitor"), Json::Str(s("prod"))),
        (s("unit_name"), Json::Str(s("web.service"))),
        (s("authorized_users"), numbers(&[7])),
    ]);
    let doc = Json::Object(vec![(s("servitor"), Json::Object(vec![(s("Web"), record)]))]);
    let data = PersistentJson::<Data>::new(s("data.json"), Some(&doc)).unwrap();
    let result = execute_action(&data, &[s("staging")], "Web", &dms(7));
    assert_eq!(
        result,
        Err(ExecuteServitorActionError::InvalidServitor { server_name: s("Web"), servitor_name: s("prod") })
    );
}

#[test]
fn admitted_request_names_endpoint_and_unit() {
    let data = store_with_server(&[7], &[]);
    assert_eq!(
        execute_action(&data, &[s("other"), s("foo")], "SomeServer", &dms(7)),
        Ok(ActionTarget { servitor: s("foo"), unit_name: s("bar") })
    );
}

#[test]
fn status_codes_are_classified() {
    assert_eq!(check_status(200, None), Ok(()));
    assert_eq!(check_status(400, None), Err(ServitorError::BadRequest));
    assert_eq!(check_status(401, None), Err(ServitorError::Unauthorized));
    assert_eq!(check_status(500, None), Err(ServitorError::InternalServerError));
    assert_eq!(
        check_status(404, Some(s("not found"))),
        Err(ServitorError::Unexpected { status_code: Some(404), error: Some(s("not found")) })
    );
    assert_eq!(check_status(204, None), Err(ServitorError::Unexpected { status_code: Some(204), error: None }));
}
