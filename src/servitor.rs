//! Managed services: registering them against a configured remote control endpoint,
//! granting who may operate them, and deciding what an operation request leads to.
use vstd::prelude::*;

use crate::data::{admitted, is_user_authorized, Caller, Data, ServerInfo, ServerView};
use crate::registry::Registry;
use crate::store::{PersistentData, PersistentJson};
use crate::text::name_lt;

verus! {

#[derive(Debug, PartialEq, Clone)]
pub enum ServerError {
    DoesNotExist { server_name: String },
    AlreadyExists { server_name: String },
}

#[derive(Debug, PartialEq, Clone)]
pub enum AddServerError {
    InvalidServitor { name: String },
    Server(ServerError),
}

#[derive(Debug, PartialEq, Clone)]
pub enum RemoveServerError {
    Server(ServerError),
}

/// Whose permission an edit is about.
#[derive(Debug, PartialEq, Eq, Clone, Copy)]
pub enum DiscordEntity {
    User(u64),
    Role(u64),
}

#[derive(Debug, PartialEq, Clone)]
pub enum AddPermissionError {
    Server(ServerError),
    AlreadyAuthorized { server_name: String, entity: DiscordEntity },
}

#[derive(Debug, PartialEq, Clone)]
pub enum RemovePermissionError {
    Server(ServerError),
    AlreadyNotAuthorized { server_name: String, entity: DiscordEntity },
}

/// A failure reported by a remote control endpoint, passed on uninterpreted.
#[derive(Debug, PartialEq, Clone)]
pub enum ServitorError {
    BadRequest,
    Unauthorized,
    InternalServerError,
    Unexpected { status_code: Option<u16>, error: Option<String> },
}

#[derive(Debug, PartialEq, Clone)]
pub enum ExecuteServitorActionError {
    Server(ServerError),
    InvalidServitor { server_name: String, servitor_name: String },
    Unauthorized { user: u64, server_name: String },
    Servitor(ServitorError),
}

pub open spec fn servers(store: PersistentJson<Data>) -> Map<Seq<char>, ServerView> {
    store.value()@.servitor
}

/// After a successful change: the other registry is untouched and the whole document awaits writing.
pub open spec fn committed(old_store: PersistentJson<Data>, new_store: PersistentJson<Data>) -> bool {
    &&& new_store.wf()
    &&& new_store.file() == old_store.file()
    &&& new_store.value()@.wake_on_lan == old_store.value()@.wake_on_lan
    &&& new_store.pending() == Some(new_store.value().encoded())
}

pub open spec fn is_does_not_exist(e: ServerError, name: Seq<char>) -> bool {
    e matches ServerError::DoesNotExist { server_name } && server_name@ == name
}

pub open spec fn is_already_exists(e: ServerError, name: Seq<char>) -> bool {
    e matches ServerError::AlreadyExists { server_name } && server_name@ == name
}

/// Takes the record named `name` out of the managed services.
pub fn remove_server(store: &mut PersistentJson<Data>, name: &str) -> (r: Result<(), RemoveServerError>)
    requires
        old(store).wf(),
    ensures
        final(store).wf(),
        r is Ok <==> servers(*old(store)).contains_key(name@),
        r matches Err(RemoveServerError::Server(e)) ==> is_does_not_exist(e, name@),
        r is Err ==> *final(store) == *old(store),
        r is Ok ==> committed(*old(store), *final(store)) && servers(*final(store)) == servers(
            *old(store),
        ).remove(name@),
{
    if !store.data().servitor.contains(name) {
        return Err(RemoveServerError::Server(ServerError::DoesNotExist { server_name: name.to_string() }));
    }
    let g = store.write();
    let ghost before = *g.data;
    g.data.servitor.remove(name);
    proof {
        assert forall|i: int| 0 <= i < g.data.servitor.seq().len() implies (#[trigger] g.data.servitor.seq()[i]).1.wf() by {
            let k = choose|k: int| 0 <= k < before.servitor.seq().len() && g.data.servitor.seq()
                == before.servitor.seq().remove(k);
            if i < k {
                assert(g.data.servitor.seq()[i] == before.servitor.seq()[i]);
            } else {
                assert(g.data.servitor.seq()[i] == before.servitor.seq()[i + 1]);
            }
        }
    }
    g.commit();
    Ok(())
}

/// Owned copies of every managed service, in ascending name order.
pub fn list_servers(store: &PersistentJson<Data>) -> (r: Vec<(String, ServerInfo)>)
    requires
        store.wf(),
    ensures
        r@.len() == servers(*store).len(),
        forall|i: int| 0 <= i < r@.len() ==> #[trigger] servers(*store).contains_key(r@[i].0@)
            && servers(*store)[r@[i].0@] == r@[i].1@,
        forall|k: Seq<char>| #[trigger] servers(*store).contains_key(k) ==> exists|i: int|
            0 <= i < r@.len() && #[trigger] r@[i].0@ == k,
        forall|i: int, j: int| 0 <= i < j < r@.len() ==> #[trigger] name_lt(r@[i].0@, r@[j].0@),
{
    let reg = &store.data().servitor;
    proof {
        reg.lemma_seq_view();
    }
    let entries = reg.entries();
    let mut r: Vec<(String, ServerInfo)> = Vec::new();
    let mut i: usize = 0;
    while i < entries.len()
        invariant
            i <= entries@.len(),
            entries@ == reg.seq(),
            reg.wf(),
            r@.len() == i,
            forall|k: int| 0 <= k < i ==> (#[trigger] r@[k]).0@ == entries@[k].0@ && r@[k].1@ == entries@[k].1@,
        decreases entries@.len() - i,
    {
        r.push((entries[i].0.clone(), entries[i].1.snapshot()));
        i = i + 1;
    }
    proof {
        reg.lemma_sorted();
        assert forall|a: int, b: int| 0 <= a < b < r@.len() implies #[trigger] name_lt(r@[a].0@, r@[b].0@) by {
            assert(r@[a].0@ == reg.seq()[a].0@);
            assert(r@[b].0@ == reg.seq()[b].0@);
        }
        assert forall|k: Seq<char>| #[trigger] servers(*store).contains_key(k) implies exists|i: int|
            0 <= i < r@.len() && #[trigger] r@[i].0@ == k by {
            let i = choose|i: int| 0 <= i < reg.seq().len() && #[trigger] reg.seq()[i].0@ == k;
            assert(r@[i].0@ == k);
        }
    }
    r
}

/// An owned copy of the record named `name`.
pub fn describe_server(store: &PersistentJson<Data>, name: &str) -> (r: Result<ServerInfo, ServerError>)
    requires
        store.wf(),
    ensures
        r is Ok <==> servers(*store).contains_key(name@),
        r matches Ok(m) ==> m@ == servers(*store)[name@],
        r matches Err(e) ==> is_does_not_exist(e, name@),
{
    match store.data().servitor.get(name) {
        Some(m) => Ok(m.snapshot()),
        None => Err(ServerError::DoesNotExist { server_name: name.to_string() }),
    }
}

/// The record after granting (`grant`) or revoking `entity`.
pub open spec fn edited(v: ServerView, entity: DiscordEntity, grant: bool) -> ServerView {
    match entity {
        DiscordEntity::User(id) => ServerView {
            users: if grant { v.users.insert(id) } else { v.users.remove(id) },
            ..v
        },
        DiscordEntity::Role(id) => ServerView {
            roles: if grant { v.roles.insert(id) } else { v.roles.remove(id) },
            ..v
        },
    }
}

/// Whether `entity` is on the matching list of the record.
pub open spec fn listed(v: ServerView, entity: DiscordEntity) -> bool {
    match entity {
        DiscordEntity::User(id) => v.users.contains(id),
        DiscordEntity::Role(id) => v.roles.contains(id),
    }
}

enum Edit {
    Missing,
    Unchanged,
    Changed,
}

/// Grants or revokes `entity` on the server `name`, writing only when something changes.
fn edit_permission(store: &mut PersistentJson<Data>, name: &str, entity: DiscordEntity, grant: bool) -> (r: Edit)
    requires
        old(store).wf(),
    ensures
        final(store).wf(),
        r is Missing <==> !servers(*old(store)).contains_key(name@),
        r is Unchanged <==> servers(*old(store)).contains_key(name@) && listed(
            servers(*old(store))[name@],
            entity,
        ) == grant,
        !(r is Changed) ==> *final(store) == *old(store),
        r is Changed ==> committed(*old(store), *final(store)) && servers(*final(store)) == servers(
            *old(store),
        ).insert(name@, edited(servers(*old(store))[name@], entity, grant)),
{
    let k = match store.data().servitor.find(name) {
        None => {
            return Edit::Missing;
        },
        Some(k) => k,
    };
    let reg = &store.data().servitor;
    let present = match entity {
        DiscordEntity::User(id) => reg.entries()[k].1.authorized_users.contains(id),
        DiscordEntity::Role(id) => reg.entries()[k].1.authorized_roles.contains(id),
    };
    if present == grant {
        return Edit::Unchanged;
    }
    let g = store.write();
    let ghost before = *g.data;
    let ghost old_rec = before.servitor.seq()[k as int].1;
    let rec = g.data.servitor.record_mut(k);
    match entity {
        DiscordEntity::User(id) => {
            if grant {
                rec.authorized_users.insert(id);
            } else {
                rec.authorized_users.remove(id);
            }
        },
        DiscordEntity::Role(id) => {
            if grant {
                rec.authorized_roles.insert(id);
            } else {
                rec.authorized_roles.remove(id);
            }
        },
    }
    proof {
        let new_rec = g.data.servitor.seq()[k as int].1;
        Registry::lemma_update(&before.servitor, &g.data.servitor, k as int, new_rec);
        assert(new_rec@ == edited(old_rec@, entity, grant));
        assert forall|i: int| 0 <= i < g.data.servitor.seq().len() implies (#[trigger] g.data.servitor.seq()[i]).1.wf() by {
            if i != k {
                assert(g.data.servitor.seq()[i] == before.servitor.seq()[i]);
            }
        }
    }
    g.commit();
    Edit::Changed
}

/// What granting `entity` on `name` must do: add it when it is not yet listed, else fail
/// with nothing changed.
pub open spec fn grant_post(
    s0: PersistentJson<Data>,
    name: Seq<char>,
    entity: DiscordEntity,
    r: Result<(), AddPermissionError>,
    s1: PersistentJson<Data>,
) -> bool {
    &&& s1.wf()
    &&& (r is Ok <==> servers(s0).contains_key(name) && !listed(servers(s0)[name], entity))
    &&& (!servers(s0).contains_key(name) ==> (r matches Err(AddPermissionError::Server(e)) && is_does_not_exist(e, name)))
    &&& (servers(s0).contains_key(name) && listed(servers(s0)[name], entity) ==> (r matches Err(
        AddPermissionError::AlreadyAuthorized { server_name: n, entity: x },
    ) && n@ == name && x == entity))
    &&& (r is Err ==> s1 == s0)
    &&& (r is Ok ==> committed(s0, s1) && servers(s1) == servers(s0).insert(name, edited(servers(s0)[name], entity, true)))
}

/// What revoking `entity` on `name` must do: take it off when it is listed, else fail
/// with nothing changed.
pub open spec fn revoke_post(
    s0: PersistentJson<Data>,
    name: Seq<char>,
    entity: DiscordEntity,
    r: Result<(), RemovePermissionError>,
    s1: PersistentJson<Data>,
) -> bool {
    &&& s1.wf()
    &&& (r is Ok <==> servers(s0).contains_key(name) && listed(servers(s0)[name], entity))
    &&& (!servers(s0).contains_key(name) ==> (r matches Err(RemovePermissionError::Server(e)) && is_does_not_exist(e, name)))
    &&& (servers(s0).contains_key(name) && !listed(servers(s0)[name], entity) ==> (r matches Err(
        RemovePermissionError::AlreadyNotAuthorized { server_name: n, entity: x },
    ) && n@ == name && x == entity))
    &&& (r is Err ==> s1 == s0)
    &&& (r is Ok ==> committed(s0, s1) && servers(s1) == servers(s0).insert(name, edited(servers(s0)[name], entity, false)))
}

/// Granting the same entity twice: the first succeeds, the second reports it as already
/// granted and changes nothing.
pub proof fn lemma_grant_twice(
    s0: PersistentJson<Data>,
    s1: PersistentJson<Data>,
    s2: PersistentJson<Data>,
    name: Seq<char>,
    entity: DiscordEntity,
    r1: Result<(), AddPermissionError>,
    r2: Result<(), AddPermissionError>,
)
    requires
        grant_post(s0, name, entity, r1, s1),
        r1 is Ok,
        grant_post(s1, name, entity, r2, s2),
    ensures
        r2 matches Err(AddPermissionError::AlreadyAuthorized { server_name: n, entity: x }) && n@ == name && x == entity,
        s2 == s1,
{
    assert(servers(s1).contains_key(name));
    assert(listed(servers(s1)[name], entity));
}

/// Revoking the same entity twice: the first succeeds, the second reports it as not
/// granted and changes nothing.
pub proof fn lemma_revoke_twice(
    s0: PersistentJson<Data>,
    s1: PersistentJson<Data>,
    s2: PersistentJson<Data>,
    name: Seq<char>,
    entity: DiscordEntity,
    r1: Result<(), RemovePermissionError>,
    r2: Result<(), RemovePermissionError>,
)
    requires
        revoke_post(s0, name, entity, r1, s1),
        r1 is Ok,
        revoke_post(s1, name, entity, r2, s2),
    ensures
        r2 matches Err(RemovePermissionError::AlreadyNotAuthorized { server_name: n, entity: x }) && n@ == name && x == entity,
        s2 == s1,
{
    assert(servers(s1).contains_key(name));
    assert(!listed(servers(s1)[name], entity));
}

/// Lets the user `user_id` operate the server.
pub fn permit_user(store: &mut PersistentJson<Data>, server_name: &str, user_id: u64) -> (r: Result<(), AddPermissionError>)
    requires
        old(store).wf(),
    ensures
        grant_post(*old(store), server_name@, DiscordEntity::User(user_id), r, *final(store)),
{
    match edit_permission(store, server_name, DiscordEntity::User(user_id), true) {
        Edit::Missing => Err(AddPermissionError::Server(ServerError::DoesNotExist { server_name: server_name.to_string() })),
        Edit::Unchanged => Err(AddPermissionError::AlreadyAuthorized { server_name: server_name.to_string(), entity: DiscordEntity::User(user_id) }),
        Edit::Changed => Ok(()),
    }
}

/// Withdraws the user's permission to operate the server.
pub fn revoke_user(store: &mut PersistentJson<Data>, server_name: &str, user_id: u64) -> (r: Result<(), RemovePermissionError>)
    requires
        old(store).wf(),
    ensures
        revoke_post(*old(store), server_name@, DiscordEntity::User(user_id), r, *final(store)),
{
    match edit_permission(store, server_name, DiscordEntity::User(user_id), false) {
        Edit::Missing => Err(RemovePermissionError::Server(ServerError::DoesNotExist { server_name: server_name.to_string() })),
        Edit::Unchanged => Err(RemovePermissionError::AlreadyNotAuthorized { server_name: server_name.to_string(), entity: DiscordEntity::User(user_id) }),
        Edit::Changed => Ok(()),
    }
}

/// Lets members of the group `role_id` operate the server.
pub fn permit_role(store: &mut PersistentJson<Data>, server_name: &str, role_id: u64) -> (r: Result<(), AddPermissionError>)
    requires
        old(store).wf(),
    ensures
        grant_post(*old(store), server_name@, DiscordEntity::Role(role_id), r, *final(store)),
{
    match edit_permission(store, server_name, DiscordEntity::Role(role_id), true) {
        Edit::Missing => Err(AddPermissionError::Server(ServerError::DoesNotExist { server_name: server_name.to_string() })),
        Edit::Unchanged => Err(AddPermissionError::AlreadyAuthorized { server_name: server_name.to_string(), entity: DiscordEntity::Role(role_id) }),
        Edit::Changed => Ok(()),
    }
}

/// Withdraws the group's permission to operate the server.
pub fn revoke_role(store: &mut PersistentJson<Data>, server_name: &str, role_id: u64) -> (r: Result<(), RemovePermissionError>)
    requires
        old(store).wf(),
    ensures
        revoke_post(*old(store), server_name@, DiscordEntity::Role(role_id), r, *final(store)),
{
    match edit_permission(store, server_name, DiscordEntity::Role(role_id), false) {
        Edit::Missing => Err(RemovePermissionError::Server(ServerError::DoesNotExist { server_name: server_name.to_string() })),
        Edit::Unchanged => Err(RemovePermissionError::AlreadyNotAuthorized { server_name: server_name.to_string(), entity: DiscordEntity::Role(role_id) }),
        Edit::Changed => Ok(()),
    }
}

/// The names of the configured remote control endpoints.
pub open spec fn endpoint_names(endpoints: Seq<String>) -> Seq<Seq<char>> {
    endpoints.map_values(|e: String| e@)
}

fn has_endpoint(endpoints: &[String], name: &str) -> (r: bool)
    ensures
        r <==> endpoint_names(endpoints@).contains(name@),
{
    let key = name.to_string();
    let mut i: usize = 0;
    while i < endpoints.len()
        invariant
            i <= endpoints@.len(),
            key@ == name@,
            forall|j: int| 0 <= j < i ==> endpoints@[j]@ != name@,
        decreases endpoints@.len() - i,
    {
        if endpoints[i] == key {
            assert(endpoint_names(endpoints@)[i as int] == name@);
            return true;
        }
        i = i + 1;
    }
    proof {
        if endpoint_names(endpoints@).contains(name@) {
            let j = choose|j: int| 0 <= j < endpoint_names(endpoints@).len() && endpoint_names(endpoints@)[j] == name@;
            assert(endpoints@[j]@ == name@);
        }
    }
    false
}

/// What adding a service must do: an unknown endpoint fails first, then a taken name;
/// otherwise the service is added with nobody authorized.
pub open spec fn add_server_post(
    s0: PersistentJson<Data>,
    endpoints: Seq<Seq<char>>,
    name: Seq<char>,
    servitor: Seq<char>,
    unit_name: Seq<char>,
    r: Result<(), AddServerError>,
    s1: PersistentJson<Data>,
) -> bool {
    &&& s1.wf()
    &&& (!endpoints.contains(servitor) ==> (r matches Err(AddServerError::InvalidServitor { name: n }) && n@ == servitor))
    &&& (endpoints.contains(servitor) && servers(s0).contains_key(name) ==> (r matches Err(AddServerError::Server(e))
        && is_already_exists(e, name)))
    &&& (r is Ok <==> endpoints.contains(servitor) && !servers(s0).contains_key(name))
    &&& (r is Err ==> s1 == s0)
    &&& (r is Ok ==> committed(s0, s1) && servers(s1) == servers(s0).insert(
        name,
        ServerView { servitor, unit_name, users: Set::empty(), roles: Set::empty() },
    ))
}

/// Adding under a name that an earlier add took fails with already-exists (given a known
/// endpoint) and leaves the store as it was.
pub proof fn lemma_add_server_twice(
    s0: PersistentJson<Data>,
    s1: PersistentJson<Data>,
    s2: PersistentJson<Data>,
    endpoints: Seq<Seq<char>>,
    name: Seq<char>,
    servitor1: Seq<char>,
    unit1: Seq<char>,
    servitor2: Seq<char>,
    unit2: Seq<char>,
    r1: Result<(), AddServerError>,
    r2: Result<(), AddServerError>,
)
    requires
        add_server_post(s0, endpoints, name, servitor1, unit1, r1, s1),
        r1 is Ok,
        add_server_post(s1, endpoints, name, servitor2, unit2, r2, s2),
        endpoints.contains(servitor2),
    ensures
        r2 matches Err(AddServerError::Server(e)) && is_already_exists(e, name),
        s2 == s1,
{
    assert(servers(s1).contains_key(name));
}

/// Registers a service under a new name on a configured endpoint, with nobody authorized yet.
pub fn add_server(
    store: &mut PersistentJson<Data>,
    endpoints: &[String],
    name: &str,
    servitor: &str,
    unit_name: &str,
) -> (r: Result<(), AddServerError>)
    requires
        old(store).wf(),
    ensures
        add_server_post(*old(store), endpoint_names(endpoints@), name@, servitor@, unit_name@, r, *final(store)),
{
    if !has_endpoint(endpoints, servitor) {
        return Err(AddServerError::InvalidServitor { name: servitor.to_string() });
    }
    if store.data().servitor.contains(name) {
        return Err(AddServerError::Server(ServerError::AlreadyExists { server_name: name.to_string() }));
    }
    let record = ServerInfo::new(servitor.to_string(), unit_name.to_string());
    let g = store.write();
    let ghost before = *g.data;
    let pos = g.data.servitor.insert_new(name.to_string(), record);
    proof {
        assert forall|i: int| 0 <= i < g.data.servitor.seq().len() implies (#[trigger] g.data.servitor.seq()[i]).1.wf() by {
            if i < pos {
                assert(g.data.servitor.seq()[i] == before.servitor.seq()[i]);
            } else if i > pos {
                assert(g.data.servitor.seq()[i] == before.servitor.seq()[i - 1]);
            }
        }
    }
    g.commit();
    Ok(())
}

/// What an operation request on a service leads to, checked in this order.
pub ghost enum ActionDecision {
    Missing,
    Denied,
    StaleEndpoint(Seq<char>),
    Invoke(Seq<char>, Seq<char>),
}

pub open spec fn decide_action(
    servers: Map<Seq<char>, ServerView>,
    endpoints: Seq<Seq<char>>,
    name: Seq<char>,
    user_id: u64,
    roles: Seq<u64>,
) -> ActionDecision {
    if !servers.contains_key(name) {
        ActionDecision::Missing
    } else if !admitted(servers[name].users, servers[name].roles, user_id, roles) {
        ActionDecision::Denied
    } else if !endpoints.contains(servers[name].servitor) {
        ActionDecision::StaleEndpoint(servers[name].servitor)
    } else {
        ActionDecision::Invoke(servers[name].servitor, servers[name].unit_name)
    }
}

/// Where an admitted operation goes: the endpoint to call and the unit it acts on.
#[derive(Debug, PartialEq, Clone)]
pub struct ActionTarget {
    pub servitor: String,
    pub unit_name: String,
}

/// `r` is the result that `d` calls for on the service `name`.
pub open spec fn decided(r: Result<ActionTarget, ExecuteServitorActionError>, d: ActionDecision, name: Seq<char>, user_id: u64) -> bool {
    match d {
        ActionDecision::Missing => r matches Err(ExecuteServitorActionError::Server(e)) && is_does_not_exist(e, name),
        ActionDecision::Denied => r matches Err(ExecuteServitorActionError::Unauthorized { user, server_name })
            && user == user_id && server_name@ == name,
        ActionDecision::StaleEndpoint(ep) => r matches Err(
            ExecuteServitorActionError::InvalidServitor { server_name, servitor_name },
        ) && server_name@ == name && servitor_name@ == ep,
        ActionDecision::Invoke(ep, unit) => r matches Ok(t) && t.servitor@ == ep && t.unit_name@ == unit,
    }
}

/// Decides an operation request: existence, then authorization, then the endpoint.
pub fn execute_action(
    store: &PersistentJson<Data>,
    endpoints: &[String],
    server_name: &str,
    caller: &Caller,
) -> (r: Result<ActionTarget, ExecuteServitorActionError>)
    requires
        store.wf(),
    ensures
        decided(
            r,
            decide_action(servers(*store), endpoint_names(endpoints@), server_name@, caller.user_id, caller.roles@),
            server_name@,
            caller.user_id,
        ),
{
    let k = match store.data().servitor.find(server_name) {
        None => {
            return Err(ExecuteServitorActionError::Server(ServerError::DoesNotExist { server_name: server_name.to_string() }));
        },
        Some(k) => k,
    };
    let server = &store.data().servitor.entries()[k].1;
    proof {
        assert(store.value().servitor.seq()[k as int].1.wf());
    }
    if !is_user_authorized(caller, &server.authorized_users, &server.authorized_roles) {
        return Err(ExecuteServitorActionError::Unauthorized { user: caller.user_id, server_name: server_name.to_string() });
    }
    if !has_endpoint(endpoints, server.servitor.as_str()) {
        return Err(ExecuteServitorActionError::InvalidServitor {
            server_name: server_name.to_string(),
            servitor_name: server.servitor.clone(),
        });
    }
    Ok(ActionTarget { servitor: server.servitor.clone(), unit_name: server.unit_name.clone() })
}

/// A request for a service that does not exist is turned down before the caller's grants
/// or the configured endpoints are consulted: neither changes the outcome.
pub proof fn lemma_missing_server_short_circuits(
    servers: Map<Seq<char>, ServerView>,
    name: Seq<char>,
    endpoints_a: Seq<Seq<char>>,
    user_a: u64,
    roles_a: Seq<u64>,
    endpoints_b: Seq<Seq<char>>,
    user_b: u64,
    roles_b: Seq<u64>,
)
    requires
        !servers.contains_key(name),
    ensures
        decide_action(servers, endpoints_a, name, user_a, roles_a) == ActionDecision::Missing,
        decide_action(servers, endpoints_a, name, user_a, roles_a) == decide_action(
            servers,
            endpoints_b,
            name,
            user_b,
            roles_b,
        ),
{
}

/// A caller who is not admitted is turned down before the endpoint is consulted.
pub proof fn lemma_denied_before_endpoint(
    servers: Map<Seq<char>, ServerView>,
    name: Seq<char>,
    endpoints_a: Seq<Seq<char>>,
    endpoints_b: Seq<Seq<char>>,
    user_id: u64,
    roles: Seq<u64>,
)
    requires
        servers.contains_key(name),
        !admitted(servers[name].users, servers[name].roles, user_id, roles),
    ensures
        decide_action(servers, endpoints_a, name, user_id, roles) == ActionDecision::Denied,
        decide_action(servers, endpoints_b, name, user_id, roles) == ActionDecision::Denied,
{
}

/// The outcome of an operation once the endpoint has answered: its failure is passed on as it is.
pub fn action_result<T>(answer: Result<T, ServitorError>) -> (r: Result<T, ExecuteServitorActionError>)
    ensures
        answer matches Ok(v) ==> r matches Ok(w) && w == v,
        answer matches Err(e) ==> r matches Err(ExecuteServitorActionError::Servitor(f)) && f == e,
{
    match answer {
        Ok(v) => Ok(v),
        Err(e) => Err(ExecuteServitorActionError::Servitor(e)),
    }
}

/// Classifies an endpoint's HTTP status: 200 succeeds; 400, 401 and 500 have their own
/// failures; anything else is unexpected and keeps the status and the transport's message.
pub fn check_status(status: u16, error: Option<String>) -> (r: Result<(), ServitorError>)
    ensures
        status == 200 ==> r is Ok,
        status == 400 ==> r == Err::<(), ServitorError>(ServitorError::BadRequest),
        status == 401 ==> r == Err::<(), ServitorError>(ServitorError::Unauthorized),
        status == 500 ==> r == Err::<(), ServitorError>(ServitorError::InternalServerError),
        status != 200 && status != 400 && status != 401 && status != 500 ==> (r matches Err(
            ServitorError::Unexpected { status_code, error: e },
        ) && status_code == Some(status) && e == error),
{
    if status == 200 {
        Ok(())
    } else if status == 400 {
        Err(ServitorError::BadRequest)
    } else if status == 401 {
        Err(ServitorError::Unauthorized)
    } else if status == 500 {
        Err(ServitorError::InternalServerError)
    } else {
        Err(ServitorError::Unexpected { status_code: Some(status), error })
    }
}

} // verus!
