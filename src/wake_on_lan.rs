//! Wake targets: registering machines, granting who may wake them, and waking them.
use vstd::prelude::*;

use crate::data::{admitted, is_user_authorized, Caller, Data, MachineView, WakeOnLanMachineInfo};
use crate::mac::{magic_bytes, parse_mac, parsed_as, InvalidMacError, MacAddress, MagicPacket};
use crate::registry::Registry;
use crate::store::{PersistentData, PersistentJson};
use crate::text::name_lt;

verus! {

#[derive(Debug, PartialEq, Clone)]
pub enum MachineError {
    DoesNotExist { machine_name: String },
    AlreadyExists { machine_name: String },
}

#[derive(Debug, PartialEq, Clone)]
pub enum AddMachineError {
    Machine(MachineError),
    InvalidMac(InvalidMacError),
}

#[derive(Debug, PartialEq, Clone)]
pub enum RemoveMachineError {
    Machine(MachineError),
}

/// Declares `std::io::ErrorKind`, the kind of transport failure a signal sender reports,
/// so that a wake outcome can carry it; nothing is assumed about its values.
#[verifier::external_type_specification]
#[verifier::external_body]
pub struct ExIoErrorKind(std::io::ErrorKind);

#[derive(Debug, PartialEq)]
pub enum WakeError {
    Machine(MachineError),
    Io { kind: std::io::ErrorKind },
    Unauthorized { user: u64, machine_name: String },
}

/// Whose permission an edit is about.
#[derive(Debug, PartialEq, Eq, Clone, Copy)]
pub enum Entity {
    User(u64),
    Role(u64),
}

#[derive(Debug, PartialEq, Clone)]
pub enum AddPermissionError {
    Machine(MachineError),
    AlreadyAuthorized { machine_name: String, entity: Entity },
}

#[derive(Debug, PartialEq, Clone)]
pub enum RemovePermissionError {
    Machine(MachineError),
    AlreadyNotAuthorized { machine_name: String, entity: Entity },
}

pub open spec fn machines(store: PersistentJson<Data>) -> Map<Seq<char>, MachineView> {
    store.value()@.wake_on_lan
}

/// After a successful change: the other registry is untouched and the whole document awaits writing.
pub open spec fn committed(old_store: PersistentJson<Data>, new_store: PersistentJson<Data>) -> bool {
    &&& new_store.wf()
    &&& new_store.file() == old_store.file()
    &&& new_store.value()@.servitor == old_store.value()@.servitor
    &&& new_store.pending() == Some(new_store.value().encoded())
}

pub open spec fn is_does_not_exist(e: MachineError, name: Seq<char>) -> bool {
    e matches MachineError::DoesNotExist { machine_name } && machine_name@ == name
}

pub open spec fn is_already_exists(e: MachineError, name: Seq<char>) -> bool {
    e matches MachineError::AlreadyExists { machine_name } && machine_name@ == name
}

/// What adding a machine must do: a taken name fails first, then an address that does
/// not parse; otherwise the machine is added with nobody authorized.
pub open spec fn add_machine_post(
    s0: PersistentJson<Data>,
    name: Seq<char>,
    mac: Seq<char>,
    r: Result<(), AddMachineError>,
    s1: PersistentJson<Data>,
) -> bool {
    &&& s1.wf()
    &&& (machines(s0).contains_key(name) ==> (r matches Err(AddMachineError::Machine(e)) && is_already_exists(e, name)))
    &&& (!machines(s0).contains_key(name) && parse_mac(mac) is Err ==> (r matches Err(AddMachineError::InvalidMac(e))
        && parsed_as(Err(e), mac)))
    &&& (r is Err ==> s1 == s0)
    &&& (r is Ok <==> !machines(s0).contains_key(name) && parse_mac(mac) is Ok)
    &&& (r is Ok ==> committed(s0, s1) && machines(s1) == machines(s0).insert(
        name,
        MachineView { mac: parse_mac(mac)->Ok_0, users: Set::empty(), roles: Set::empty() },
    ))
}

/// Adding under a name that an earlier add took fails with already-exists and leaves the
/// store as it was.
pub proof fn lemma_add_machine_twice(
    s0: PersistentJson<Data>,
    s1: PersistentJson<Data>,
    s2: PersistentJson<Data>,
    name: Seq<char>,
    mac1: Seq<char>,
    mac2: Seq<char>,
    r1: Result<(), AddMachineError>,
    r2: Result<(), AddMachineError>,
)
    requires
        add_machine_post(s0, name, mac1, r1, s1),
        r1 is Ok,
        add_machine_post(s1, name, mac2, r2, s2),
    ensures
        r2 matches Err(AddMachineError::Machine(e)) && is_already_exists(e, name),
        s2 == s1,
{
    assert(machines(s1).contains_key(name));
}

/// Registers a machine under a new name, with nobody authorized yet.
pub fn add_machine(store: &mut PersistentJson<Data>, name: &str, mac: &str) -> (r: Result<(), AddMachineError>)
    requires
        old(store).wf(),
    ensures
        add_machine_post(*old(store), name@, mac@, r, *final(store)),
{
    if store.data().wake_on_lan.contains(name) {
        return Err(AddMachineError::Machine(MachineError::AlreadyExists { machine_name: name.to_string() }));
    }
    let mac_address = match MacAddress::from_str(mac) {
        Ok(m) => m,
        Err(e) => {
            return Err(AddMachineError::InvalidMac(e));
        },
    };
    let record = WakeOnLanMachineInfo::new(mac_address);
    let g = store.write();
    let ghost before = *g.data;
    let pos = g.data.wake_on_lan.insert_new(name.to_string(), record);
    proof {
        assert forall|i: int| 0 <= i < g.data.wake_on_lan.seq().len() implies (#[trigger] g.data.wake_on_lan.seq()[i]).1.wf() by {
            if i < pos {
                assert(g.data.wake_on_lan.seq()[i] == before.wake_on_lan.seq()[i]);
            } else if i > pos {
                assert(g.data.wake_on_lan.seq()[i] == before.wake_on_lan.seq()[i - 1]);
            }
        }
    }
    g.commit();
    Ok(())
}


/// Takes the record named `name` out of the wake targets.
pub fn remove_machine(store: &mut PersistentJson<Data>, name: &str) -> (r: Result<(), RemoveMachineError>)
    requires
        old(store).wf(),
    ensures
        final(store).wf(),
        r is Ok <==> machines(*old(store)).contains_key(name@),
        r matches Err(RemoveMachineError::Machine(e)) ==> is_does_not_exist(e, name@),
        r is Err ==> *final(store) == *old(store),
        r is Ok ==> committed(*old(store), *final(store)) && machines(*final(store)) == machines(
            *old(store),
        ).remove(name@),
{
    if !store.data().wake_on_lan.contains(name) {
        return Err(RemoveMachineError::Machine(MachineError::DoesNotExist { machine_name: name.to_string() }));
    }
    let g = store.write();
    let ghost before = *g.data;
    g.data.wake_on_lan.remove(name);
    proof {
        assert forall|i: int| 0 <= i < g.data.wake_on_lan.seq().len() implies (#[trigger] g.data.wake_on_lan.seq()[i]).1.wf() by {
            let k = choose|k: int| 0 <= k < before.wake_on_lan.seq().len() && g.data.wake_on_lan.seq()
                == before.wake_on_lan.seq().remove(k);
            if i < k {
                assert(g.data.wake_on_lan.seq()[i] == before.wake_on_lan.seq()[i]);
            } else {
                assert(g.data.wake_on_lan.seq()[i] == before.wake_on_lan.seq()[i + 1]);
            }
        }
    }
    g.commit();
    Ok(())
}

/// Owned copies of every wake target, in ascending name order.
pub fn list_machines(store: &PersistentJson<Data>) -> (r: Vec<(String, WakeOnLanMachineInfo)>)
    requires
        store.wf(),
    ensures
        r@.len() == machines(*store).len(),
        forall|i: int| 0 <= i < r@.len() ==> #[trigger] machines(*store).contains_key(r@[i].0@)
            && machines(*store)[r@[i].0@] == r@[i].1@,
        forall|k: Seq<char>| #[trigger] machines(*store).contains_key(k) ==> exists|i: int|
            0 <= i < r@.len() && #[trigger] r@[i].0@ == k,
        forall|i: int, j: int| 0 <= i < j < r@.len() ==> #[trigger] name_lt(r@[i].0@, r@[j].0@),
{
    let reg = &store.data().wake_on_lan;
    proof {
        reg.lemma_seq_view();
    }
    let entries = reg.entries();
    let mut r: Vec<(String, WakeOnLanMachineInfo)> = Vec::new();
    let mut i: usize = 0;
    while i < entries.len()
        invariant
            i <= entries@.len(),
            entries@ == reg.seq(),
            reg.wf(),
            r@.len() == i,
            forall|k: int| 0 <= k < i ==> (#[trigger] r@[k]).0@ == entries@[k].0@ && r@[k].1@ == entries@[k].1@,
        decreases entries@.len() - i,
    {
        r.push((entries[i].0.clone(), entries[i].1.snapshot()));
        i = i + 1;
    }
    proof {
        reg.lemma_sorted();
        assert forall|a: int, b: int| 0 <= a < b < r@.len() implies #[trigger] name_lt(r@[a].0@, r@[b].0@) by {
            assert(r@[a].0@ == reg.seq()[a].0@);
            assert(r@[b].0@ == reg.seq()[b].0@);
        }
        assert forall|k: Seq<char>| #[trigger] machines(*store).contains_key(k) implies exists|i: int|
            0 <= i < r@.len() && #[trigger] r@[i].0@ == k by {
            let i = choose|i: int| 0 <= i < reg.seq().len() && #[trigger] reg.seq()[i].0@ == k;
            assert(r@[i].0@ == k);
        }
    }
    r
}

/// An owned copy of the record named `name`.
pub fn describe_machine(store: &PersistentJson<Data>, name: &str) -> (r: Result<WakeOnLanMachineInfo, MachineError>)
    requires
        store.wf(),
    ensures
        r is Ok <==> machines(*store).contains_key(name@),
        r matches Ok(m) ==> m@ == machines(*store)[name@],
        r matches Err(e) ==> is_does_not_exist(e, name@),
{
    match store.data().wake_on_lan.get(name) {
        Some(m) => Ok(m.snapshot()),
        None => Err(MachineError::DoesNotExist { machine_name: name.to_string() }),
    }
}

/// The record after granting (`grant`) or revoking `entity`.
pub open spec fn edited(v: MachineView, entity: Entity, grant: bool) -> MachineView {
    match entity {
        Entity::User(id) => MachineView {
            users: if grant { v.users.insert(id) } else { v.users.remove(id) },
            ..v
        },
        Entity::Role(id) => MachineView {
            roles: if grant { v.roles.insert(id) } else { v.roles.remove(id) },
            ..v
        },
    }
}

/// Whether `entity` is on the matching list of the record.
pub open spec fn listed(v: MachineView, entity: Entity) -> bool {
    match entity {
        Entity::User(id) => v.users.contains(id),
        Entity::Role(id) => v.roles.contains(id),
    }
}

enum Edit {
    Missing,
    Unchanged,
    Changed,
}

/// Grants or revokes `entity` on the machine `name`, writing only when something changes.
fn edit_permission(store: &mut PersistentJson<Data>, name: &str, entity: Entity, grant: bool) -> (r: Edit)
    requires
        old(store).wf(),
    ensures
        final(store).wf(),
        r is Missing <==> !machines(*old(store)).contains_key(name@),
        r is Unchanged <==> machines(*old(store)).contains_key(name@) && listed(
            machines(*old(store))[name@],
            entity,
        ) == grant,
        !(r is Changed) ==> *final(store) == *old(store),
        r is Changed ==> committed(*old(store), *final(store)) && machines(*final(store)) == machines(
            *old(store),
        ).insert(name@, edited(machines(*old(store))[name@], entity, grant)),
{
    let k = match store.data().wake_on_lan.find(name) {
        None => {
            return Edit::Missing;
        },
        Some(k) => k,
    };
    let reg = &store.data().wake_on_lan;
    let present = match entity {
        Entity::User(id) => reg.entries()[k].1.authorized_users.contains(id),
        Entity::Role(id) => reg.entries()[k].1.authorized_roles.contains(id),
    };
    if present == grant {
        return Edit::Unchanged;
    }
    let g = store.write();
    let ghost before = *g.data;
    let ghost old_rec = before.wake_on_lan.seq()[k as int].1;
    let rec = g.data.wake_on_lan.record_mut(k);
    match entity {
        Entity::User(id) => {
            if grant {
                rec.authorized_users.insert(id);
            } else {
                rec.authorized_users.remove(id);
            }
        },
        Entity::Role(id) => {
            if grant {
                rec.authorized_roles.insert(id);
            } else {
                rec.authorized_roles.remove(id);
            }
        },
    }
    proof {
        let new_rec = g.data.wake_on_lan.seq()[k as int].1;
        Registry::lemma_update(&before.wake_on_lan, &g.data.wake_on_lan, k as int, new_rec);
        assert(new_rec@ == edited(old_rec@, entity, grant));
        assert forall|i: int| 0 <= i < g.data.wake_on_lan.seq().len() implies (#[trigger] g.data.wake_on_lan.seq()[i]).1.wf() by {
            if i != k {
                assert(g.data.wake_on_lan.seq()[i] == before.wake_on_lan.seq()[i]);
            }
        }
    }
    g.commit();
    Edit::Changed
}

/// What granting `entity` on `name` must do: add it when it is not yet listed, else fail
/// with nothing changed.
pub open spec fn grant_post(
    s0: PersistentJson<Data>,
    name: Seq<char>,
    entity: Entity,
    r: Result<(), AddPermissionError>,
    s1: PersistentJson<Data>,
) -> bool {
    &&& s1.wf()
    &&& (r is Ok <==> machines(s0).contains_key(name) && !listed(machines(s0)[name], entity))
    &&& (!machines(s0).contains_key(name) ==> (r matches Err(AddPermissionError::Machine(e)) && is_does_not_exist(e, name)))
    &&& (machines(s0).contains_key(name) && listed(machines(s0)[name], entity) ==> (r matches Err(
        AddPermissionError::AlreadyAuthorized { machine_name: n, entity: x },
    ) && n@ == name && x == entity))
    &&& (r is Err ==> s1 == s0)
    &&& (r is Ok ==> committed(s0, s1) && machines(s1) == machines(s0).insert(name, edited(machines(s0)[name], entity, true)))
}

/// What revoking `entity` on `name` must do: take it off when it is listed, else fail
/// with nothing changed.
pub open spec fn revoke_post(
    s0: PersistentJson<Data>,
    name: Seq<char>,
    entity: Entity,
    r: Result<(), RemovePermissionError>,
    s1: PersistentJson<Data>,
) -> bool {
    &&& s1.wf()
    &&& (r is Ok <==> machines(s0).contains_key(name) && listed(machines(s0)[name], entity))
    &&& (!machines(s0).contains_key(name) ==> (r matches Err(RemovePermissionError::Machine(e)) && is_does_not_exist(e, name)))
    &&& (machines(s0).contains_key(name) && !listed(machines(s0)[name], entity) ==> (r matches Err(
        RemovePermissionError::AlreadyNotAuthorized { machine_name: n, entity: x },
    ) && n@ == name && x == entity))
    &&& (r is Err ==> s1 == s0)
    &&& (r is Ok ==> committed(s0, s1) && machines(s1) == machines(s0).insert(name, edited(machines(s0)[name], entity, false)))
}

/// Granting the same entity twice: the first succeeds, the second reports it as already
/// granted and changes nothing.
pub proof fn lemma_grant_twice(
    s0: PersistentJson<Data>,
    s1: PersistentJson<Data>,
    s2: PersistentJson<Data>,
    name: Seq<char>,
    entity: Entity,
    r1: Result<(), AddPermissionError>,
    r2: Result<(), AddPermissionError>,
)
    requires
        grant_post(s0, name, entity, r1, s1),
        r1 is Ok,
        grant_post(s1, name, entity, r2, s2),
    ensures
        r2 matches Err(AddPermissionError::AlreadyAuthorized { machine_name: n, entity: x }) && n@ == name && x == entity,
        s2 == s1,
{
    assert(machines(s1).contains_key(name));
    assert(listed(machines(s1)[name], entity));
}

/// Revoking the same entity twice: the first succeeds, the second reports it as not
/// granted and changes nothing.
pub proof fn lemma_revoke_twice(
    s0: PersistentJson<Data>,
    s1: PersistentJson<Data>,
    s2: PersistentJson<Data>,
    name: Seq<char>,
    entity: Entity,
    r1: Result<(), RemovePermissionError>,
    r2: Result<(), RemovePermissionError>,
)
    requires
        revoke_post(s0, name, entity, r1, s1),
        r1 is Ok,
        revoke_post(s1, name, entity, r2, s2),
    ensures
        r2 matches Err(RemovePermissionError::AlreadyNotAuthorized { machine_name: n, entity: x }) && n@ == name && x == entity,
        s2 == s1,
{
    assert(machines(s1).contains_key(name));
    assert(!listed(machines(s1)[name], entity));
}

/// Lets the user `user_id` wake the machine.
pub fn permit_user(store: &mut PersistentJson<Data>, machine_name: &str, user_id: u64) -> (r: Result<(), AddPermissionError>)
    requires
        old(store).wf(),
    ensures
        grant_post(*old(store), machine_name@, Entity::User(user_id), r, *final(store)),
{
    match edit_permission(store, machine_name, Entity::User(user_id), true) {
        Edit::Missing => Err(AddPermissionError::Machine(MachineError::DoesNotExist { machine_name: machine_name.to_string() })),
        Edit::Unchanged => Err(AddPermissionError::AlreadyAuthorized { machine_name: machine_name.to_string(), entity: Entity::User(user_id) }),
        Edit::Changed => Ok(()),
    }
}

/// Withdraws the user's permission to wake the machine.
pub fn revoke_user(store: &mut PersistentJson<Data>, machine_name: &str, user_id: u64) -> (r: Result<(), RemovePermissionError>)
    requires
        old(store).wf(),
    ensures
        revoke_post(*old(store), machine_name@, Entity::User(user_id), r, *final(store)),
{
    match edit_permission(store, machine_name, Entity::User(user_id), false) {
        Edit::Missing => Err(RemovePermissionError::Machine(MachineError::DoesNotExist { machine_name: machine_name.to_string() })),
        Edit::Unchanged => Err(RemovePermissionError::AlreadyNotAuthorized { machine_name: machine_name.to_string(), entity: Entity::User(user_id) }),
        Edit::Changed => Ok(()),
    }
}

/// Lets members of the group `role_id` wake the machine.
pub fn permit_role(store: &mut PersistentJson<Data>, machine_name: &str, role_id: u64) -> (r: Result<(), AddPermissionError>)
    requires
        old(store).wf(),
    ensures
        grant_post(*old(store), machine_name@, Entity::Role(role_id), r, *final(store)),
{
    match edit_permission(store, machine_name, Entity::Role(role_id), true) {
        Edit::Missing => Err(AddPermissionError::Machine(MachineError::DoesNotExist { machine_name: machine_name.to_string() })),
        Edit::Unchanged => Err(AddPermissionError::AlreadyAuthorized { machine_name: machine_name.to_string(), entity: Entity::Role(role_id) }),
        Edit::Changed => Ok(()),
    }
}

/// Withdraws the group's permission to wake the machine.
pub fn revoke_role(store: &mut PersistentJson<Data>, machine_name: &str, role_id: u64) -> (r: Result<(), RemovePermissionError>)
    requires
        old(store).wf(),
    ensures
        revoke_post(*old(store), machine_name@, Entity::Role(role_id), r, *final(store)),
{
    match edit_permission(store, machine_name, Entity::Role(role_id), false) {
        Edit::Missing => Err(RemovePermissionError::Machine(MachineError::DoesNotExist { machine_name: machine_name.to_string() })),
        Edit::Unchanged => Err(RemovePermissionError::AlreadyNotAuthorized { machine_name: machine_name.to_string(), entity: Entity::Role(role_id) }),
        Edit::Changed => Ok(()),
    }
}

/// Decides a wake request: lookup, then authorization, then the payload to broadcast.
pub fn wake(store: &PersistentJson<Data>, caller: &Caller, machine_name: &str) -> (r: Result<MagicPacket, WakeError>)
    requires
        store.wf(),
    ensures
        !machines(*store).contains_key(machine_name@) ==> (r matches Err(WakeError::Machine(e))
            && is_does_not_exist(e, machine_name@)),
        machines(*store).contains_key(machine_name@) ==> ({
            let m = machines(*store)[machine_name@];
            if admitted(m.users, m.roles, caller.user_id, caller.roles@) {
                r matches Ok(p) && p@ == magic_bytes(m.mac)
            } else {
                r matches Err(WakeError::Unauthorized { user, machine_name: n }) && user == caller.user_id
                    && n@ == machine_name@
            }
        }),
{
    let k = match store.data().wake_on_lan.find(machine_name) {
        None => {
            return Err(WakeError::Machine(MachineError::DoesNotExist { machine_name: machine_name.to_string() }));
        },
        Some(k) => k,
    };
    let machine = &store.data().wake_on_lan.entries()[k].1;
    proof {
        assert(store.value().wake_on_lan.seq()[k as int].1.wf());
    }
    if !is_user_authorized(caller, &machine.authorized_users, &machine.authorized_roles) {
        return Err(WakeError::Unauthorized { user: caller.user_id, machine_name: machine_name.to_string() });
    }
    Ok(MagicPacket::from_mac(&machine.mac))
}

/// The outcome of a wake once the sender has tried to broadcast the payload.
pub fn wake_sent(sent: Result<(), std::io::ErrorKind>) -> (r: Result<(), WakeError>)
    ensures
        sent is Ok ==> r is Ok,
        sent matches Err(k) ==> r == Err::<(), WakeError>(WakeError::Io { kind: k }),
{
    match sent {
        Ok(()) => Ok(()),
        Err(kind) => Err(WakeError::Io { kind }),
    }
}

} // verus!
