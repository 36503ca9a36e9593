//! The persisted document: wake targets, managed services, and who may use them.
use vstd::prelude::*;

use crate::ids::IdSet;
use crate::mac::MacAddress;
use crate::registry::Registry;

verus! {

/// A machine that can be woken, and who may wake it.
#[derive(Debug, PartialEq, Clone)]
pub struct WakeOnLanMachineInfo {
    pub mac: MacAddress,
    pub authorized_users: IdSet,
    pub authorized_roles: IdSet,
}

pub ghost struct MachineView {
    pub mac: Seq<u8>,
    pub users: Set<u64>,
    pub roles: Set<u64>,
}

impl View for WakeOnLanMachineInfo {
    type V = MachineView;

    open spec fn view(&self) -> MachineView {
        MachineView { mac: self.mac@, users: self.authorized_users@, roles: self.authorized_roles@ }
    }
}

impl WakeOnLanMachineInfo {
    pub open spec fn wf(&self) -> bool {
        self.authorized_users.wf() && self.authorized_roles.wf()
    }

    /// A machine with nobody authorized yet.
    pub fn new(mac: MacAddress) -> (r: Self)
        ensures
            r.wf(),
            r@ == (MachineView { mac: mac@, users: Set::empty(), roles: Set::empty() }),
    {
        WakeOnLanMachineInfo { mac, authorized_users: IdSet::new(), authorized_roles: IdSet::new() }
    }

    /// An owned copy.
    pub fn snapshot(&self) -> (r: Self)
        ensures
            r@ == self@,
            r.wf() == self.wf(),
            r.authorized_users.seq() == self.authorized_users.seq(),
            r.authorized_roles.seq() == self.authorized_roles.seq(),
    {
        WakeOnLanMachineInfo {
            mac: self.mac.snapshot(),
            authorized_users: self.authorized_users.snapshot(),
            authorized_roles: self.authorized_roles.snapshot(),
        }
    }
}

/// A service on a remote control endpoint, and who may operate it.
#[derive(Debug, PartialEq, Clone)]
pub struct ServerInfo {
    pub servitor: String,
    pub unit_name: String,
    pub authorized_users: IdSet,
    pub authorized_roles: IdSet,
}

pub ghost struct ServerView {
    pub servitor: Seq<char>,
    pub unit_name: Seq<char>,
    pub users: Set<u64>,
    pub roles: Set<u64>,
}

impl View for ServerInfo {
    type V = ServerView;

    open spec fn view(&self) -> ServerView {
        ServerView {
            servitor: self.servitor@,
            unit_name: self.unit_name@,
            users: self.authorized_users@,
            roles: self.authorized_roles@,
        }
    }
}

impl ServerInfo {
    pub open spec fn wf(&self) -> bool {
        self.authorized_users.wf() && self.authorized_roles.wf()
    }

    /// A service with nobody authorized yet.
    pub fn new(servitor: String, unit_name: String) -> (r: Self)
        ensures
            r.wf(),
            r@ == (ServerView {
                servitor: servitor@,
                unit_name: unit_name@,
                users: Set::empty(),
                roles: Set::empty(),
            }),
    {
        ServerInfo { servitor, unit_name, authorized_users: IdSet::new(), authorized_roles: IdSet::new() }
    }

    /// An owned copy.
    pub fn snapshot(&self) -> (r: Self)
        ensures
            r@ == self@,
            r.wf() == self.wf(),
            r.authorized_users.seq() == self.authorized_users.seq(),
            r.authorized_roles.seq() == self.authorized_roles.seq(),
    {
        ServerInfo {
            servitor: self.servitor.clone(),
            unit_name: self.unit_name.clone(),
            authorized_users: self.authorized_users.snapshot(),
            authorized_roles: self.authorized_roles.snapshot(),
        }
    }
}

/// The whole persisted document.
#[derive(Debug, PartialEq, Clone)]
pub struct Data {
    pub wake_on_lan: Registry<WakeOnLanMachineInfo>,
    pub servitor: Registry<ServerInfo>,
}

pub ghost struct DataView {
    pub wake_on_lan: Map<Seq<char>, MachineView>,
    pub servitor: Map<Seq<char>, ServerView>,
}

impl View for Data {
    type V = DataView;

    open spec fn view(&self) -> DataView {
        DataView { wake_on_lan: self.wake_on_lan@, servitor: self.servitor@ }
    }
}

impl Data {
    pub open spec fn wf(&self) -> bool {
        &&& self.wake_on_lan.wf()
        &&& self.servitor.wf()
        &&& forall|i: int| 0 <= i < self.wake_on_lan.seq().len() ==> (#[trigger] self.wake_on_lan.seq()[i]).1.wf()
        &&& forall|i: int| 0 <= i < self.servitor.seq().len() ==> (#[trigger] self.servitor.seq()[i]).1.wf()
    }

    /// The empty document.
    pub fn new() -> (r: Data)
        ensures
            r.wf(),
            r@.wake_on_lan == Map::<Seq<char>, MachineView>::empty(),
            r@.servitor == Map::<Seq<char>, ServerView>::empty(),
    {
        Data { wake_on_lan: Registry::new(), servitor: Registry::new() }
    }
}

/// Who is asking: an individual, and the groups they act with (none outside a group context).
#[derive(Debug, PartialEq, Clone)]
pub struct Caller {
    pub user_id: u64,
    pub roles: Vec<u64>,
}

/// Admission: the caller is listed, or one of the caller's groups is.
pub open spec fn admitted(users: Set<u64>, roles: Set<u64>, user_id: u64, caller_roles: Seq<u64>) -> bool {
    users.contains(user_id) || exists|i: int| 0 <= i < caller_roles.len() && roles.contains(#[trigger] caller_roles[i])
}

/// Whether `caller` may act on a record with these allow-lists.
pub fn is_user_authorized(caller: &Caller, users: &IdSet, roles: &IdSet) -> (r: bool)
    requires
        users.wf(),
        roles.wf(),
    ensures
        r == admitted(users@, roles@, caller.user_id, caller.roles@),
{
    if users.contains(caller.user_id) {
        return true;
    }
    let mut i: usize = 0;
    while i < caller.roles.len()
        invariant
            i <= caller.roles@.len(),
            roles.wf(),
            forall|j: int| 0 <= j < i ==> !roles@.contains(#[trigger] caller.roles@[j]),
        decreases caller.roles@.len() - i,
    {
        if roles.contains(caller.roles[i]) {
            return true;
        }
        i = i + 1;
    }
    false
}

/// With no group context, only an individual grant admits, whatever groups the record lists.
pub proof fn lemma_no_group_context(users: Set<u64>, roles: Set<u64>, user_id: u64)
    ensures
        admitted(users, roles, user_id, Seq::empty()) <==> users.contains(user_id),
{
}

/// Admission is individual match or a shared group, and nothing else.
pub proof fn lemma_admission_cases(users: Set<u64>, roles: Set<u64>, user_id: u64, caller_roles: Seq<u64>)
    ensures
        admitted(users, roles, user_id, caller_roles) <==> (users.contains(user_id) || !roles.intersect(
            caller_roles.to_set(),
        ).is_empty()),
{
    if exists|i: int| 0 <= i < caller_roles.len() && roles.contains(#[trigger] caller_roles[i]) {
        let i = choose|i: int| 0 <= i < caller_roles.len() && roles.contains(#[trigger] caller_roles[i]);
        assert(roles.intersect(caller_roles.to_set()).contains(caller_roles[i]));
    }
    if !roles.intersect(caller_roles.to_set()).is_empty() {
        let x = roles.intersect(caller_roles.to_set()).choose();
        assert(roles.intersect(caller_roles.to_set()).contains(x));
        let i = choose|i: int| 0 <= i < caller_roles.len() && caller_roles[i] == x;
        assert(roles.contains(caller_roles[i]));
    }
}

} // verus!
