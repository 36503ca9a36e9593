//! How the document is laid out as JSON, and reading it back.
//!
//! The document is an object with the keys `wake_on_lan` and `servitor`, each an object
//! from record name to record. A hardware address is an array of six byte values; an
//! authorization list is an array of ids in ascending order, left out when empty.
use vstd::prelude::*;

use crate::data::{Data, DataView, MachineView, ServerInfo, ServerView, WakeOnLanMachineInfo};
use crate::ids::IdSet;
use crate::json::{field, fields_view, get_field, items_view, push_field, Json, JsonV};
use crate::mac::MacAddress;
use crate::registry::{fold_entries, Registry};
use crate::store::PersistentData;

verus! {

broadcast use vstd::std_specs::vec::group_vec_axioms;

pub open spec fn key_machines() -> Seq<char> {
    "wake_on_lan"@
}

pub open spec fn key_servers() -> Seq<char> {
    "servitor"@
}

pub open spec fn key_mac() -> Seq<char> {
    "mac"@
}

pub open spec fn key_users() -> Seq<char> {
    "authorized_users"@
}

pub open spec fn key_roles() -> Seq<char> {
    "authorized_roles"@
}

pub open spec fn key_endpoint() -> Seq<char> {
    "servitor"@
}

pub open spec fn key_unit() -> Seq<char> {
    "unit_name"@
}

// ---- reading ----

pub open spec fn all_unsigned(items: Seq<JsonV>) -> bool {
    forall|i: int| 0 <= i < items.len() ==> #[trigger] items[i] is Unsigned
}

pub open spec fn unsigned_values(items: Seq<JsonV>) -> Seq<u64> {
    items.map_values(|j: JsonV| j->Unsigned_0)
}

/// An authorization list: absent means empty; otherwise an array of ids.
pub open spec fn decode_ids(j: Option<JsonV>) -> Option<Set<u64>> {
    match j {
        None => Some(Set::empty()),
        Some(JsonV::Array(items)) => if all_unsigned(items) {
            Some(unsigned_values(items).to_set())
        } else {
            None
        },
        _ => None,
    }
}

/// A hardware address: an array of exactly six byte values.
pub open spec fn decode_mac(j: Option<JsonV>) -> Option<Seq<u8>> {
    match j {
        Some(JsonV::Array(items)) => if items.len() == 6 && all_unsigned(items) && (forall|i: int|
            0 <= i < 6 ==> #[trigger] items[i]->Unsigned_0 < 256) {
            Some(Seq::new(6, |i: int| items[i]->Unsigned_0 as u8))
        } else {
            None
        },
        _ => None,
    }
}

pub open spec fn decode_text(j: Option<JsonV>) -> Option<Seq<char>> {
    match j {
        Some(JsonV::Str(s)) => Some(s),
        _ => None,
    }
}

pub open spec fn decode_machine(j: JsonV) -> Option<MachineView> {
    match j {
        JsonV::Object(f) => match (
            decode_mac(field(f, key_mac())),
            decode_ids(field(f, key_users())),
            decode_ids(field(f, key_roles())),
        ) {
            (Some(mac), Some(users), Some(roles)) => Some(MachineView { mac, users, roles }),
            _ => None,
        },
        _ => None,
    }
}

pub open spec fn decode_server(j: JsonV) -> Option<ServerView> {
    match j {
        JsonV::Object(f) => match (
            decode_text(field(f, key_endpoint())),
            decode_text(field(f, key_unit())),
            decode_ids(field(f, key_users())),
            decode_ids(field(f, key_roles())),
        ) {
            (Some(servitor), Some(unit_name), Some(users), Some(roles)) => Some(
                ServerView { servitor, unit_name, users, roles },
            ),
            _ => None,
        },
        _ => None,
    }
}

/// Name to record, a later field with the same name replacing an earlier one.
pub open spec fn decode_machines(f: Seq<(Seq<char>, JsonV)>) -> Option<Map<Seq<char>, MachineView>>
    decreases f.len(),
{
    if f.len() == 0 {
        Some(Map::empty())
    } else {
        match (decode_machines(f.drop_last()), decode_machine(f.last().1)) {
            (Some(m), Some(v)) => Some(m.insert(f.last().0, v)),
            _ => None,
        }
    }
}

pub open spec fn decode_servers(f: Seq<(Seq<char>, JsonV)>) -> Option<Map<Seq<char>, ServerView>>
    decreases f.len(),
{
    if f.len() == 0 {
        Some(Map::empty())
    } else {
        match (decode_servers(f.drop_last()), decode_server(f.last().1)) {
            (Some(m), Some(v)) => Some(m.insert(f.last().0, v)),
            _ => None,
        }
    }
}

/// A section of the document: absent means empty.
pub open spec fn decode_machine_section(j: Option<JsonV>) -> Option<Map<Seq<char>, MachineView>> {
    match j {
        None => Some(Map::empty()),
        Some(JsonV::Object(f)) => decode_machines(f),
        _ => None,
    }
}

pub open spec fn decode_server_section(j: Option<JsonV>) -> Option<Map<Seq<char>, ServerView>> {
    match j {
        None => Some(Map::empty()),
        Some(JsonV::Object(f)) => decode_servers(f),
        _ => None,
    }
}

pub open spec fn decode_data(j: JsonV) -> Option<DataView> {
    match j {
        JsonV::Object(f) => match (
            decode_machine_section(field(f, key_machines())),
            decode_server_section(field(f, key_servers())),
        ) {
            (Some(wake_on_lan), Some(servitor)) => Some(DataView { wake_on_lan, servitor }),
            _ => None,
        },
        _ => None,
    }
}

// ---- writing ----

pub open spec fn ids_json(s: IdSet) -> JsonV {
    JsonV::Array(s.seq().map_values(|x: u64| JsonV::Unsigned(x)))
}

pub open spec fn mac_json(m: Seq<u8>) -> JsonV {
    JsonV::Array(m.map_values(|b: u8| JsonV::Unsigned(b as u64)))
}

/// The authorization lists, each left out when empty.
pub open spec fn auth_fields(users: IdSet, roles: IdSet) -> Seq<(Seq<char>, JsonV)> {
    (if users.seq().len() == 0 {
        Seq::empty()
    } else {
        seq![(key_users(), ids_json(users))]
    }) + (if roles.seq().len() == 0 {
        Seq::empty()
    } else {
        seq![(key_roles(), ids_json(roles))]
    })
}

pub open spec fn machine_json(m: WakeOnLanMachineInfo) -> JsonV {
    JsonV::Object(seq![(key_mac(), mac_json(m.mac@))] + auth_fields(m.authorized_users, m.authorized_roles))
}

pub open spec fn server_json(s: ServerInfo) -> JsonV {
    JsonV::Object(
        seq![(key_endpoint(), JsonV::Str(s.servitor@)), (key_unit(), JsonV::Str(s.unit_name@))]
            + auth_fields(s.authorized_users, s.authorized_roles),
    )
}

pub open spec fn machines_json(s: Seq<(String, WakeOnLanMachineInfo)>) -> Seq<(Seq<char>, JsonV)> {
    s.map_values(|e: (String, WakeOnLanMachineInfo)| (e.0@, machine_json(e.1)))
}

pub open spec fn servers_json(s: Seq<(String, ServerInfo)>) -> Seq<(Seq<char>, JsonV)> {
    s.map_values(|e: (String, ServerInfo)| (e.0@, server_json(e.1)))
}

pub open spec fn data_json(d: Data) -> JsonV {
    JsonV::Object(
        seq![
            (key_machines(), JsonV::Object(machines_json(d.wake_on_lan.seq()))),
            (key_servers(), JsonV::Object(servers_json(d.servitor.seq()))),
        ],
    )
}

// ---- round trip ----

proof fn lemma_keys_differ()
    ensures
        key_mac() != key_users(),
        key_mac() != key_roles(),
        key_users() != key_roles(),
        key_endpoint() != key_unit(),
        key_endpoint() != key_users(),
        key_endpoint() != key_roles(),
        key_unit() != key_users(),
        key_unit() != key_roles(),
        key_machines() != key_servers(),
{
    reveal_strlit("mac");
    reveal_strlit("authorized_users");
    reveal_strlit("authorized_roles");
    reveal_strlit("servitor");
    reveal_strlit("unit_name");
    reveal_strlit("wake_on_lan");
    assert(key_users()[11] != key_roles()[11]);
    assert(key_users().len() != key_mac().len());
    assert(key_roles().len() != key_mac().len());
    assert(key_endpoint().len() != key_unit().len());
    assert(key_endpoint().len() != key_users().len());
    assert(key_endpoint().len() != key_roles().len());
    assert(key_unit().len() != key_users().len());
    assert(key_unit().len() != key_roles().len());
    assert(key_machines().len() != key_servers().len());
}

proof fn lemma_ids_round_trip(s: IdSet)
    ensures
        decode_ids(Some(ids_json(s))) == Some(s@),
{
    let items = s.seq().map_values(|x: u64| JsonV::Unsigned(x));
    assert(unsigned_values(items) =~= s.seq());
    s.lemma_view();
}

proof fn lemma_auth_round_trip(head: Seq<(Seq<char>, JsonV)>, users: IdSet, roles: IdSet)
    requires
        forall|i: int| 0 <= i < head.len() ==> #[trigger] head[i].0 != key_users() && head[i].0 != key_roles(),
    ensures
        decode_ids(field(head + auth_fields(users, roles), key_users())) == Some(users@),
        decode_ids(field(head + auth_fields(users, roles), key_roles())) == Some(roles@),
    decreases head.len(),
{
    lemma_keys_differ();
    reveal_with_fuel(field, 3);
    if head.len() > 0 {
        assert((head + auth_fields(users, roles))[0] == head[0]);
        assert((head + auth_fields(users, roles)).drop_first() =~= head.drop_first() + auth_fields(users, roles));
        lemma_auth_round_trip(head.drop_first(), users, roles);
    } else {
        assert(head + auth_fields(users, roles) =~= auth_fields(users, roles));
        users.lemma_view();
        roles.lemma_view();
        if users.seq().len() == 0 {
            assert(users.seq() =~= Seq::<u64>::empty());
            assert(users@ =~= Set::<u64>::empty());
        } else {
            lemma_ids_round_trip(users);
        }
        if roles.seq().len() == 0 {
            assert(roles.seq() =~= Seq::<u64>::empty());
            assert(roles@ =~= Set::<u64>::empty());
        } else {
            lemma_ids_round_trip(roles);
        }
        let a = auth_fields(users, roles);
        if users.seq().len() != 0 {
            assert(a[0].0 == key_users());
            if roles.seq().len() != 0 {
                assert(a.drop_first() =~= seq![(key_roles(), ids_json(roles))]);
            } else {
                assert(a.drop_first().len() == 0);
            }
        } else if roles.seq().len() != 0 {
            assert(a =~= seq![(key_roles(), ids_json(roles))]);
            assert(a.drop_first().len() == 0);
        } else {
            assert(a.len() == 0);
        }
    }
}

proof fn lemma_machine_round_trip(m: WakeOnLanMachineInfo)
    requires
        m.mac@.len() == 6,
    ensures
        decode_machine(machine_json(m)) == Some(m@),
{
    lemma_keys_differ();
    let head = seq![(key_mac(), mac_json(m.mac@))];
    let f = head + auth_fields(m.authorized_users, m.authorized_roles);
    lemma_auth_round_trip(head, m.authorized_users, m.authorized_roles);
    assert(f[0] == (key_mac(), mac_json(m.mac@)));
    let items = m.mac@.map_values(|b: u8| JsonV::Unsigned(b as u64));
    assert(Seq::new(6, |i: int| items[i]->Unsigned_0 as u8) =~= m.mac@);
}

proof fn lemma_server_round_trip(s: ServerInfo)
    ensures
        decode_server(server_json(s)) == Some(s@),
{
    lemma_keys_differ();
    reveal_with_fuel(field, 2);
    let head = seq![(key_endpoint(), JsonV::Str(s.servitor@)), (key_unit(), JsonV::Str(s.unit_name@))];
    let f = head + auth_fields(s.authorized_users, s.authorized_roles);
    lemma_auth_round_trip(head, s.authorized_users, s.authorized_roles);
    assert(f[0] == head[0]);
    assert(f.drop_first()[0] == head[1]);
}

proof fn lemma_machines_round_trip(s: Seq<(String, WakeOnLanMachineInfo)>)
    requires
        forall|i: int| 0 <= i < s.len() ==> (#[trigger] s[i]).1.mac@.len() == 6,
    ensures
        decode_machines(machines_json(s)) == Some(fold_entries(s)),
    decreases s.len(),
{
    if s.len() > 0 {
        assert(machines_json(s).drop_last() =~= machines_json(s.drop_last()));
        lemma_machines_round_trip(s.drop_last());
        lemma_machine_round_trip(s.last().1);
    }
}

proof fn lemma_servers_round_trip(s: Seq<(String, ServerInfo)>)
    ensures
        decode_servers(servers_json(s)) == Some(fold_entries(s)),
    decreases s.len(),
{
    if s.len() > 0 {
        assert(servers_json(s).drop_last() =~= servers_json(s.drop_last()));
        lemma_servers_round_trip(s.drop_last());
        lemma_server_round_trip(s.last().1);
    }
}

/// Reading back what a well-formed document is written as gives that same document.
pub proof fn lemma_round_trip(d: Data)
    requires
        d.wf(),
    ensures
        decode_data(data_json(d)) == Some(d@),
{
    lemma_keys_differ();
    reveal_with_fuel(field, 2);
    d.wake_on_lan.lemma_fold();
    d.servitor.lemma_fold();
    assert forall|i: int| 0 <= i < d.wake_on_lan.seq().len() implies (#[trigger] d.wake_on_lan.seq()[i]).1.mac@.len()
        == 6 by {}
    lemma_machines_round_trip(d.wake_on_lan.seq());
    lemma_servers_round_trip(d.servitor.seq());
}

// ---- executable writing ----

fn ids_to_json(s: &IdSet) -> (r: Json)
    ensures
        r@ == ids_json(*s),
{
    let ids = s.as_slice();
    let mut items: Vec<Json> = Vec::new();
    let mut i: usize = 0;
    while i < ids.len()
        invariant
            i <= ids@.len(),
            ids@ == s.seq(),
            items@.len() == i,
            forall|k: int| 0 <= k < i ==> (#[trigger] items@[k])@ == JsonV::Unsigned(ids@[k]),
        decreases ids@.len() - i,
    {
        items.push(Json::Unsigned(ids[i]));
        i = i + 1;
    }
    assert(items_view(items@) =~= ids@.map_values(|x: u64| JsonV::Unsigned(x)));
    Json::array(items)
}

fn mac_to_json(m: &MacAddress) -> (r: Json)
    ensures
        r@ == mac_json(m@),
{
    let mut items: Vec<Json> = Vec::new();
    let mut i: usize = 0;
    while i < 6
        invariant
            i <= 6,
            m@.len() == 6,
            items@.len() == i,
            forall|k: int| 0 <= k < i ==> (#[trigger] items@[k])@ == JsonV::Unsigned(m@[k] as u64),
        decreases 6 - i,
    {
        items.push(Json::Unsigned(m.0[i] as u64));
        i = i + 1;
    }
    assert(items_view(items@) =~= m@.map_values(|b: u8| JsonV::Unsigned(b as u64)));
    Json::array(items)
}

fn push_auth_fields(fields: &mut Vec<(String, Json)>, users: &IdSet, roles: &IdSet)
    ensures
        fields_view(final(fields)@) == fields_view(old(fields)@) + auth_fields(*users, *roles),
{
    let ghost start = fields_view(fields@);
    if users.len() > 0 {
        push_field(fields, "authorized_users", ids_to_json(users));
    }
    let ghost mid = fields_view(fields@);
    if roles.len() > 0 {
        push_field(fields, "authorized_roles", ids_to_json(roles));
    }
    proof {
        let a = if users.seq().len() == 0 {
            Seq::<(Seq<char>, JsonV)>::empty()
        } else {
            seq![(key_users(), ids_json(*users))]
        };
        assert(mid =~= start + a);
        assert(fields_view(fields@) =~= start + auth_fields(*users, *roles));
    }
}

fn machine_to_json(m: &WakeOnLanMachineInfo) -> (r: Json)
    ensures
        r@ == machine_json(*m),
{
    let mut fields: Vec<(String, Json)> = Vec::new();
    push_field(&mut fields, "mac", mac_to_json(&m.mac));
    push_auth_fields(&mut fields, &m.authorized_users, &m.authorized_roles);
    assert(fields_view(fields@) =~= seq![(key_mac(), mac_json(m.mac@))] + auth_fields(
        m.authorized_users,
        m.authorized_roles,
    ));
    Json::object(fields)
}

fn server_to_json(s: &ServerInfo) -> (r: Json)
    ensures
        r@ == server_json(*s),
{
    let mut fields: Vec<(String, Json)> = Vec::new();
    push_field(&mut fields, "servitor", Json::Str(s.servitor.clone()));
    push_field(&mut fields, "unit_name", Json::Str(s.unit_name.clone()));
    push_auth_fields(&mut fields, &s.authorized_users, &s.authorized_roles);
    assert(fields_view(fields@) =~= seq![
        (key_endpoint(), JsonV::Str(s.servitor@)),
        (key_unit(), JsonV::Str(s.unit_name@)),
    ] + auth_fields(s.authorized_users, s.authorized_roles));
    Json::object(fields)
}

fn machines_to_json(reg: &Registry<WakeOnLanMachineInfo>) -> (r: Json)
    ensures
        r@ == JsonV::Object(machines_json(reg.seq())),
{
    let entries = reg.entries();
    let mut fields: Vec<(String, Json)> = Vec::new();
    let mut i: usize = 0;
    while i < entries.len()
        invariant
            i <= entries@.len(),
            entries@ == reg.seq(),
            fields_view(fields@) =~= machines_json(entries@.take(i as int)),
        decreases entries@.len() - i,
    {
        push_field(&mut fields, entries[i].0.as_str(), machine_to_json(&entries[i].1));
        i = i + 1;
        assert(fields_view(fields@) =~= machines_json(entries@.take(i as int)));
    }
    assert(entries@.take(i as int) =~= entries@);
    Json::object(fields)
}

fn servers_to_json(reg: &Registry<ServerInfo>) -> (r: Json)
    ensures
        r@ == JsonV::Object(servers_json(reg.seq())),
{
    let entries = reg.entries();
    let mut fields: Vec<(String, Json)> = Vec::new();
    let mut i: usize = 0;
    while i < entries.len()
        invariant
            i <= entries@.len(),
            entries@ == reg.seq(),
            fields_view(fields@) =~= servers_json(entries@.take(i as int)),
        decreases entries@.len() - i,
    {
        push_field(&mut fields, entries[i].0.as_str(), server_to_json(&entries[i].1));
        i = i + 1;
        assert(fields_view(fields@) =~= servers_json(entries@.take(i as int)));
    }
    assert(entries@.take(i as int) =~= entries@);
    Json::object(fields)
}

// ---- executable reading ----

pub open spec fn ref_view(j: Option<&Json>) -> Option<JsonV> {
    match j {
        Some(x) => Some(x@),
        None => None,
    }
}

fn ids_from_json(j: Option<&Json>) -> (r: Option<IdSet>)
    ensures
        match decode_ids(ref_view(j)) {
            Some(s) => r matches Some(x) && x.wf() && x@ == s,
            None => r is None,
        },
{
    match j {
        None => Some(IdSet::new()),
        Some(v) => match v.as_array() {
            None => None,
            Some(items) => {
                let ghost iv = items_view(items@);
                let mut ids: Vec<u64> = Vec::new();
                let mut i: usize = 0;
                while i < items.len()
                    invariant
                        i <= items@.len(),
                        iv == items_view(items@),
                        ref_view(j) == Some(JsonV::Array(iv)),
                        all_unsigned(iv.take(i as int)),
                        ids@ =~= unsigned_values(iv.take(i as int)),
                    decreases items@.len() - i,
                {
                    assert(iv[i as int] == items@[i as int]@);
                    match &items[i] {
                        Json::Unsigned(n) => {
                            ids.push(*n);
                            i = i + 1;
                            assert(iv.take(i as int).drop_last() =~= iv.take(i - 1));
                            assert(ids@ =~= unsigned_values(iv.take(i as int)));
                        },
                        _ => {
                            assert(!(iv[i as int] is Unsigned));
                            assert(!all_unsigned(iv));
                            return None;
                        },
                    }
                }
                assert(iv.take(i as int) =~= iv);
                Some(IdSet::from_ids(ids.as_slice()))
            },
        },
    }
}

fn mac_from_json(j: Option<&Json>) -> (r: Option<MacAddress>)
    ensures
        match decode_mac(ref_view(j)) {
            Some(m) => r matches Some(x) && x@ == m,
            None => r is None,
        },
{
    let v = match j {
        None => {
            return None;
        },
        Some(v) => v,
    };
    let items = match v.as_array() {
        None => {
            return None;
        },
        Some(items) => items,
    };
    let ghost iv = items_view(items@);
    if items.len() != 6 {
        return None;
    }
    let mut mac: [u8; 6] = [0u8; 6];
    let mut i: usize = 0;
    while i < 6
        invariant
            i <= 6,
            items@.len() == 6,
            iv == items_view(items@),
            ref_view(j) == Some(JsonV::Array(iv)),
            forall|k: int| 0 <= k < i ==> #[trigger] iv[k] is Unsigned && iv[k]->Unsigned_0 < 256 && mac@[k]
                == iv[k]->Unsigned_0 as u8,
        decreases 6 - i,
    {
        assert(iv[i as int] == items@[i as int]@);
        match &items[i] {
            Json::Unsigned(n) => {
                if *n >= 256 {
                    assert(iv[i as int]->Unsigned_0 >= 256);
                    return None;
                }
                mac[i] = *n as u8;
                i = i + 1;
            },
            _ => {
                assert(!all_unsigned(iv));
                return None;
            },
        }
    }
    let r = MacAddress(mac);
    assert(r@ =~= Seq::new(6, |k: int| iv[k]->Unsigned_0 as u8));
    Some(r)
}

fn text_from_json(j: Option<&Json>) -> (r: Option<String>)
    ensures
        match decode_text(ref_view(j)) {
            Some(t) => r matches Some(x) && x@ == t,
            None => r is None,
        },
{
    match j {
        Some(Json::Str(s)) => Some(s.clone()),
        _ => None,
    }
}

fn machine_from_json(j: &Json) -> (r: Option<WakeOnLanMachineInfo>)
    ensures
        match decode_machine(j@) {
            Some(m) => r matches Some(x) && x.wf() && x@ == m,
            None => r is None,
        },
{
    let fields = match j.as_object() {
        None => {
            return None;
        },
        Some(f) => f,
    };
    let mac = match mac_from_json(get_field(fields, "mac")) {
        None => {
            return None;
        },
        Some(m) => m,
    };
    let users = match ids_from_json(get_field(fields, "authorized_users")) {
        None => {
            return None;
        },
        Some(s) => s,
    };
    let roles = match ids_from_json(get_field(fields, "authorized_roles")) {
        None => {
            return None;
        },
        Some(s) => s,
    };
    Some(WakeOnLanMachineInfo { mac, authorized_users: users, authorized_roles: roles })
}

fn server_from_json(j: &Json) -> (r: Option<ServerInfo>)
    ensures
        match decode_server(j@) {
            Some(m) => r matches Some(x) && x.wf() && x@ == m,
            None => r is None,
        },
{
    let fields = match j.as_object() {
        None => {
            return None;
        },
        Some(f) => f,
    };
    let servitor = match text_from_json(get_field(fields, "servitor")) {
        None => {
            return None;
        },
        Some(s) => s,
    };
    let unit_name = match text_from_json(get_field(fields, "unit_name")) {
        None => {
            return None;
        },
        Some(s) => s,
    };
    let users = match ids_from_json(get_field(fields, "authorized_users")) {
        None => {
            return None;
        },
        Some(s) => s,
    };
    let roles = match ids_from_json(get_field(fields, "authorized_roles")) {
        None => {
            return None;
        },
        Some(s) => s,
    };
    Some(ServerInfo { servitor, unit_name, authorized_users: users, authorized_roles: roles })
}

proof fn lemma_machines_none_extends(f: Seq<(Seq<char>, JsonV)>, n: int)
    requires
        0 <= n <= f.len(),
        decode_machines(f.take(n)) is None,
    ensures
        decode_machines(f) is None,
    decreases f.len() - n,
{
    if n < f.len() {
        assert(f.take(n + 1).drop_last() =~= f.take(n));
        lemma_machines_none_extends(f, n + 1);
    } else {
        assert(f.take(n) =~= f);
    }
}

proof fn lemma_servers_none_extends(f: Seq<(Seq<char>, JsonV)>, n: int)
    requires
        0 <= n <= f.len(),
        decode_servers(f.take(n)) is None,
    ensures
        decode_servers(f) is None,
    decreases f.len() - n,
{
    if n < f.len() {
        assert(f.take(n + 1).drop_last() =~= f.take(n));
        lemma_servers_none_extends(f, n + 1);
    } else {
        assert(f.take(n) =~= f);
    }
}

pub open spec fn machines_wf(reg: Registry<WakeOnLanMachineInfo>) -> bool {
    &&& reg.wf()
    &&& forall|i: int| 0 <= i < reg.seq().len() ==> (#[trigger] reg.seq()[i]).1.wf()
}

pub open spec fn servers_wf(reg: Registry<ServerInfo>) -> bool {
    &&& reg.wf()
    &&& forall|i: int| 0 <= i < reg.seq().len() ==> (#[trigger] reg.seq()[i]).1.wf()
}

fn machines_from_json(j: Option<&Json>) -> (r: Option<Registry<WakeOnLanMachineInfo>>)
    ensures
        match decode_machine_section(ref_view(j)) {
            Some(m) => r matches Some(x) && machines_wf(x) && x@ == m,
            None => r is None,
        },
{
    let v = match j {
        None => {
            return Some(Registry::new());
        },
        Some(v) => v,
    };
    let fields = match v.as_object() {
        None => {
            return None;
        },
        Some(f) => f,
    };
    let ghost fv = fields_view(fields@);
    let mut reg: Registry<WakeOnLanMachineInfo> = Registry::new();
    let mut i: usize = 0;
    assert(fv.take(0) =~= Seq::<(Seq<char>, JsonV)>::empty());
    while i < fields.len()
        invariant
            i <= fields@.len(),
            fv == fields_view(fields@),
            ref_view(j) == Some(JsonV::Object(fv)),
            machines_wf(reg),
            decode_machines(fv.take(i as int)) == Some(reg@),
        decreases fields@.len() - i,
    {
        assert(fv.take(i + 1).drop_last() =~= fv.take(i as int));
        assert(fv.take(i + 1).last() == (fields@[i as int].0@, fields@[i as int].1@));
        let rec = match machine_from_json(&fields[i].1) {
            None => {
                proof {
                    lemma_machines_none_extends(fv, i + 1);
                }
                return None;
            },
            Some(rec) => rec,
        };
        match reg.find(fields[i].0.as_str()) {
            Some(k) => {
                let ghost before = reg;
                let ghost rv = rec@;
                let ghost rwf = rec.wf();
                *reg.record_mut(k) = rec;
                proof {
                    Registry::lemma_update(&before, &reg, k as int, reg.seq()[k as int].1);
                    assert(reg@ == before@.insert(fields@[i as int].0@, rv));
                    assert forall|m: int| 0 <= m < reg.seq().len() implies (#[trigger] reg.seq()[m]).1.wf() by {
                        if m != k {
                            assert(reg.seq()[m] == before.seq()[m]);
                        }
                    }
                }
            },
            None => {
                let name = fields[i].0.clone();
                let ghost before = reg;
                let pos = reg.insert_new(name, rec);
                proof {
                    assert forall|m: int| 0 <= m < reg.seq().len() implies (#[trigger] reg.seq()[m]).1.wf() by {
                        if m < pos {
                            assert(reg.seq()[m] == before.seq()[m]);
                        } else if m > pos {
                            assert(reg.seq()[m] == before.seq()[m - 1]);
                        }
                    }
                }
            },
        }
        i = i + 1;
    }
    assert(fv.take(i as int) =~= fv);
    Some(reg)
}

fn servers_from_json(j: Option<&Json>) -> (r: Option<Registry<ServerInfo>>)
    ensures
        match decode_server_section(ref_view(j)) {
            Some(m) => r matches Some(x) && servers_wf(x) && x@ == m,
            None => r is None,
        },
{
    let v = match j {
        None => {
            return Some(Registry::new());
        },
        Some(v) => v,
    };
    let fields = match v.as_object() {
        None => {
            return None;
        },
        Some(f) => f,
    };
    let ghost fv = fields_view(fields@);
    let mut reg: Registry<ServerInfo> = Registry::new();
    let mut i: usize = 0;
    assert(fv.take(0) =~= Seq::<(Seq<char>, JsonV)>::empty());
    while i < fields.len()
        invariant
            i <= fields@.len(),
            fv == fields_view(fields@),
            ref_view(j) == Some(JsonV::Object(fv)),
            servers_wf(reg),
            decode_servers(fv.take(i as int)) == Some(reg@),
        decreases fields@.len() - i,
    {
        assert(fv.take(i + 1).drop_last() =~= fv.take(i as int));
        assert(fv.take(i + 1).last() == (fields@[i as int].0@, fields@[i as int].1@));
        let rec = match server_from_json(&fields[i].1) {
            None => {
                proof {
                    lemma_servers_none_extends(fv, i + 1);
                }
                return None;
            },
            Some(rec) => rec,
        };
        match reg.find(fields[i].0.as_str()) {
            Some(k) => {
                let ghost before = reg;
                let ghost rv = rec@;
                *reg.record_mut(k) = rec;
                proof {
                    Registry::lemma_update(&before, &reg, k as int, reg.seq()[k as int].1);
                    assert(reg@ == before@.insert(fields@[i as int].0@, rv));
                    assert forall|m: int| 0 <= m < reg.seq().len() implies (#[trigger] reg.seq()[m]).1.wf() by {
                        if m != k {
                            assert(reg.seq()[m] == before.seq()[m]);
                        }
                    }
                }
            },
            None => {
                let name = fields[i].0.clone();
                let ghost before = reg;
                let pos = reg.insert_new(name, rec);
                proof {
                    assert forall|m: int| 0 <= m < reg.seq().len() implies (#[trigger] reg.seq()[m]).1.wf() by {
                        if m < pos {
                            assert(reg.seq()[m] == before.seq()[m]);
                        } else if m > pos {
                            assert(reg.seq()[m] == before.seq()[m - 1]);
                        }
                    }
                }
            },
        }
        i = i + 1;
    }
    assert(fv.take(i as int) =~= fv);
    Some(reg)
}

impl PersistentData for Data {
    open spec fn well_formed(&self) -> bool {
        self.wf()
    }

    open spec fn encoded(&self) -> JsonV {
        data_json(*self)
    }

    open spec fn decoded(j: JsonV) -> Option<DataView> {
        decode_data(j)
    }

    open spec fn empty_view() -> DataView {
        DataView { wake_on_lan: Map::empty(), servitor: Map::empty() }
    }

    fn empty() -> (r: Data) {
        Data::new()
    }

    fn to_json(&self) -> (r: Json) {
        let mut fields: Vec<(String, Json)> = Vec::new();
        push_field(&mut fields, "wake_on_lan", machines_to_json(&self.wake_on_lan));
        push_field(&mut fields, "servitor", servers_to_json(&self.servitor));
        assert(fields_view(fields@) =~= seq![
            (key_machines(), JsonV::Object(machines_json(self.wake_on_lan.seq()))),
            (key_servers(), JsonV::Object(servers_json(self.servitor.seq()))),
        ]);
        Json::object(fields)
    }

    fn from_json(j: &Json) -> (r: Option<Data>) {
        let fields = match j.as_object() {
            None => {
                return None;
            },
            Some(f) => f,
        };
        let wake_on_lan = match machines_from_json(get_field(fields, "wake_on_lan")) {
            None => {
                return None;
            },
            Some(reg) => reg,
        };
        let servitor = match servers_from_json(get_field(fields, "servitor")) {
            None => {
                return None;
            },
            Some(reg) => reg,
        };
        Some(Data { wake_on_lan, servitor })
    }
}

} // verus!
