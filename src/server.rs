use vstd::prelude::*;
use std::collections::HashMap;
use crate::realms::{
    acted_on, can_act, can_drop, can_forget, can_investigate, can_move, can_pick, dropped, forgot,
    investigated, moved, picked, RealmStrategy, RealmVariant,
};
use crate::tokens::{ClientId, Move, Realm, RealmId, RealmsProtocol};
use crate::tutorial::{starting_view, tutorial_template};
use crate::utility::SelectionStorage;

verus! {

broadcast use vstd::std_specs::hash::group_hash_axioms;

/// Relies on chrono's `Local::now`: the current time, in milliseconds since
/// the Unix epoch. Nothing is known of its value.
#[verifier::external_body]
fn now_millis() -> (r: i64) {
    chrono::Local::now().timestamp_millis()
}

/// Relies on uuid's `Uuid::new_v4`: a random id, as its 128 bits. Nothing is
/// known of its value.
#[verifier::external_body]
fn fresh_client_id() -> (r: ClientId) {
    uuid::Uuid::new_v4().as_u128()
}

/// A client known to the server.
#[derive(Debug)]
pub struct Client {
    pub id: ClientId,
    pub connected: bool,
    /// When the client was last heard from, in milliseconds since the Unix epoch.
    pub time: i64,
    pub realms_list: SelectionStorage<RealmId>,
    pub completed_variants: Vec<RealmVariant>,
}

/// A client as it is first registered.
pub open spec fn fresh_client(c: Client, id: ClientId) -> bool {
    &&& c.id == id
    &&& c.connected
    &&& c.realms_list.items().len() == 0
    &&& c.realms_list.cursor() == 0
    &&& c.completed_variants@.len() == 0
}

impl Client {
    /// A newly registered client, connected and owning no realm yet.
    pub fn new(id: ClientId) -> (r: Client)
        ensures
            fresh_client(r, id),
    {
        Client {
            id,
            connected: true,
            time: now_millis(),
            realms_list: SelectionStorage::new(),
            completed_variants: vec![],
        }
    }
}

/// Every realm is well formed.
pub open spec fn realms_wf(realms: Seq<RealmStrategy>) -> bool {
    forall|i: int| 0 <= i < realms.len() ==> (#[trigger] realms[i]).wf()
}

/// `r` carries a copy of `realm`.
pub open spec fn shows(r: RealmsProtocol, realm: Realm) -> bool {
    match r {
        RealmsProtocol::Realm(view) => view.same_as(&realm),
        _ => false,
    }
}

/// `after` is `before` with only its activity time changed.
pub open spec fn touched(before: Client, after: Client) -> bool {
    after == Client { time: after.time, ..before }
}

/// Only realm `i` may differ between `before` and `after`.
pub open spec fn only_realm(before: Seq<RealmStrategy>, after: Seq<RealmStrategy>, i: int) -> bool {
    &&& after.len() == before.len()
    &&& forall|j: int| 0 <= j < before.len() && j != i ==> #[trigger] after[j] == before[j]
}

/// A new tutorial realm was added for the client, and sent back.
pub open spec fn created(
    before: Seq<RealmStrategy>,
    after: Seq<RealmStrategy>,
    cb: Client,
    ca: Client,
    r: RealmsProtocol,
) -> bool {
    let id = before.len() as RealmId;
    &&& after.len() == before.len() + 1
    &&& after.subrange(0, before.len() as int) == before
    &&& after.last().variant == RealmVariant::Tutorial
    &&& tutorial_template(after.last().template)
    &&& starting_view(after.last().realm, id, after.last().template)
    &&& ca.realms_list.items() == cb.realms_list.items().push(id)
    &&& ca.realms_list.cursor() == cb.realms_list.cursor()
    &&& ca.id == cb.id
    &&& ca.connected == cb.connected
    &&& ca.completed_variants == cb.completed_variants
    &&& shows(r, after.last().realm)
}

/// Realm `i` was changed by a request and sent back; the client records the
/// realm's variant as completed when the change made the realm done.
pub open spec fn changed(
    before: Seq<RealmStrategy>,
    after: Seq<RealmStrategy>,
    i: int,
    cb: Client,
    ca: Client,
    r: RealmsProtocol,
) -> bool {
    &&& only_realm(before, after, i)
    &&& shows(r, after[i].realm)
    &&& ca.id == cb.id
    &&& ca.connected == cb.connected
    &&& ca.realms_list == cb.realms_list
    &&& ca.completed_variants@ == if !before[i].realm.done && after[i].realm.done {
        cb.completed_variants@.push(after[i].variant)
    } else {
        cb.completed_variants@
    }
}

/// A refused request: the answer is `Void` and nothing but the client's
/// activity time changes.
pub open spec fn refused(
    before: Seq<RealmStrategy>,
    after: Seq<RealmStrategy>,
    cb: Client,
    ca: Client,
    r: RealmsProtocol,
) -> bool {
    r is Void && after == before && touched(cb, ca)
}

/// Realm `i` exists and can still be recomputed.
pub open spec fn live_realm(realms: Seq<RealmStrategy>, i: RealmId) -> bool {
    i < realms.len() && realms[i as int].realm.age < usize::MAX
}

/// What handling `request` from a known client does, given the realms and
/// the client before (`before`, `cb`) and after (`after`, `ca`), and the answer `r`.
pub open spec fn handled(
    before: Seq<RealmStrategy>,
    after: Seq<RealmStrategy>,
    cb: Client,
    ca: Client,
    request: RealmsProtocol,
    r: RealmsProtocol,
) -> bool {
    match request {
        RealmsProtocol::Connect(id) => {
            &&& r == RealmsProtocol::Connect(id)
            &&& after == before
            &&& ca == Client { time: ca.time, connected: true, ..cb }
        },
        RealmsProtocol::RequestRealmsList => {
            &&& after == before
            &&& touched(cb, ca)
            &&& match r {
                RealmsProtocol::RealmsList(list) => list.same_as(&cb.realms_list),
                _ => false,
            }
        },
        RealmsProtocol::RequestNewRealm => created(before, after, cb, ca, r),
        RealmsProtocol::RequestRealm(id) => if id < before.len() {
            &&& after == before
            &&& touched(cb, ca)
            &&& shows(r, before[id as int].realm)
        } else {
            created(before, after, cb, ca, r)
        },
        RealmsProtocol::Explorer(Move::ChangeRegion(id, region, e)) => if live_realm(before, id) && can_move(
            before[id as int],
            e,
            region,
        ) {
            changed(before, after, id as int, cb, ca, r) && moved(before[id as int], after[id as int], e, region)
        } else {
            refused(before, after, cb, ca, r)
        },
        RealmsProtocol::Explorer(Move::Action(id, region, e, action)) => if live_realm(before, id) && can_act(
            before[id as int],
            e,
            region,
            action,
        ) {
            changed(before, after, id as int, cb, ca, r) && acted_on(before[id as int], after[id as int], region, action)
        } else {
            refused(before, after, cb, ca, r)
        },
        RealmsProtocol::DropEquipment(id, region, e, item) => if live_realm(before, id) && can_drop(
            before[id as int],
            region,
            e,
            item,
        ) {
            changed(before, after, id as int, cb, ca, r) && dropped(before[id as int], after[id as int], region, e, item)
        } else {
            refused(before, after, cb, ca, r)
        },
        RealmsProtocol::PickEquipment(id, region, e, item) => if live_realm(before, id) && can_pick(
            before[id as int],
            region,
            e,
            item,
        ) {
            changed(before, after, id as int, cb, ca, r) && picked(before[id as int], after[id as int], region, e, item)
        } else {
            refused(before, after, cb, ca, r)
        },
        RealmsProtocol::InvestigateParticularity(id, region, e, p) => if id < before.len() && can_investigate(
            before[id as int],
            region,
            e,
            p,
        ) {
            changed(before, after, id as int, cb, ca, r) && investigated(before[id as int], after[id as int], region, e, p)
        } else {
            refused(before, after, cb, ca, r)
        },
        RealmsProtocol::ForgetParticularity(id, region, e, p) => if id < before.len() && can_forget(
            before[id as int],
            region,
            e,
            p,
        ) {
            changed(before, after, id as int, cb, ca, r) && forgot(before[id as int], after[id as int], region, e, p)
        } else {
            refused(before, after, cb, ca, r)
        },
        RealmsProtocol::Quit => {
            &&& r is Quit
            &&& after == before
            &&& ca == Client { time: ca.time, connected: false, ..cb }
        },
        _ => refused(before, after, cb, ca, r),
    }
}

/// Creates a tutorial realm for the client and answers with its view.
fn new_realm(realm_strategies: &mut Vec<RealmStrategy>, client: &mut Client) -> (r: RealmsProtocol)
    requires
        realms_wf(old(realm_strategies)@),
    ensures
        realms_wf(final(realm_strategies)@),
        created(old(realm_strategies)@, final(realm_strategies)@, *old(client), *final(client), r),
{
    let id = realm_strategies.len();
    let strategy = RealmStrategy::new(id, RealmVariant::Tutorial);
    let realm = strategy.realm.clone();
    realm_strategies.push(strategy);
    client.realms_list.insert(id);
    assert(realm_strategies@.subrange(0, id as int) =~= old(realm_strategies)@);
    RealmsProtocol::Realm(realm)
}

/// Handles a request from a known client against the realms, and answers it.
pub fn handle_request(realm_strategies: &mut Vec<RealmStrategy>, client: &mut Client, request: RealmsProtocol) -> (r: RealmsProtocol)
    requires
        realms_wf(old(realm_strategies)@),
    ensures
        realms_wf(final(realm_strategies)@),
        handled(old(realm_strategies)@, final(realm_strategies)@, *old(client), *final(client), request, r),
{
    client.time = now_millis();
    match request {
        RealmsProtocol::Connect(id) => {
            client.connected = true;
            RealmsProtocol::Connect(id)
        },
        RealmsProtocol::RequestRealmsList => {
            let list = client.realms_list.clone();
            assert(list.items() =~= client.realms_list.items());
            RealmsProtocol::RealmsList(list)
        },
        RealmsProtocol::RequestNewRealm => new_realm(realm_strategies, client),
        RealmsProtocol::RequestRealm(id) => {
            if id < realm_strategies.len() {
                RealmsProtocol::Realm(realm_strategies[id].realm.clone())
            } else {
                new_realm(realm_strategies, client)
            }
        },
        RealmsProtocol::Explorer(Move::ChangeRegion(id, region, explorer)) => {
            if id >= realm_strategies.len() || realm_strategies[id].realm.age == usize::MAX {
                return RealmsProtocol::Void;
            }
            let done_before = realm_strategies[id].realm.done;
            if !realm_strategies[id].move_explorer(explorer, region) {
                assert(realm_strategies@ =~= old(realm_strategies)@);
                return RealmsProtocol::Void;
            }
            if realm_strategies[id].realm.done && !done_before {
                client.completed_variants.push(realm_strategies[id].variant);
            }
            RealmsProtocol::Realm(realm_strategies[id].realm.clone())
        },
        RealmsProtocol::Explorer(Move::Action(id, region, explorer, action)) => {
            if id >= realm_strategies.len() || realm_strategies[id].realm.age == usize::MAX {
                return RealmsProtocol::Void;
            }
            let done_before = realm_strategies[id].realm.done;
            if !realm_strategies[id].act(explorer, region, action) {
                assert(realm_strategies@ =~= old(realm_strategies)@);
                return RealmsProtocol::Void;
            }
            if realm_strategies[id].realm.done && !done_before {
                client.completed_variants.push(realm_strategies[id].variant);
            }
            RealmsProtocol::Realm(realm_strategies[id].realm.clone())
        },
        RealmsProtocol::DropEquipment(id, region, explorer, item) => {
            if id >= realm_strategies.len() || realm_strategies[id].realm.age == usize::MAX {
                return RealmsProtocol::Void;
            }
            let done_before = realm_strategies[id].realm.done;
            if !realm_strategies[id].drop_equipment(region, explorer, item) {
                assert(realm_strategies@ =~= old(realm_strategies)@);
                return RealmsProtocol::Void;
            }
            if realm_strategies[id].realm.done && !done_before {
                client.completed_variants.push(realm_strategies[id].variant);
            }
            RealmsProtocol::Realm(realm_strategies[id].realm.clone())
        },
        RealmsProtocol::PickEquipment(id, region, explorer, item) => {
            if id >= realm_strategies.len() || realm_strategies[id].realm.age == usize::MAX {
                return RealmsProtocol::Void;
            }
            let done_before = realm_strategies[id].realm.done;
            if !realm_strategies[id].pick_equipment(region, explorer, item) {
                assert(realm_strategies@ =~= old(realm_strategies)@);
                return RealmsProtocol::Void;
            }
            if realm_strategies[id].realm.done && !done_before {
                client.completed_variants.push(realm_strategies[id].variant);
            }
            RealmsProtocol::Realm(realm_strategies[id].realm.clone())
        },
        RealmsProtocol::InvestigateParticularity(id, region, explorer, particularity) => {
            if id >= realm_strategies.len() {
                return RealmsProtocol::Void;
            }
            if !realm_strategies[id].investigate_particularity(region, explorer, particularity) {
                assert(realm_strategies@ =~= old(realm_strategies)@);
                return RealmsProtocol::Void;
            }
            RealmsProtocol::Realm(realm_strategies[id].realm.clone())
        },
        RealmsProtocol::ForgetParticularity(id, region, explorer, particularity) => {
            if id >= realm_strategies.len() {
                return RealmsProtocol::Void;
            }
            if !realm_strategies[id].forget_particularity(region, explorer, particularity) {
                assert(realm_strategies@ =~= old(realm_strategies)@);
                return RealmsProtocol::Void;
            }
            RealmsProtocol::Realm(realm_strategies[id].realm.clone())
        },
        RealmsProtocol::Quit => {
            client.connected = false;
            RealmsProtocol::Quit
        },
        _ => RealmsProtocol::Void,
    }
}

/// The request registers a client.
pub open spec fn registers(request: RealmsProtocol) -> bool {
    request is Register || request is Connect
}

/// What answering a request from an unknown client does: a register or
/// connect request registers a new client under an id that no known client
/// has and answers with that id, or, where the drawn id is taken, answers with
/// `Void` and registers nobody; any other request is answered with `Void`.
pub open spec fn registered_new(
    before: Map<ClientId, Client>,
    after: Map<ClientId, Client>,
    request: RealmsProtocol,
    r: RealmsProtocol,
) -> bool {
    if registers(request) && r is Connect {
        &&& !before.contains_key(r->Connect_0)
        &&& after == before.insert(r->Connect_0, after[r->Connect_0])
        &&& fresh_client(after[r->Connect_0], r->Connect_0)
    } else {
        r is Void && after == before
    }
}

/// Registers a new client under `id` and answers with that id; where a
/// client with that id is already known, answers `Void` and changes nothing.
pub fn register(clients: &mut HashMap<ClientId, Client>, id: ClientId) -> (r: RealmsProtocol)
    ensures
        !old(clients)@.contains_key(id) ==> {
            &&& r == RealmsProtocol::Connect(id)
            &&& final(clients)@ == old(clients)@.insert(id, final(clients)@[id])
            &&& fresh_client(final(clients)@[id], id)
        },
        old(clients)@.contains_key(id) ==> r is Void && final(clients)@ == old(clients)@,
{
    if clients.contains_key(&id) {
        return RealmsProtocol::Void;
    }
    clients.insert(id, Client::new(id));
    RealmsProtocol::Connect(id)
}

/// Answers a request from a client the server does not know: a register or
/// connect request registers it under a freshly drawn id (see `register`);
/// any other request is answered with `Void` and changes nothing.
pub fn handle_connecting_requests(clients: &mut HashMap<ClientId, Client>, request: RealmsProtocol) -> (r: RealmsProtocol)
    ensures
        registered_new(old(clients)@, final(clients)@, request, r),
        !registers(request) ==> r is Void && final(clients)@ == old(clients)@,
{
    match request {
        RealmsProtocol::Register | RealmsProtocol::Connect(_) => register(clients, fresh_client_id()),
        _ => RealmsProtocol::Void,
    }
}

/// Two messages of the same kind with the same contents; a realm or a list
/// of realm ids is compared by its contents.
pub open spec fn same_message(a: RealmsProtocol, b: RealmsProtocol) -> bool {
    match (a, b) {
        (RealmsProtocol::RealmsList(x), RealmsProtocol::RealmsList(y)) => x.same_as(&y),
        (RealmsProtocol::Realm(x), RealmsProtocol::Realm(y)) => x.same_as(&y),
        (RealmsProtocol::RealmsList(_), _) => false,
        (RealmsProtocol::Realm(_), _) => false,
        _ => a == b,
    }
}

impl Clone for RealmsProtocol {
    fn clone(&self) -> (r: Self)
        ensures
            same_message(r, *self),
    {
        match self {
            RealmsProtocol::Register => RealmsProtocol::Register,
            RealmsProtocol::Connect(id) => RealmsProtocol::Connect(*id),
            RealmsProtocol::RequestRealmsList => RealmsProtocol::RequestRealmsList,
            RealmsProtocol::RealmsList(list) => {
                let copy = list.clone();
                assert(copy.items() =~= list.items());
                RealmsProtocol::RealmsList(copy)
            },
            RealmsProtocol::RequestNewRealm => RealmsProtocol::RequestNewRealm,
            RealmsProtocol::RequestRealm(id) => RealmsProtocol::RequestRealm(*id),
            RealmsProtocol::Realm(realm) => RealmsProtocol::Realm(realm.clone()),
            RealmsProtocol::Explorer(order) => RealmsProtocol::Explorer(*order),
            RealmsProtocol::DropEquipment(a, b, c, d) => RealmsProtocol::DropEquipment(*a, *b, *c, *d),
            RealmsProtocol::PickEquipment(a, b, c, d) => RealmsProtocol::PickEquipment(*a, *b, *c, *d),
            RealmsProtocol::InvestigateParticularity(a, b, c, d) => RealmsProtocol::InvestigateParticularity(*a, *b, *c, *d),
            RealmsProtocol::ForgetParticularity(a, b, c, d) => RealmsProtocol::ForgetParticularity(*a, *b, *c, *d),
            RealmsProtocol::Quit => RealmsProtocol::Quit,
            RealmsProtocol::Void => RealmsProtocol::Void,
        }
    }
}

/// Everything the server holds: the realms, the known clients by id, and a
/// log of the requests of known clients with the time each was handled.
pub struct Universe {
    pub realms: Vec<RealmStrategy>,
    pub clients: HashMap<ClientId, Client>,
    pub requests: Vec<(ClientId, RealmsProtocol, i64)>,
}

impl Universe {
    /// Every realm is well formed and every client is stored under its id.
    pub open spec fn wf(&self) -> bool {
        &&& realms_wf(self.realms@)
        &&& forall|k: ClientId| #[trigger] self.clients@.contains_key(k) ==> self.clients@[k].id == k
    }

    pub fn new() -> (r: Universe)
        ensures
            r.wf(),
            r.realms@.len() == 0,
            r.clients@.is_empty(),
            r.requests@.len() == 0,
    {
        Universe { realms: vec![], clients: HashMap::new(), requests: vec![] }
    }

    /// Handles one request that arrived with the sender's client id, and
    /// answers it; the flag is set when the sender has quit. A known client's
    /// request is handled against the realms and logged. From an unknown id,
    /// a register or connect request registers a new client; any other
    /// request is answered with `Void`.
    pub fn process(&mut self, client_id: ClientId, request: RealmsProtocol) -> (r: (RealmsProtocol, bool))
        requires
            old(self).wf(),
        ensures
            final(self).wf(),
            old(self).clients@.contains_key(client_id) ==> {
                &&& handled(
                    old(self).realms@,
                    final(self).realms@,
                    old(self).clients@[client_id],
                    final(self).clients@[client_id],
                    request,
                    r.0,
                )
                &&& final(self).clients@ == old(self).clients@.insert(client_id, final(self).clients@[client_id])
                &&& final(self).requests@.len() == old(self).requests@.len() + 1
                &&& final(self).requests@.subrange(0, old(self).requests@.len() as int) == old(self).requests@
                &&& final(self).requests@.last().0 == client_id
                &&& same_message(final(self).requests@.last().1, request)
                &&& r.1 == !final(self).clients@[client_id].connected
            },
            !old(self).clients@.contains_key(client_id) ==> {
                &&& final(self).realms == old(self).realms
                &&& final(self).requests == old(self).requests
                &&& !r.1
                &&& registered_new(old(self).clients@, final(self).clients@, request, r.0)
                &&& !registers(request) ==> r.0 is Void
            },
    {
        match self.clients.remove(&client_id) {
            Some(client) => {
                let mut client = client;
                let logged = request.clone();
                let response = handle_request(&mut self.realms, &mut client, request);
                let disconnect = !client.connected;
                self.requests.push((client_id, logged, client.time));
                self.clients.insert(client_id, client);
                proof {
                    assert(self.requests@.subrange(0, old(self).requests@.len() as int) =~= old(self).requests@);
                    assert(self.clients@ =~= old(self).clients@.insert(client_id, self.clients@[client_id]));
                }
                (response, disconnect)
            },
            None => {
                assert(self.clients@ =~= old(self).clients@);
                let response = handle_connecting_requests(&mut self.clients, request);
                (response, false)
            },
        }
    }
}

} // verus!
