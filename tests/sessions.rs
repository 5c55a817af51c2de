use std::collections::HashMap;

use realms::server::{handle_connecting_requests, handle_request, register, Client, Universe};
use realms::tokens::{Move, RealmObjective, RealmsProtocol};

fn registered(universe: &mut Universe) -> u128 {
    match universe.process(42, RealmsProtocol::Register).0 {
        RealmsProtocol::Connect(id) => id,
        other => panic!("unexpected answer {:?}", other),
    }
}

#[test]
fn unknown_client_register_gets_fresh_id() {
    let mut universe = Universe::new();
    let (answer, quit) = universe.process(7, RealmsProtocol::Register);
    assert!(!quit);
    let id = match answer {
        RealmsProtocol::Connect(id) => id,
        other => panic!("unexpected answer {:?}", other),
    };
    assert!(universe.clients.contains_key(&id));
    assert!(universe.clients[&id].connected);
    assert!(universe.requests.is_empty());
}

#[test]
fn unknown_client_connect_acts_as_register() {
    let mut universe = Universe::new();
    let answer = universe.process(7, RealmsProtocol::Connect(7)).0;
    assert!(matches!(answer, RealmsProtocol::Connect(_)));
    assert_eq!(universe.clients.len(), 1);
}

#[test]
fn unknown_client_other_request_gets_void() {
    let mut universe = Universe::new();
    let (answer, quit) = universe.process(7, RealmsProtocol::RequestNewRealm);
    assert!(matches!(answer, RealmsProtocol::Void));
    assert!(!quit);
    assert!(universe.clients.is_empty());
    assert!(universe.realms.is_empty());
    assert!(matches!(universe.process(7, RealmsProtocol::Quit).0, RealmsProtocol::Void));
}

#[test]
fn known_client_creates_and_lists_realms() {
    let mut universe = Universe::new();
    let id = registered(&mut universe);
    let answer = universe.process(id, RealmsProtocol::RequestNewRealm).0;
    match answer {
        RealmsProtocol::Realm(realm) => {
            assert_eq!(realm.id, 0);
            assert_eq!(realm.objectives, vec![RealmObjective::EmbarkExplorers]);
        },
        other => panic!("unexpected answer {:?}", other),
    }
    assert_eq!(universe.realms.len(), 1);
    match universe.process(id, RealmsProtocol::RequestRealm(5)).0 {
        RealmsProtocol::Realm(realm) => assert_eq!(realm.id, 1),
        other => panic!("unexpected answer {:?}", other),
    }
    match universe.process(id, RealmsProtocol::RequestRealmsList).0 {
        RealmsProtocol::RealmsList(list) => assert_eq!(list.storage(), &vec![0, 1]),
        other => panic!("unexpected answer {:?}", other),
    }
    assert_eq!(universe.requests.len(), 3);
    assert_eq!(universe.requests[0].0, id);
}

#[test]
fn known_client_moves_and_quits() {
    let mut universe = Universe::new();
    let id = registered(&mut universe);
    universe.process(id, RealmsProtocol::RequestNewRealm);
    match universe.process(id, RealmsProtocol::Explorer(Move::ChangeRegion(0, 3, 0))).0 {
        RealmsProtocol::Realm(realm) => {
            assert_eq!(realm.expedition.explorers.storage()[0].region, Some(3));
            assert_eq!(realm.age, 1);
        },
        other => panic!("unexpected answer {:?}", other),
    }
    assert!(matches!(
        universe.process(id, RealmsProtocol::Explorer(Move::ChangeRegion(4, 3, 0))).0,
        RealmsProtocol::Void
    ));
    assert!(matches!(universe.process(id, RealmsProtocol::Void).0, RealmsProtocol::Void));
    let (answer, quit) = universe.process(id, RealmsProtocol::Quit);
    assert!(matches!(answer, RealmsProtocol::Quit));
    assert!(quit);
    assert!(!universe.clients[&id].connected);
}

#[test]
fn completing_a_realm_is_recorded_once() {
    let mut realms = vec![];
    let mut client = Client::new(1);
    handle_request(&mut realms, &mut client, RealmsProtocol::RequestNewRealm);
    let count = realms[0].realm.expedition.explorers.storage().len();
    for e in 0..count {
        handle_request(&mut realms, &mut client, RealmsProtocol::Explorer(Move::ChangeRegion(0, e, e)));
    }
    assert!(realms[0].realm.done);
    assert_eq!(client.completed_variants.len(), 1);
    handle_request(&mut realms, &mut client, RealmsProtocol::Explorer(Move::ChangeRegion(0, 9, 0)));
    assert_eq!(client.completed_variants.len(), 1);
    assert_eq!(client.realms_list.storage(), &vec![0]);
}

#[test]
fn reconnect_marks_client_connected() {
    let mut realms = vec![];
    let mut client = Client::new(3);
    client.connected = false;
    let answer = handle_request(&mut realms, &mut client, RealmsProtocol::Connect(3));
    assert!(matches!(answer, RealmsProtocol::Connect(3)));
    assert!(client.connected);
}

#[test]
fn registered_ids_are_distinct() {
    let mut universe = Universe::new();
    let first = registered(&mut universe);
    let second = registered(&mut universe);
    assert_ne!(first, second);
    assert_eq!(universe.clients.len(), 2);
    assert_eq!(universe.clients[&first].id, first);
    assert!(universe.clients[&second].realms_list.storage().is_empty());
}

#[test]
fn register_takes_only_unknown_ids() {
    let mut clients: HashMap<u128, Client> = HashMap::new();
    assert!(matches!(register(&mut clients, 11), RealmsProtocol::Connect(11)));
    assert!(clients[&11].connected);
    assert!(matches!(register(&mut clients, 11), RealmsProtocol::Void));
    assert_eq!(clients.len(), 1);
    assert!(matches!(
        handle_connecting_requests(&mut clients, RealmsProtocol::RequestRealmsList),
        RealmsProtocol::Void
    ));
    assert_eq!(clients.len(), 1);
}

#[test]
fn requests_are_logged_as_sent() {
    let mut universe = Universe::new();
    let id = registered(&mut universe);
    universe.process(id, RealmsProtocol::Explorer(Move::ChangeRegion(0, 4, 1)));
    assert!(matches!(universe.requests[0].1, RealmsProtocol::Explorer(Move::ChangeRegion(0, 4, 1))));
}
