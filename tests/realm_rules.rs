use realms::realms::{RealmStrategy, RealmVariant};
use realms::tokens::{
    Equipment, ExplorerAction, ExplorerItem, LazyRealmAccess, Particularity, RealmObjective,
    Region, RegionVisibility,
};

fn tutorial() -> RealmStrategy {
    RealmStrategy::new(0, RealmVariant::Tutorial)
}

fn view_region(s: &RealmStrategy, id: usize) -> Option<&Region> {
    s.realm.island.regions.get(id)
}

#[test]
fn new_tutorial_realm_shape() {
    let s = tutorial();
    assert_eq!(s.template.regions.len(), 25);
    let count = s.realm.expedition.explorers.storage().len();
    assert!((3..=5).contains(&count));
    assert_eq!(s.template.explorers.len(), count);
    assert!(s.realm.expedition.explorers.iter().all(|e| e.region.is_none()));
    assert_eq!(s.realm.island.regions.len(), 2);
    for id in [0usize, 1] {
        assert_eq!(view_region(&s, id).unwrap().sight, RegionVisibility::Complete);
    }
    assert_eq!(s.realm.objectives, vec![RealmObjective::EmbarkExplorers]);
    assert!(s.realm.completed.is_empty());
    assert!(!s.realm.done);
    assert_eq!(s.realm.title, "tutorial");
    assert_eq!(s.realm.age, 0);
}

#[test]
fn embark_then_move() {
    let mut s = tutorial();
    assert_eq!(s.realm.expedition.explorers.storage()[0].region, None);
    assert!(s.move_explorer(0, 3));
    assert_eq!(s.realm.expedition.explorers.storage()[0].region, Some(3));
    let live = view_region(&s, 3).unwrap();
    assert_eq!(live.sight, RegionVisibility::Live);
    let neighbours = s.template.regions.get(3).unwrap().neighbors.clone();
    assert!(!neighbours.is_empty());
    for n in &neighbours {
        assert_eq!(view_region(&s, *n).unwrap().sight, RegionVisibility::Partial);
    }
    for (_, region) in s.realm.island.regions.iter() {
        if region.id != 3 && !neighbours.contains(&region.id) {
            assert_eq!(region.sight, RegionVisibility::Hidden);
            assert_eq!(region.resources, 0);
            assert!(region.particularities.storage().is_empty());
        }
    }
    assert_eq!(s.realm.age, 1);
}

#[test]
fn live_region_is_not_downgraded_by_a_neighbour() {
    let mut s = tutorial();
    assert!(s.move_explorer(0, 6));
    let next = s.template.regions.get(6).unwrap().neighbors[0];
    assert!(s.move_explorer(1, next));
    assert_eq!(view_region(&s, 6).unwrap().sight, RegionVisibility::Live);
    assert_eq!(view_region(&s, next).unwrap().sight, RegionVisibility::Live);
}

#[test]
fn mapped_region_is_shown_partially() {
    let mut s = tutorial();
    assert!(s.move_explorer(0, 12));
    assert!(s.act(0, 12, ExplorerAction::Chart));
    assert!(s.template.regions.get(12).unwrap().mapped);
    assert!(s.move_explorer(0, 24));
    let far = s.template.regions.get(24).unwrap().neighbors.clone();
    if !far.contains(&12) {
        assert_eq!(view_region(&s, 12).unwrap().sight, RegionVisibility::Partial);
    }
}

#[test]
fn move_to_unknown_region_or_explorer_is_refused() {
    let mut s = tutorial();
    assert!(!s.move_explorer(0, 25));
    assert!(!s.move_explorer(9, 0));
    assert_eq!(s.realm.age, 0);
    assert_eq!(s.realm.expedition.explorers.storage()[0].region, None);
}

#[test]
fn done_once_every_explorer_embarked() {
    let mut s = tutorial();
    let count = s.realm.expedition.explorers.storage().len();
    for e in 0..count {
        assert!(!s.realm.done);
        assert!(s.move_explorer(e, e));
    }
    assert!(s.realm.done);
    assert_eq!(s.realm.completed, vec![RealmObjective::EmbarkExplorers]);
    assert_eq!(s.realm.story, "all explorers have embarked. you can keep playing around.");
    assert!(s.move_explorer(0, 10));
    assert!(s.realm.done);
    assert_eq!(s.realm.completed, vec![RealmObjective::EmbarkExplorers]);
}

#[test]
fn hunt_takes_one_resource_and_stops_at_zero() {
    let mut s = tutorial();
    assert!(s.move_explorer(0, 5));
    let start = s.template.regions.get(5).unwrap().resources;
    assert!(start >= 2);
    for left in (0..start).rev() {
        assert!(s.act(0, 5, ExplorerAction::Hunt));
        assert_eq!(s.template.regions.get(5).unwrap().resources, left);
    }
    let age = s.realm.age;
    assert!(!s.act(0, 5, ExplorerAction::Hunt));
    assert_eq!(s.template.regions.get(5).unwrap().resources, 0);
    assert_eq!(s.realm.age, age);
}

#[test]
fn action_needs_the_explorer_in_the_region() {
    let mut s = tutorial();
    assert!(!s.act(1, 4, ExplorerAction::Build));
    assert!(s.move_explorer(1, 4));
    assert!(!s.act(1, 5, ExplorerAction::Build));
    assert!(s.act(1, 4, ExplorerAction::Build));
    let region = s.template.regions.get(4).unwrap();
    assert_eq!(region.buildings.storage(), &vec!["\u{2302}".to_string()]);
    assert_eq!(view_region(&s, 4).unwrap().buildings.storage().len(), 1);
    assert!(s.act(1, 4, ExplorerAction::Wait));
    assert!(s.act(1, 4, ExplorerAction::Sail));
}

#[test]
fn drop_then_pick_restores_state() {
    let mut s = tutorial();
    assert!(s.move_explorer(0, 7));
    let before_inventory: Vec<ExplorerItem> = s.realm.expedition.explorers.storage()[0].inventory.storage().clone();
    let before_particularities = s.template.regions.get(7).unwrap().particularities.storage().clone();
    assert!(s.drop_equipment(7, 0, Equipment::Bow));
    let inventory = s.realm.expedition.explorers.storage()[0].inventory.storage().clone();
    assert!(!inventory.contains(&ExplorerItem::Equipment(Equipment::Bow)));
    let lying = s.template.regions.get(7).unwrap().particularities.storage().clone();
    assert_eq!(lying.last(), Some(&Particularity::Item(Equipment::Bow)));
    assert_eq!(view_region(&s, 7).unwrap().particularities.storage(), &lying);
    assert!(s.pick_equipment(7, 0, Equipment::Bow));
    assert_eq!(s.template.regions.get(7).unwrap().particularities.storage(), &before_particularities);
    let mut after: Vec<String> = s.realm.expedition.explorers.storage()[0].inventory.storage().iter().map(|i| format!("{:?}", i)).collect();
    let mut expected: Vec<String> = before_inventory.iter().map(|i| format!("{:?}", i)).collect();
    after.sort();
    expected.sort();
    assert_eq!(after, expected);
}

#[test]
fn drop_and_pick_are_refused_when_absent() {
    let mut s = tutorial();
    assert!(!s.drop_equipment(2, 0, Equipment::Bow));
    assert!(s.move_explorer(0, 2));
    assert!(!s.drop_equipment(2, 0, Equipment::Canoe));
    assert!(!s.pick_equipment(2, 0, Equipment::Raft));
    assert!(!s.pick_equipment(2, 1, Equipment::Bow));
}

#[test]
fn investigate_and_forget() {
    let mut s = tutorial();
    assert!(s.move_explorer(2, 8));
    let found = s.template.regions.get(8).unwrap().particularities.storage().clone();
    if let Some(p) = found.first().copied() {
        assert!(s.investigate_particularity(8, 2, p));
        let inventory = s.realm.expedition.explorers.storage()[2].inventory.storage().clone();
        assert_eq!(inventory.last(), Some(&ExplorerItem::Particularity(8, p)));
        assert!(s.forget_particularity(8, 2, p));
        assert_eq!(s.realm.expedition.explorers.storage()[2].inventory.storage().len(), inventory.len() - 1);
        assert!(!s.forget_particularity(8, 2, p));
    }
    assert!(!s.investigate_particularity(8, 2, Particularity::Queen));
}

#[test]
fn tutorial_rules_allow_everything() {
    let s = tutorial();
    assert!(s.valid_move(0, 24));
    assert!(s.valid_action(0, 24, &ExplorerAction::Hunt));
}

#[test]
fn recomputing_views_keeps_template_contents() {
    let mut s = tutorial();
    s.move_explorer(0, 12);
    for (_, region) in s.realm.island.regions.iter() {
        let t = s.template.regions.get(region.id).unwrap();
        match region.sight {
            RegionVisibility::Hidden => {
                assert_eq!(region.resources, 0);
                assert!(region.buildings.storage().is_empty());
            },
            _ => {
                assert_eq!(region.resources, t.resources);
                assert_eq!(region.particularities.storage(), t.particularities.storage());
            },
        }
    }
}

#[test]
fn lookups_follow_positions() {
    let mut s = tutorial();
    assert!(s.explorer(0).is_some());
    assert!(s.explorer(7).is_none());
    assert!(s.region(0).is_some());
    assert!(s.region(20).is_none());
    assert!(s.explorer_region(0).is_none());
    assert!(s.region_explorer(3, 0).is_none());
    s.move_explorer(0, 3);
    assert_eq!(s.region_explorer(3, 0).unwrap().id, 0);
    assert!(s.region_explorer(4, 0).is_none());
    assert_eq!(s.explorer_region(0).unwrap().id, 3);
    assert_eq!(s.region(3).unwrap().sight, RegionVisibility::Live);
}
