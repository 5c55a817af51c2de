use realms::hex::hexes;
use realms::tokens::{Equipment, ExplorerItem, ExplorerTrait, Particularity, RegionVisibility, Terrain};
use realms::tutorial::{
    particularity_count_range, particularity_of, region_from, resources_of, roster, table_size,
    template, terrain_of,
};

#[test]
fn terrain_rolls() {
    assert_eq!(terrain_of(1), Terrain::Coast);
    assert_eq!(terrain_of(2), Terrain::Planes);
    assert_eq!(terrain_of(3), Terrain::Forest);
    assert_eq!(terrain_of(4), Terrain::Mountain);
}

#[test]
fn resources_rank_by_terrain() {
    assert_eq!(resources_of(Terrain::Planes), 6);
    assert_eq!(resources_of(Terrain::Forest), 5);
    assert_eq!(resources_of(Terrain::Coast), 3);
    assert_eq!(resources_of(Terrain::Mountain), 2);
}

#[test]
fn particularity_tables() {
    assert_eq!(particularity_count_range(Terrain::Coast), (1, 2));
    assert_eq!(particularity_count_range(Terrain::Mountain), (0, 1));
    assert_eq!(table_size(Terrain::Planes), 10);
    assert_eq!(particularity_of(Terrain::Coast, 4), Particularity::Cliffs);
    assert_eq!(particularity_of(Terrain::Coast, 9), Particularity::Carravan);
    assert_eq!(particularity_of(Terrain::Planes, 7), Particularity::Grasland);
    assert_eq!(particularity_of(Terrain::Forest, 8), Particularity::Pond);
    assert_eq!(particularity_of(Terrain::Mountain, 5), Particularity::Bolders);
    assert_eq!(particularity_of(Terrain::Mountain, 7), Particularity::Lake);
}

#[test]
fn region_keeps_first_of_repeated_particularities() {
    let grid = hexes(5, 5);
    let region = region_from(Terrain::Coast, &vec![3, 6, 4, 1, 7], &grid[7]);
    assert_eq!(
        region.particularities.storage(),
        &vec![Particularity::Cliffs, Particularity::Island, Particularity::Town]
    );
    assert_eq!(region.id, 7);
    assert_eq!(region.resources, 3);
    assert_eq!(region.neighbors, grid[7].neighbors);
    assert_eq!(region.hex_offset_coords, (2, 1));
    assert_eq!(region.sight, RegionVisibility::Hidden);
    assert!(!region.mapped);
}

#[test]
fn region_without_rolls_is_plain() {
    let grid = hexes(5, 5);
    let region = region_from(Terrain::Forest, &vec![], &grid[0]);
    assert!(region.particularities.storage().is_empty());
    assert_eq!(region.resources, 5);
}

#[test]
fn roster_of_five_with_canoe() {
    let explorers = roster(5, true);
    assert_eq!(explorers.len(), 5);
    for (i, e) in explorers.iter().enumerate() {
        assert_eq!(e.id, i);
        assert_eq!(e.region, None);
    }
    assert_eq!(explorers[0].traits.storage(), &vec![ExplorerTrait::Ranger]);
    assert_eq!(explorers[1].traits.storage(), &vec![ExplorerTrait::Builder]);
    assert!(explorers[2].traits.storage().is_empty());
    assert_eq!(explorers[3].traits.storage(), &vec![ExplorerTrait::Cartographer]);
    assert_eq!(explorers[4].traits.storage(), &vec![ExplorerTrait::Sailor]);
    assert_eq!(explorers[4].inventory.storage().len(), 7);
    assert_eq!(explorers[4].inventory.storage().last(), Some(&ExplorerItem::Equipment(Equipment::Canoe)));
    assert_eq!(explorers[0].inventory.storage()[1], ExplorerItem::Equipment(Equipment::Arrows(75)));
}

#[test]
fn roster_of_three() {
    let explorers = roster(3, true);
    assert_eq!(explorers.len(), 3);
    assert_eq!(explorers[2].inventory.storage().len(), 5);
    let four = roster(4, false);
    assert_eq!(four[3].inventory.storage()[1], ExplorerItem::Equipment(Equipment::Chart));
    let sailor = roster(5, false);
    assert_eq!(sailor[4].inventory.storage().len(), 6);
}

#[test]
fn generated_template() {
    let t = template();
    assert_eq!(t.regions.len(), 25);
    for (index, (key, region)) in t.regions.iter().enumerate() {
        assert_eq!(*key, index);
        assert_eq!(region.id, index);
        assert_eq!(region.resources, resources_of(region.terrain));
        let (_, most) = particularity_count_range(region.terrain);
        let found = region.particularities.storage();
        assert!(found.len() as u64 <= most);
        for (i, p) in found.iter().enumerate() {
            assert!(!found[..i].contains(p));
        }
        assert!(region.buildings.storage().is_empty());
        assert!(!region.mapped);
    }
    assert!((3..=5).contains(&t.explorers.len()));
}

#[test]
fn trait_actions_follow_traits() {
    let mut explorers = roster(5, false);
    assert!(explorers[0].trait_actions().is_empty());
    explorers[0].region = Some(1);
    explorers[3].region = Some(1);
    assert_eq!(format!("{:?}", explorers[0].trait_actions()), "[Hunt]");
    assert_eq!(format!("{:?}", explorers[3].trait_actions()), "[Chart]");
    assert_eq!(ExplorerTrait::Builder.label(), "Engineer");
}

#[test]
fn generated_particularities_come_from_the_tables() {
    let t = template();
    for (_, region) in t.regions.iter() {
        let (least, _) = particularity_count_range(region.terrain);
        let found = region.particularities.storage();
        assert!(found.len() as u64 >= least);
        for p in found {
            let size = table_size(region.terrain);
            assert!((1..=size).any(|n| particularity_of(region.terrain, n) == *p));
        }
    }
}
