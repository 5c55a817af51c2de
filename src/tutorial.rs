use vstd::prelude::*;
use itertools::Itertools;
use rand::Rng;
use crate::hex::{grid_adjacent, hexes, Hex};
use crate::realms::{RealmStrategy, RealmTemplate, RealmVariant};
use crate::tokens::{
    Equipment, Expedition, Explorer, ExplorerItem, ExplorerTrait, Island, Particularity, Realm,
    RealmId, RealmObjective, Region, RegionVisibility, Terrain,
};
use crate::utility::{SelectionHashMap, SelectionStorage};

verus! {

/// Rows and columns of the tutorial island.
pub const ISLAND_SIDE: usize = 5;

/// Relies on rand's `Rng::gen_range` on the thread-local generator: a number
/// in `low..=high`, which must not be empty.
#[verifier::external_body]
fn roll(low: u64, high: u64) -> (r: u64)
    requires
        low <= high,
    ensures
        low <= r <= high,
{
    rand::thread_rng().gen_range(low..=high)
}

/// The items of `s` in order, each kept only where it first occurs.
pub open spec fn first_occurrences<A>(s: Seq<A>) -> Seq<A>
    decreases s.len(),
{
    if s.len() == 0 {
        s
    } else if s.drop_last().contains(s.last()) {
        first_occurrences(s.drop_last())
    } else {
        first_occurrences(s.drop_last()).push(s.last())
    }
}

/// Relies on itertools' `Itertools::unique`: yields the items in order,
/// keeping only the first of equal items.
#[verifier::external_body]
fn unique_particularities(items: Vec<Particularity>) -> (r: Vec<Particularity>)
    ensures
        r@ == first_occurrences(items@),
{
    items.into_iter().unique().collect()
}

/// The terrain that a roll in `1..=4` gives.
pub open spec fn terrain_spec(roll: u64) -> Terrain {
    if roll == 1 {
        Terrain::Coast
    } else if roll == 2 {
        Terrain::Planes
    } else if roll == 3 {
        Terrain::Forest
    } else {
        Terrain::Mountain
    }
}

pub fn terrain_of(roll: u64) -> (r: Terrain)
    ensures
        r == terrain_spec(roll),
{
    match roll {
        1 => Terrain::Coast,
        2 => Terrain::Planes,
        3 => Terrain::Forest,
        _ => Terrain::Mountain,
    }
}

/// How many particularities a region of each terrain may have, least and most.
pub open spec fn particularity_count_spec(terrain: Terrain) -> (u64, u64) {
    match terrain {
        Terrain::Coast => (1, 2),
        Terrain::Planes => (1, 3),
        Terrain::Forest => (0, 2),
        Terrain::Mountain => (0, 1),
    }
}

pub fn particularity_count_range(terrain: Terrain) -> (r: (u64, u64))
    ensures
        r == particularity_count_spec(terrain),
{
    match terrain {
        Terrain::Coast => (1, 2),
        Terrain::Planes => (1, 3),
        Terrain::Forest => (0, 2),
        Terrain::Mountain => (0, 1),
    }
}

/// The number of entries in each terrain's table of particularities.
pub open spec fn table_size_spec(terrain: Terrain) -> u64 {
    match terrain {
        Terrain::Coast => 9,
        Terrain::Planes => 10,
        Terrain::Forest => 9,
        Terrain::Mountain => 8,
    }
}

pub fn table_size(terrain: Terrain) -> (r: u64)
    ensures
        r == table_size_spec(terrain),
{
    match terrain {
        Terrain::Coast => 9,
        Terrain::Planes => 10,
        Terrain::Forest => 9,
        Terrain::Mountain => 8,
    }
}

/// The particularity that a roll in `1..=table_size_spec(terrain)` gives; common
/// features of a terrain fill several entries of its table.
pub open spec fn particularity_spec(terrain: Terrain, roll: u64) -> Particularity {
    match terrain {
        Terrain::Coast => if roll == 1 {
            Particularity::Town
        } else if roll == 2 {
            Particularity::River
        } else if 3 <= roll <= 5 {
            Particularity::Cliffs
        } else if 6 <= roll <= 7 {
            Particularity::Island
        } else if roll == 8 {
            Particularity::Ship
        } else {
            Particularity::Carravan
        },
        Terrain::Planes => if roll == 1 {
            Particularity::Town
        } else if roll == 2 {
            Particularity::Merchant
        } else if 3 <= roll <= 4 {
            Particularity::Grove
        } else if roll == 5 {
            Particularity::Creek
        } else if 6 <= roll <= 8 {
            Particularity::Grasland
        } else if roll == 9 {
            Particularity::River
        } else {
            Particularity::Carravan
        },
        Terrain::Forest => if roll == 1 {
            Particularity::Town
        } else if roll == 2 {
            Particularity::River
        } else if 3 <= roll <= 4 {
            Particularity::Creek
        } else if 5 <= roll <= 7 {
            Particularity::Clearing
        } else if roll == 8 {
            Particularity::Pond
        } else {
            Particularity::Carravan
        },
        Terrain::Mountain => if roll == 1 {
            Particularity::Town
        } else if roll == 2 {
            Particularity::River
        } else if roll == 3 {
            Particularity::Canyon
        } else if 4 <= roll <= 6 {
            Particularity::Bolders
        } else if roll == 7 {
            Particularity::Lake
        } else {
            Particularity::Carravan
        },
    }
}

pub fn particularity_of(terrain: Terrain, roll: u64) -> (r: Particularity)
    ensures
        r == particularity_spec(terrain, roll),
{
    match terrain {
        Terrain::Coast => match roll {
            1 => Particularity::Town,
            2 => Particularity::River,
            3 | 4 | 5 => Particularity::Cliffs,
            6 | 7 => Particularity::Island,
            8 => Particularity::Ship,
            _ => Particularity::Carravan,
        },
        Terrain::Planes => match roll {
            1 => Particularity::Town,
            2 => Particularity::Merchant,
            3 | 4 => Particularity::Grove,
            5 => Particularity::Creek,
            6 | 7 | 8 => Particularity::Grasland,
            9 => Particularity::River,
            _ => Particularity::Carravan,
        },
        Terrain::Forest => match roll {
            1 => Particularity::Town,
            2 => Particularity::River,
            3 | 4 => Particularity::Creek,
            5 | 6 | 7 => Particularity::Clearing,
            8 => Particularity::Pond,
            _ => Particularity::Carravan,
        },
        Terrain::Mountain => match roll {
            1 => Particularity::Town,
            2 => Particularity::River,
            3 => Particularity::Canyon,
            4 | 5 | 6 => Particularity::Bolders,
            7 => Particularity::Lake,
            _ => Particularity::Carravan,
        },
    }
}

/// The resources that a region of each terrain starts with.
pub open spec fn resources_spec(terrain: Terrain) -> usize {
    match terrain {
        Terrain::Planes => 6,
        Terrain::Forest => 5,
        Terrain::Coast => 3,
        Terrain::Mountain => 2,
    }
}

pub fn resources_of(terrain: Terrain) -> (r: usize)
    ensures
        r == resources_spec(terrain),
{
    match terrain {
        Terrain::Planes => 6,
        Terrain::Forest => 5,
        Terrain::Coast => 3,
        Terrain::Mountain => 2,
    }
}

/// A fresh region of the given terrain on a grid cell, whose particularities
/// are those that `rolls` pick from the terrain's table, each kept once.
pub fn region_from(terrain: Terrain, rolls: &Vec<u64>, hex: &Hex) -> (r: Region)
    ensures
        r.id == hex.id,
        r.terrain == terrain,
        r.particularities.items() == first_occurrences(
            rolls@.map_values(|n: u64| particularity_spec(terrain, n)),
        ),
        r.particularities.cursor() == 0,
        r.buildings.items().len() == 0,
        r.buildings.cursor() == 0,
        !r.mapped,
        r.resources == resources_spec(terrain),
        r.sight == RegionVisibility::Hidden,
        r.neighbors@ == hex.neighbors@,
        r.hex_offset_coords == hex.offset,
{
    let mut drawn: Vec<Particularity> = vec![];
    let mut i: usize = 0;
    while i < rolls.len()
        invariant
            i <= rolls@.len(),
            drawn@ == rolls@.subrange(0, i as int).map_values(|n: u64| particularity_spec(terrain, n)),
        decreases rolls@.len() - i,
    {
        drawn.push(particularity_of(terrain, rolls[i]));
        assert(rolls@.subrange(0, i + 1) =~= rolls@.subrange(0, i as int).push(rolls@[i as int]));
        i = i + 1;
    }
    assert(rolls@.subrange(0, rolls@.len() as int) =~= rolls@);
    let particularities = unique_particularities(drawn);
    let from = SelectionStorage::new_from(&particularities);
    assert(from.items() =~= particularities@);
    let neighbors = hex.neighbors.clone();
    assert(neighbors@ =~= hex.neighbors@);
    Region {
        id: hex.id,
        terrain,
        particularities: from,
        buildings: SelectionStorage::new(),
        mapped: false,
        resources: resources_of(terrain),
        sight: RegionVisibility::Hidden,
        neighbors,
        hex_offset_coords: hex.offset,
    }
}

/// Some entry of the terrain's table gives `p`.
pub open spec fn from_table(terrain: Terrain, p: Particularity) -> bool {
    exists|n: u64| 1 <= n <= table_size_spec(terrain) && #[trigger] particularity_spec(terrain, n) == p
}

/// A region as the tutorial generates it: every field but the randomly
/// drawn terrain and particularities is fixed by the grid.
pub open spec fn generated(r: Region, k: usize) -> bool {
    &&& r.id == k
    &&& r.particularities.cursor() == 0
    &&& particularity_count_spec(r.terrain).0 <= r.particularities.items().len() <= particularity_count_spec(r.terrain).1
    &&& r.particularities.items().no_duplicates()
    &&& forall|i: int| 0 <= i < r.particularities.items().len() ==> from_table(r.terrain, #[trigger] r.particularities.items()[i])
    &&& r.buildings.items().len() == 0
    &&& !r.mapped
    &&& r.resources == resources_spec(r.terrain)
    &&& r.sight == RegionVisibility::Hidden
    &&& r.hex_offset_coords == ((k % ISLAND_SIDE) as usize, (k / ISLAND_SIDE) as usize)
    &&& r.neighbors@.no_duplicates()
    &&& forall|j: usize| #[trigger] r.neighbors@.contains(j) <==> grid_adjacent(
        ISLAND_SIDE as int,
        ISLAND_SIDE as int,
        k as int,
        j as int,
    )
}

/// Keeping first occurrences drops only repeats: the result holds each item
/// of `s` once and nothing else.
pub proof fn lemma_first_occurrences<A>(s: Seq<A>)
    ensures
        first_occurrences(s).len() <= s.len(),
        first_occurrences(s).no_duplicates(),
        forall|x: A| #[trigger] first_occurrences(s).contains(x) <==> s.contains(x),
    decreases s.len(),
{
    if s.len() > 0 {
        let init = s.drop_last();
        lemma_first_occurrences(init);
        assert forall|x: A| #[trigger] s.contains(x) <==> (init.contains(x) || x == s.last()) by {
            if s.contains(x) {
                let q = s.index_of(x);
                if q < s.len() - 1 {
                    assert(init[q] == x);
                }
            }
            if init.contains(x) {
                let q = init.index_of(x);
                assert(s[q] == x);
            }
            if x == s.last() {
                assert(s[s.len() - 1] == x);
            }
        }
        if !init.contains(s.last()) {
            let f = first_occurrences(init);
            let g = f.push(s.last());
            assert forall|x: A| #[trigger] g.contains(x) <==> (f.contains(x) || x == s.last()) by {
                if g.contains(x) {
                    let q = g.index_of(x);
                    if q < f.len() {
                        assert(f[q] == x);
                    }
                }
                if f.contains(x) {
                    let q = f.index_of(x);
                    assert(g[q] == x);
                }
                if x == s.last() {
                    assert(g[f.len() as int] == x);
                }
            }
            assert forall|i: int, j: int| 0 <= i < g.len() && 0 <= j < g.len() && i != j implies g[i] != g[j] by {
                if i < f.len() && j < f.len() {
                } else if i < f.len() {
                    assert(f.contains(g[i]));
                } else {
                    assert(f.contains(g[j]));
                }
            }
        }
    }
}

/// Lays out the tutorial island: a five by five grid of regions, keyed by
/// their grid index, each with a random terrain and particularities.
fn regions() -> (r: SelectionHashMap<Region>)
    ensures
        r.wf(),
        forall|k: usize| #[trigger] r.map().contains_key(k) <==> k < ISLAND_SIDE * ISLAND_SIDE,
        forall|k: usize| #[trigger] r.map().contains_key(k) ==> generated(r.map()[k], k),
{
    let cells = hexes(ISLAND_SIDE, ISLAND_SIDE);
    let mut regions: SelectionHashMap<Region> = SelectionHashMap::new();
    let mut i: usize = 0;
    while i < cells.len()
        invariant
            cells@.len() == ISLAND_SIDE * ISLAND_SIDE,
            forall|k: int| 0 <= k < cells@.len() ==> (#[trigger] cells@[k]).id == k,
            forall|k: int| 0 <= k < cells@.len() ==> (#[trigger] cells@[k].offset).0 == k % (ISLAND_SIDE as int)
                && cells@[k].offset.1 == k / (ISLAND_SIDE as int),
            forall|k: int| 0 <= k < cells@.len() ==> (#[trigger] cells@[k].neighbors@).no_duplicates(),
            forall|k: int, j: usize|
                0 <= k < cells@.len() ==> (#[trigger] cells@[k].neighbors@.contains(j) <==> grid_adjacent(
                    ISLAND_SIDE as int,
                    ISLAND_SIDE as int,
                    k,
                    j as int,
                )),
            i <= cells@.len(),
            regions.wf(),
            forall|k: usize| #[trigger] regions.map().contains_key(k) <==> k < i,
            forall|k: usize| #[trigger] regions.map().contains_key(k) ==> generated(regions.map()[k], k),
        decreases cells@.len() - i,
    {
        let terrain = terrain_of(roll(1, 4));
        let (least, most) = particularity_count_range(terrain);
        let count = roll(least, most);
        let size = table_size(terrain);
        let mut rolls: Vec<u64> = vec![];
        let mut n: u64 = 0;
        while n < count
            invariant
                n <= count,
                rolls@.len() == n,
                size == table_size_spec(terrain),
                forall|m: int| 0 <= m < n ==> 1 <= #[trigger] rolls@[m] <= size,
            decreases count - n,
        {
            rolls.push(roll(1, size));
            n = n + 1;
        }
        let region = region_from(terrain, &rolls, &cells[i]);
        proof {
            let drawn = rolls@.map_values(|n: u64| particularity_spec(terrain, n));
            lemma_first_occurrences(drawn);
            let kept = region.particularities.items();
            assert forall|q: int| 0 <= q < kept.len() implies from_table(terrain, #[trigger] kept[q]) by {
                assert(kept.contains(kept[q]));
                let m = drawn.index_of(kept[q]);
                assert(particularity_spec(terrain, rolls@[m]) == kept[q]);
            }
            if count > 0 {
                assert(drawn.contains(drawn[0]));
                assert(kept.contains(drawn[0]));
            }
        }
        regions.insert(i, region);
        i = i + 1;
    }
    regions
}

/// The traits that each explorer of the tutorial starts with.
pub open spec fn starting_traits(i: int) -> Seq<ExplorerTrait> {
    if i == 0 {
        seq![ExplorerTrait::Ranger]
    } else if i == 1 {
        seq![ExplorerTrait::Builder]
    } else if i == 3 {
        seq![ExplorerTrait::Cartographer]
    } else if i == 4 {
        seq![ExplorerTrait::Sailor]
    } else {
        seq![]
    }
}

/// The inventory that each explorer of the tutorial starts with; the sailor
/// may carry a canoe besides.
pub open spec fn starting_inventory(i: int, canoe: bool) -> Seq<ExplorerItem> {
    if i == 0 {
        seq![
            ExplorerItem::Equipment(Equipment::Bow),
            ExplorerItem::Equipment(Equipment::Arrows(75)),
            ExplorerItem::Equipment(Equipment::Knife),
            ExplorerItem::Equipment(Equipment::Coins(110)),
            ExplorerItem::Equipment(Equipment::Telescope),
            ExplorerItem::Equipment(Equipment::Herbs(20)),
        ]
    } else if i == 1 {
        seq![
            ExplorerItem::Equipment(Equipment::Tools),
            ExplorerItem::Equipment(Equipment::Food(10)),
            ExplorerItem::Equipment(Equipment::Pipe),
            ExplorerItem::Equipment(Equipment::Blankets),
            ExplorerItem::Equipment(Equipment::Knife),
        ]
    } else if i == 2 {
        seq![
            ExplorerItem::Equipment(Equipment::Pots),
            ExplorerItem::Equipment(Equipment::Tinder),
            ExplorerItem::Equipment(Equipment::Firewood(4)),
            ExplorerItem::Equipment(Equipment::Flint),
            ExplorerItem::Equipment(Equipment::Rope),
        ]
    } else if i == 3 {
        seq![
            ExplorerItem::Equipment(Equipment::Parchment(10)),
            ExplorerItem::Equipment(Equipment::Chart),
            ExplorerItem::Equipment(Equipment::Rope),
            ExplorerItem::Equipment(Equipment::Wax),
            ExplorerItem::Equipment(Equipment::SealStamp),
        ]
    } else {
        let sailor = seq![
            ExplorerItem::Equipment(Equipment::Coins(32)),
            ExplorerItem::Equipment(Equipment::Gold(4)),
            ExplorerItem::Equipment(Equipment::Rope),
            ExplorerItem::Equipment(Equipment::Knife),
            ExplorerItem::Equipment(Equipment::Compass),
            ExplorerItem::Equipment(Equipment::Telescope),
        ];
        if canoe {
            sailor.push(ExplorerItem::Equipment(Equipment::Canoe))
        } else {
            sailor
        }
    }
}

/// An explorer of the tutorial as it starts out.
pub open spec fn starts_as(e: Explorer, i: int, canoe: bool) -> bool {
    &&& e.id == i
    &&& e.region.is_none()
    &&& e.traits.items() == starting_traits(i)
    &&& e.traits.cursor() == 0
    &&& e.inventory.items() == starting_inventory(i, canoe)
    &&& e.inventory.cursor() == 0
}

/// `explorers` is the tutorial's expedition, each explorer as it starts out.
pub open spec fn is_roster(explorers: Seq<Explorer>, canoe: bool) -> bool {
    &&& 3 <= explorers.len() <= 5
    &&& forall|i: int| 0 <= i < explorers.len() ==> starts_as(#[trigger] explorers[i], i, canoe)
}

fn explorer_with(id: usize, traits: Vec<ExplorerTrait>, items: Vec<ExplorerItem>) -> (r: Explorer)
    ensures
        r.id == id,
        r.region.is_none(),
        r.traits.items() == traits@,
        r.traits.cursor() == 0,
        r.inventory.items() == items@,
        r.inventory.cursor() == 0,
{
    let chosen = SelectionStorage::new_from(&traits);
    let inventory = SelectionStorage::new_from(&items);
    assert(chosen.items() =~= traits@);
    assert(inventory.items() =~= items@);
    Explorer { id, traits: chosen, region: None, inventory }
}

/// The tutorial's expedition of `count` explorers, none embarked: a ranger, a
/// builder, one without a trait, then a cartographer and a sailor as `count`
/// allows; the sailor carries a canoe where `canoe` holds.
pub fn roster(count: usize, canoe: bool) -> (r: Vec<Explorer>)
    requires
        3 <= count <= 5,
    ensures
        r@.len() == count,
        forall|i: int| 0 <= i < count ==> starts_as(#[trigger] r@[i], i, canoe),
{
    let mut explorers: Vec<Explorer> = vec![];
    explorers.push(explorer_with(0, vec![ExplorerTrait::Ranger], vec![
        ExplorerItem::Equipment(Equipment::Bow),
        ExplorerItem::Equipment(Equipment::Arrows(75)),
        ExplorerItem::Equipment(Equipment::Knife),
        ExplorerItem::Equipment(Equipment::Coins(110)),
        ExplorerItem::Equipment(Equipment::Telescope),
        ExplorerItem::Equipment(Equipment::Herbs(20)),
    ]));
    explorers.push(explorer_with(1, vec![ExplorerTrait::Builder], vec![
        ExplorerItem::Equipment(Equipment::Tools),
        ExplorerItem::Equipment(Equipment::Food(10)),
        ExplorerItem::Equipment(Equipment::Pipe),
        ExplorerItem::Equipment(Equipment::Blankets),
        ExplorerItem::Equipment(Equipment::Knife),
    ]));
    explorers.push(explorer_with(2, vec![], vec![
        ExplorerItem::Equipment(Equipment::Pots),
        ExplorerItem::Equipment(Equipment::Tinder),
        ExplorerItem::Equipment(Equipment::Firewood(4)),
        ExplorerItem::Equipment(Equipment::Flint),
        ExplorerItem::Equipment(Equipment::Rope),
    ]));
    if count > 3 {
        explorers.push(explorer_with(3, vec![ExplorerTrait::Cartographer], vec![
            ExplorerItem::Equipment(Equipment::Parchment(10)),
            ExplorerItem::Equipment(Equipment::Chart),
            ExplorerItem::Equipment(Equipment::Rope),
            ExplorerItem::Equipment(Equipment::Wax),
            ExplorerItem::Equipment(Equipment::SealStamp),
        ]));
    }
    if count > 4 {
        let mut sailor = explorer_with(4, vec![ExplorerTrait::Sailor], vec![
            ExplorerItem::Equipment(Equipment::Coins(32)),
            ExplorerItem::Equipment(Equipment::Gold(4)),
            ExplorerItem::Equipment(Equipment::Rope),
            ExplorerItem::Equipment(Equipment::Knife),
            ExplorerItem::Equipment(Equipment::Compass),
            ExplorerItem::Equipment(Equipment::Telescope),
        ]);
        if canoe {
            sailor.inventory.insert(ExplorerItem::Equipment(Equipment::Canoe));
        }
        explorers.push(sailor);
    }
    proof {
        assert forall|i: int| 0 <= i < count implies starts_as(#[trigger] explorers@[i], i, canoe) by {
            assert(starting_traits(i) =~= explorers@[i].traits.items());
            assert(starting_inventory(i, canoe) =~= explorers@[i].inventory.items());
        }
    }
    explorers
}

/// Draws the size of the tutorial's expedition, and whether its sailor has a canoe.
fn explorers() -> (r: Vec<Explorer>)
    ensures
        exists|canoe: bool| #[trigger] is_roster(r@, canoe),
{
    let count = roll(3, 5);
    let canoe = roll(0, 1) == 1;
    let r = roster(count as usize, canoe);
    assert(is_roster(r@, canoe));
    r
}

/// A tutorial template: the generated island and a fresh expedition.
pub open spec fn tutorial_template(t: RealmTemplate) -> bool {
    &&& t.wf()
    &&& forall|k: usize| #[trigger] t.regions.map().contains_key(k) <==> k < ISLAND_SIDE * ISLAND_SIDE
    &&& forall|k: usize| #[trigger] t.regions.map().contains_key(k) ==> generated(t.regions.map()[k], k)
    &&& exists|canoe: bool| #[trigger] is_roster(t.explorers@, canoe)
}

/// The view that a new tutorial realm starts with: the first two regions of
/// the template, shown complete, the whole expedition, and one objective.
pub open spec fn starting_view(r: Realm, id: RealmId, t: RealmTemplate) -> bool {
    &&& r.island.regions.wf()
    &&& forall|k: usize| #[trigger] r.island.regions.map().contains_key(k) <==> (t.regions.map().contains_key(k)
        && t.regions.key_seq().index_of(k) < 2)
    &&& forall|k: usize| #[trigger] r.island.regions.map().contains_key(k) ==> {
        &&& r.island.regions.map()[k].matches(&t.regions.map()[k])
        &&& r.island.regions.map()[k].sight == RegionVisibility::Complete
    }
    &&& r.expedition.explorers.items().len() == t.explorers@.len()
    &&& forall|i: int| 0 <= i < t.explorers@.len() ==> (#[trigger] r.expedition.explorers.items()[i]).same_as(&t.explorers@[i])
    &&& r.expedition.explorers.cursor() == 0
    &&& r.island.regions.cursor() == 0
    &&& r.id == id
    &&& r.age == 0
    &&& r.title@ == "tutorial"@
    &&& r.story@ == ""@
    &&& r.objectives@ == seq![RealmObjective::EmbarkExplorers]
    &&& r.completed@.len() == 0
    &&& !r.done
}

/// A new tutorial realm.
pub fn new(id: RealmId) -> (r: RealmStrategy)
    ensures
        r.wf(),
        r.variant == RealmVariant::Tutorial,
        tutorial_template(r.template),
        starting_view(r.realm, id, r.template),
{
    let template = template();
    let realm = realm(id, &template);
    RealmStrategy { variant: RealmVariant::Tutorial, realm, template }
}

pub fn template() -> (r: RealmTemplate)
    ensures
        tutorial_template(r),
{
    let regions = regions();
    let explorers = explorers();
    let r = RealmTemplate { regions, explorers };
    assert(r.wf());
    let ghost canoe = choose|canoe: bool| #[trigger] is_roster(explorers@, canoe);
    assert(is_roster(r.explorers@, canoe));
    r
}

/// The view of a new tutorial realm over `template`.
pub fn realm(id: RealmId, template: &RealmTemplate) -> (r: Realm)
    requires
        template.wf(),
    ensures
        starting_view(r, id, *template),
{
    let mut regions: SelectionHashMap<Region> = SelectionHashMap::new();
    let len = template.regions.len();
    let shown: usize = if len < 2 { len } else { 2 };
    let mut n: usize = 0;
    while n < shown
        invariant
            template.wf(),
            shown <= template.regions.len_spec(),
            shown <= 2,
            n <= shown,
            regions.wf(),
            regions.cursor() == 0,
            forall|k: usize| #[trigger] regions.map().contains_key(k) <==> (template.regions.map().contains_key(k)
                && template.regions.key_seq().index_of(k) < n),
            forall|k: usize| #[trigger] regions.map().contains_key(k) ==> {
                &&& regions.map()[k].matches(&template.regions.map()[k])
                &&& regions.map()[k].sight == RegionVisibility::Complete
            },
        decreases shown - n,
    {
        let (k, region) = template.regions.nth(n);
        proof {
            template.regions.lemma_index_of(n as int);
            assert forall|key: usize| template.regions.map().contains_key(key) implies
                (#[trigger] template.regions.key_seq().index_of(key) < n + 1 <==> (
                template.regions.key_seq().index_of(key) < n || key == k)) by {
                let j = template.regions.key_seq().index_of(key);
                template.regions.lemma_index_of(j);
            }
        }
        regions.insert(k, region.with_sight(RegionVisibility::Complete));
        n = n + 1;
    }
    proof {
        assert forall|key: usize| template.regions.map().contains_key(key) implies
            (#[trigger] template.regions.key_seq().index_of(key) < shown <==> template.regions.key_seq().index_of(key) < 2) by {
            let j = template.regions.key_seq().index_of(key);
            template.regions.lemma_index_of(j);
        }
    }
    let objectives = vec![RealmObjective::EmbarkExplorers];
    assert(objectives@ =~= seq![RealmObjective::EmbarkExplorers]);
    Realm {
        id,
        island: Island { regions },
        expedition: Expedition { explorers: SelectionStorage::new_from(&template.explorers) },
        age: 0,
        title: "tutorial".to_string(),
        story: "".to_string(),
        objectives,
        completed: vec![],
        done: false,
    }
}

} // verus!
