use vstd::prelude::*;
use crate::utility::{SelectionHashMap, SelectionStorage};

verus! {

/// A client's id, the 128 bits of a UUID.
pub type ClientId = u128;

pub type RealmId = usize;

pub type RegionId = usize;

pub type ExplorerId = usize;

/// The messages of the wire protocol; requests and responses share this type.
#[derive(Debug)]
pub enum RealmsProtocol {
    Register,
    Connect(ClientId),
    RequestRealmsList,
    RealmsList(SelectionStorage<RealmId>),
    RequestNewRealm,
    RequestRealm(RealmId),
    Realm(Realm),
    Explorer(Move),
    DropEquipment(RealmId, RegionId, ExplorerId, Equipment),
    PickEquipment(RealmId, RegionId, ExplorerId, Equipment),
    InvestigateParticularity(RealmId, RegionId, ExplorerId, Particularity),
    ForgetParticularity(RealmId, RegionId, ExplorerId, Particularity),
    Quit,
    Void,
}

#[derive(Debug, Clone, Copy, PartialEq, Eq, Structural)]
pub enum Move {
    ChangeRegion(RealmId, RegionId, ExplorerId),
    Action(RealmId, RegionId, ExplorerId, ExplorerAction),
}

/// What a client sees of a realm.
#[derive(Debug)]
pub struct Realm {
    pub island: Island,
    pub expedition: Expedition,
    pub id: RealmId,
    pub age: usize,
    pub title: String,
    pub story: String,
    pub objectives: Vec<RealmObjective>,
    pub completed: Vec<RealmObjective>,
    pub done: bool,
}

impl Realm {
    /// Equal in every field, lists compared by their contents.
    pub open spec fn same_as(&self, other: &Realm) -> bool {
        &&& self.island.same_as(&other.island)
        &&& self.expedition.same_as(&other.expedition)
        &&& self.id == other.id
        &&& self.age == other.age
        &&& self.title@ == other.title@
        &&& self.story@ == other.story@
        &&& self.objectives@ == other.objectives@
        &&& self.completed@ == other.completed@
        &&& self.done == other.done
    }

    pub fn new(id: RealmId) -> (r: Realm)
        ensures
            r.island.regions.wf(),
            r.island.regions.map().is_empty(),
            r.expedition.explorers.items().len() == 0,
            r.id == id,
            r.age == 0,
            r.title@ == "a realm"@,
            r.story@ == "pure nihilism."@,
            r.objectives@.len() == 0,
            r.completed@.len() == 0,
            !r.done,
    {
        Realm {
            island: Island::new(),
            expedition: Expedition::new(),
            id,
            age: 0,
            title: "a realm".to_string(),
            story: "pure nihilism.".to_string(),
            objectives: vec![],
            completed: vec![],
            done: false,
        }
    }
}

impl Clone for Realm {
    fn clone(&self) -> (r: Self)
        ensures
            r.same_as(self),
    {
        let objectives = self.objectives.clone();
        let completed = self.completed.clone();
        assert(objectives@ =~= self.objectives@);
        assert(completed@ =~= self.completed@);
        Realm {
            island: self.island.clone(),
            expedition: self.expedition.clone(),
            id: self.id,
            age: self.age,
            title: self.title.clone(),
            story: self.story.clone(),
            objectives,
            completed,
            done: self.done,
        }
    }
}

/// Lookups of regions and explorers in what a realm shows its clients.
pub trait LazyRealmAccess {
    /// The regions of the view, by id.
    spec fn shown_regions(&self) -> Map<RegionId, Region>;

    /// The explorers, in order; an explorer's id is its position.
    spec fn members(&self) -> Seq<Explorer>;

    /// The realm is well formed, so that its regions can be looked up.
    spec fn consistent(&self) -> bool;

    /// The region `region` of the view.
    fn region(&self, region: RegionId) -> (r: Option<&Region>)
        requires
            self.consistent(),
        ensures
            r.is_some() == self.shown_regions().contains_key(region),
            r.is_some() ==> *r.unwrap() == self.shown_regions()[region],
    ;

    /// Explorer `explorer`, where it stands in region `region`.
    fn region_explorer(&self, region: RegionId, explorer: ExplorerId) -> (r: Option<&Explorer>)
        ensures
            r.is_some() == (explorer < self.members().len() && self.members()[explorer as int].region == Some(region)),
            r.is_some() ==> *r.unwrap() == self.members()[explorer as int],
    ;

    /// The region of the view where explorer `explorer` stands.
    fn explorer_region(&self, explorer: ExplorerId) -> (r: Option<&Region>)
        requires
            self.consistent(),
        ensures
            r.is_some() == (explorer < self.members().len() && self.members()[explorer as int].region.is_some()
                && self.shown_regions().contains_key(self.members()[explorer as int].region.unwrap())),
            r.is_some() ==> *r.unwrap() == self.shown_regions()[self.members()[explorer as int].region.unwrap()],
    ;

    /// Explorer `explorer`.
    fn explorer(&self, explorer: ExplorerId) -> (r: Option<&Explorer>)
        ensures
            r.is_some() == (explorer < self.members().len()),
            r.is_some() ==> *r.unwrap() == self.members()[explorer as int],
    ;
}

#[derive(Debug, Clone, Copy, PartialEq, Eq, Structural, Hash)]
pub enum RealmObjective {
    EmbarkExplorers,
}

impl RealmObjective {
    /// The objective as a player reads it.
    pub fn description(&self) -> (r: String)
        ensures
            *self == RealmObjective::EmbarkExplorers ==> r@ == "embark all explorers."@,
    {
        match self {
            RealmObjective::EmbarkExplorers => "embark all explorers.".to_string(),
        }
    }
}

/// The regions of a realm, by id.
#[derive(Debug)]
pub struct Island {
    pub regions: SelectionHashMap<Region>,
}

/// Two region maps with the same ids, cursor and regions.
pub open spec fn same_regions(a: SelectionHashMap<Region>, b: SelectionHashMap<Region>) -> bool {
    &&& a.key_seq() == b.key_seq()
    &&& a.value_seq().len() == b.value_seq().len()
    &&& a.cursor() == b.cursor()
    &&& forall|i: int| 0 <= i < a.value_seq().len() ==> (#[trigger] a.value_seq()[i]).same_as(&b.value_seq()[i])
}

impl Island {
    pub open spec fn same_as(&self, other: &Island) -> bool {
        same_regions(self.regions, other.regions)
    }

    pub fn new() -> (r: Island)
        ensures
            r.regions.wf(),
            r.regions.map().is_empty(),
            r.regions.len_spec() == 0,
    {
        Island { regions: SelectionHashMap::new() }
    }
}

impl Clone for Island {
    fn clone(&self) -> (r: Self)
        ensures
            r.same_as(self),
    {
        Island { regions: self.regions.clone() }
    }
}

/// One cell of the world map, with what can be seen of it.
#[derive(Debug)]
pub struct Region {
    pub id: RegionId,
    pub terrain: Terrain,
    pub particularities: SelectionStorage<Particularity>,
    pub buildings: SelectionStorage<String>,
    pub mapped: bool,
    pub resources: usize,
    pub sight: RegionVisibility,
    pub neighbors: Vec<RegionId>,
    pub hex_offset_coords: (usize, usize),
}

impl Region {
    /// Equal in every field but the visibility tag.
    pub open spec fn matches(&self, other: &Region) -> bool {
        &&& self.id == other.id
        &&& self.terrain == other.terrain
        &&& self.particularities.same_as(&other.particularities)
        &&& self.buildings.same_as(&other.buildings)
        &&& self.mapped == other.mapped
        &&& self.resources == other.resources
        &&& self.neighbors@ == other.neighbors@
        &&& self.hex_offset_coords == other.hex_offset_coords
    }

    /// Equal in every field.
    pub open spec fn same_as(&self, other: &Region) -> bool {
        self.matches(other) && self.sight == other.sight
    }

    /// A copy of the region with another visibility tag.
    pub fn with_sight(&self, sight: RegionVisibility) -> (r: Region)
        ensures
            r.matches(self),
            r.sight == sight,
    {
        let mut r = self.clone();
        r.sight = sight;
        r
    }
}

impl Clone for Region {
    fn clone(&self) -> (r: Self)
        ensures
            r.same_as(self),
    {
        let particularities = self.particularities.clone();
        let buildings = self.buildings.clone();
        let neighbors = self.neighbors.clone();
        assert(particularities.items() =~= self.particularities.items());
        assert(buildings.items() =~= self.buildings.items());
        assert(neighbors@ =~= self.neighbors@);
        Region {
            id: self.id,
            terrain: self.terrain,
            particularities,
            buildings,
            mapped: self.mapped,
            resources: self.resources,
            sight: self.sight,
            neighbors,
            hex_offset_coords: self.hex_offset_coords,
        }
    }
}

/// How much of a region a client sees.
#[derive(Debug, Clone, Copy, PartialEq, Eq, Structural)]
pub enum RegionVisibility {
    Hidden,
    Partial,
    Complete,
    Live,
}

#[derive(Debug, Clone, Copy, PartialEq, Eq, Structural)]
pub enum Terrain {
    Coast,
    Planes,
    Forest,
    Mountain,
}

/// A point of interest in a region; `Item` is one that can be picked up.
#[derive(Debug, Clone, Copy, PartialEq, Eq, Structural, Hash)]
pub enum Particularity {
    Town,
    River,
    Carravan,
    Merchant,
    Camp,
    Item(Equipment),
    Canyon,
    Bolders,
    Grasland,
    Creek,
    Grove,
    Cliffs,
    Island,
    Lake,
    Pond,
    Clearing,
    Ship,
    Queen,
    Farmers,
    Lighthouse,
    Library,
    Castle,
    Fortress,
    Haven,
    Character,
}

#[derive(Debug, PartialEq, Eq, Hash)]
pub struct Character {
    name: String,
    text: String,
    dialog: Vec<String>,
}

/// The explorers of a realm.
#[derive(Debug)]
pub struct Expedition {
    pub explorers: SelectionStorage<Explorer>,
}

impl Expedition {
    /// The same explorers, in the same order, and the same cursor.
    pub open spec fn same_as(&self, other: &Expedition) -> bool {
        &&& self.explorers.items().len() == other.explorers.items().len()
        &&& self.explorers.cursor() == other.explorers.cursor()
        &&& forall|i: int|
            0 <= i < self.explorers.items().len() ==> (#[trigger] self.explorers.items()[i]).same_as(
                &other.explorers.items()[i],
            )
    }

    pub fn new() -> (r: Expedition)
        ensures
            r.explorers.items().len() == 0,
            r.explorers.cursor() == 0,
    {
        Expedition { explorers: SelectionStorage::new() }
    }
}

impl Clone for Expedition {
    fn clone(&self) -> (r: Self)
        ensures
            r.same_as(self),
    {
        Expedition { explorers: self.explorers.clone() }
    }
}

/// A character of the expedition; `region` is `None` until it embarks.
#[derive(Debug)]
pub struct Explorer {
    pub id: ExplorerId,
    pub traits: SelectionStorage<ExplorerTrait>,
    pub region: Option<RegionId>,
    pub inventory: SelectionStorage<ExplorerItem>,
}

/// The action that each trait gives.
pub open spec fn trait_action(t: ExplorerTrait) -> ExplorerAction {
    match t {
        ExplorerTrait::Ranger => ExplorerAction::Hunt,
        ExplorerTrait::Cartographer => ExplorerAction::Chart,
        ExplorerTrait::Builder => ExplorerAction::Build,
        ExplorerTrait::Sailor => ExplorerAction::Sail,
    }
}

impl Explorer {
    /// Equal in every field, lists compared by their contents.
    pub open spec fn same_as(&self, other: &Explorer) -> bool {
        &&& self.id == other.id
        &&& self.traits.same_as(&other.traits)
        &&& self.region == other.region
        &&& self.inventory.same_as(&other.inventory)
    }

    /// The actions that the explorer's traits give, one per trait, in order;
    /// none before it has embarked.
    pub fn trait_actions(&self) -> (r: Vec<ExplorerAction>)
        ensures
            self.region.is_none() ==> r@.len() == 0,
            self.region.is_some() ==> r@ == self.traits.items().map_values(|t: ExplorerTrait| trait_action(t)),
    {
        let mut actions: Vec<ExplorerAction> = vec![];
        if self.region.is_some() {
            let traits = self.traits.storage();
            let mut i: usize = 0;
            while i < traits.len()
                invariant
                    traits@ == self.traits.items(),
                    i <= traits@.len(),
                    actions@ == traits@.subrange(0, i as int).map_values(|t: ExplorerTrait| trait_action(t)),
                decreases traits@.len() - i,
            {
                let action = match traits[i] {
                    ExplorerTrait::Ranger => ExplorerAction::Hunt,
                    ExplorerTrait::Cartographer => ExplorerAction::Chart,
                    ExplorerTrait::Builder => ExplorerAction::Build,
                    ExplorerTrait::Sailor => ExplorerAction::Sail,
                };
                actions.push(action);
                assert(traits@.subrange(0, i + 1) =~= traits@.subrange(0, i as int).push(traits@[i as int]));
                i = i + 1;
            }
            assert(traits@.subrange(0, traits@.len() as int) =~= traits@);
        }
        actions
    }
}

impl Clone for Explorer {
    fn clone(&self) -> (r: Self)
        ensures
            r.same_as(self),
    {
        let traits = self.traits.clone();
        let inventory = self.inventory.clone();
        assert(traits.items() =~= self.traits.items());
        assert(inventory.items() =~= self.inventory.items());
        Explorer { id: self.id, traits, region: self.region, inventory }
    }
}

#[derive(Debug, Clone, Copy, PartialEq, Eq, Structural)]
pub enum ExplorerAction {
    Build,
    Hunt,
    Sail,
    Chart,
    Wait,
}

#[derive(Debug, Clone, Copy, PartialEq, Eq, Structural, Hash)]
pub enum ExplorerTrait {
    Ranger,
    Cartographer,
    Builder,
    Sailor,
}

impl ExplorerTrait {
    /// The trait's name as a player reads it.
    pub fn label(&self) -> (r: String)
        ensures
            *self == ExplorerTrait::Ranger ==> r@ == "Ranger"@,
            *self == ExplorerTrait::Cartographer ==> r@ == "Cartographer"@,
            *self == ExplorerTrait::Builder ==> r@ == "Engineer"@,
            *self == ExplorerTrait::Sailor ==> r@ == "Sailor"@,
    {
        match self {
            ExplorerTrait::Ranger => "Ranger".to_string(),
            ExplorerTrait::Cartographer => "Cartographer".to_string(),
            ExplorerTrait::Builder => "Engineer".to_string(),
            ExplorerTrait::Sailor => "Sailor".to_string(),
        }
    }
}

#[derive(Debug, Clone, Copy, PartialEq, Eq, Structural, Hash)]
pub enum Equipment {
    Pots,
    Tinder,
    Firewood(usize),
    Coal(usize),
    Gold(usize),
    Coins(usize),
    Tools,
    Flint,
    Wax,
    SealStamp,
    Blankets,
    Herbs(usize),
    Food(usize),
    Pipe,
    Telescope,
    Compass,
    Rope,
    Parchment(usize),
    Chart,
    Knife,
    Spear,
    Bow,
    Arrows(usize),
    Canoe,
    Raft,
}

/// Something an explorer carries: equipment, a particularity remembered
/// together with the region it was found in, or a message.
#[derive(Debug, PartialEq, Eq, Hash)]
pub enum ExplorerItem {
    Equipment(Equipment),
    Particularity(RegionId, Particularity),
    Message(String),
}

impl Clone for ExplorerItem {
    fn clone(&self) -> (r: Self)
        ensures
            r == *self,
    {
        match self {
            ExplorerItem::Equipment(e) => ExplorerItem::Equipment(*e),
            ExplorerItem::Particularity(region, p) => ExplorerItem::Particularity(*region, *p),
            ExplorerItem::Message(text) => ExplorerItem::Message(text.clone()),
        }
    }
}

} // verus!
