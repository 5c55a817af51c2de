use vstd::prelude::*;
use crate::tokens::{
    Equipment, Explorer, ExplorerAction, ExplorerId, ExplorerItem, LazyRealmAccess, Particularity, Realm,
    RealmObjective, Region, RegionId, RegionVisibility,
};
use crate::tutorial;
use crate::tutorial::{starting_view, tutorial_template};
use crate::utility::{
    lemma_without_first, lemma_without_first_multiset, lemma_without_pushed, without_first,
    SelectionHashMap, SelectionStorage,
};

verus! {

/// The kinds of realm; each brings its own generation and rules.
#[derive(Debug, Clone, Copy, PartialEq, Eq, Structural)]
pub enum RealmVariant {
    Tutorial,
}

/// The ground truth of a realm: every region, and the roster it started with.
#[derive(Debug)]
pub struct RealmTemplate {
    pub regions: SelectionHashMap<Region>,
    pub explorers: Vec<Explorer>,
}

/// A realm: its template, the view that clients get, and the rules of its variant.
#[derive(Debug)]
pub struct RealmStrategy {
    pub variant: RealmVariant,
    pub realm: Realm,
    pub template: RealmTemplate,
}

/// Some explorer stands in region `k`.
pub open spec fn occupied(explorers: Seq<Explorer>, k: RegionId) -> bool {
    exists|i: int| 0 <= i < explorers.len() && (#[trigger] explorers[i]).region == Some(k)
}

/// Region `k` borders a region of the template in which some explorer stands.
pub open spec fn bordered(regions: Map<RegionId, Region>, explorers: Seq<Explorer>, k: RegionId) -> bool {
    exists|i: int|
        0 <= i < explorers.len() && (#[trigger] explorers[i]).region.is_some()
            && regions.contains_key(explorers[i].region.unwrap())
            && regions[explorers[i].region.unwrap()].neighbors@.contains(k)
}

/// The visibility that a template region gets from the explorers' positions:
/// live where an explorer stands, partial where the region is mapped or
/// borders an explorer, hidden elsewhere.
pub open spec fn sight_for(regions: Map<RegionId, Region>, explorers: Seq<Explorer>, k: RegionId) -> RegionVisibility {
    if occupied(explorers, k) {
        RegionVisibility::Live
    } else if regions[k].mapped || bordered(regions, explorers, k) {
        RegionVisibility::Partial
    } else {
        RegionVisibility::Hidden
    }
}

/// The region shows nothing: no resources, buildings or particularities.
pub open spec fn bare(r: Region) -> bool {
    &&& r.resources == 0
    &&& r.buildings.items().len() == 0
    &&& r.particularities.items().len() == 0
}

/// `r` is `old` with its contents cleared and its visibility hidden.
pub open spec fn reset_of(r: Region, old: Region) -> bool {
    &&& bare(r)
    &&& r.buildings.cursor() == 0
    &&& r.particularities.cursor() == 0
    &&& r.sight == RegionVisibility::Hidden
    &&& r.id == old.id
    &&& r.terrain == old.terrain
    &&& r.mapped == old.mapped
    &&& r.neighbors@ == old.neighbors@
    &&& r.hex_offset_coords == old.hex_offset_coords
}

/// `view` is what recomputing the view `before` from the template regions
/// and the explorers gives: each template region that an explorer sees is
/// copied in with its visibility, every other region of `before` is reset.
pub open spec fn recomputed(
    regions: Map<RegionId, Region>,
    explorers: Seq<Explorer>,
    before: Map<RegionId, Region>,
    view: Map<RegionId, Region>,
) -> bool {
    &&& forall|k: RegionId|
        #[trigger] view.contains_key(k) <==> before.contains_key(k) || (regions.contains_key(k)
            && sight_for(regions, explorers, k) != RegionVisibility::Hidden)
    &&& forall|k: RegionId|
        #[trigger] view.contains_key(k) ==> if regions.contains_key(k) && sight_for(regions, explorers, k)
            != RegionVisibility::Hidden {
            view[k].matches(&regions[k]) && view[k].sight == sight_for(regions, explorers, k)
        } else {
            reset_of(view[k], before[k])
        }
}

/// Every region of `view` is a template region under its own id, and shows
/// nothing where it is hidden and no more than the template holds elsewhere.
pub open spec fn view_within_template(view: Map<RegionId, Region>, regions: Map<RegionId, Region>) -> bool {
    forall|k: RegionId| #[trigger] view.contains_key(k) ==> {
        &&& regions.contains_key(k)
        &&& view[k].id == k
        &&& view[k].sight == RegionVisibility::Hidden ==> bare(view[k])
        &&& view[k].sight != RegionVisibility::Hidden ==> view[k].matches(&regions[k])
    }
}

/// `after` is `before` once its view has been recomputed from the template
/// regions and the explorers: the objective is recorded (once) and the realm
/// done when every explorer has embarked, and the realm is one step older.
pub open spec fn refreshed(
    regions: Map<RegionId, Region>,
    explorers: Seq<Explorer>,
    before: Realm,
    after: Realm,
) -> bool {
    &&& recomputed(regions, explorers, before.island.regions.map(), after.island.regions.map())
    &&& after.island.regions.cursor() == before.island.regions.cursor()
    &&& after.id == before.id
    &&& after.title == before.title
    &&& after.objectives == before.objectives
    &&& after.done == (before.done || all_embarked(explorers))
    &&& all_embarked(explorers) ==> {
        &&& after.story@ == "all explorers have embarked. you can keep playing around."@
        &&& before.completed@.contains(RealmObjective::EmbarkExplorers) ==> after.completed@ == before.completed@
        &&& !before.completed@.contains(RealmObjective::EmbarkExplorers) ==> after.completed@
            == before.completed@.push(RealmObjective::EmbarkExplorers)
    }
    &&& !all_embarked(explorers) ==> {
        &&& after.story == before.story
        &&& after.completed == before.completed
    }
    &&& after.age == before.age + 1
}

/// Every explorer has a region.
pub open spec fn all_embarked(explorers: Seq<Explorer>) -> bool {
    forall|i: int| 0 <= i < explorers.len() ==> (#[trigger] explorers[i]).region.is_some()
}

/// Recomputing the view never takes a realm back from done: `done` turns
/// true exactly when every explorer has embarked, stays true from then on,
/// and a done realm has the objective of embarking all explorers completed.
pub proof fn lemma_done_once(
    regions: Map<RegionId, Region>,
    explorers: Seq<Explorer>,
    before: Realm,
    after: Realm,
)
    requires
        refreshed(regions, explorers, before, after),
        before.done ==> before.completed@.contains(RealmObjective::EmbarkExplorers),
    ensures
        before.done ==> after.done,
        !before.done ==> (after.done <==> all_embarked(explorers)),
        after.done ==> after.completed@.contains(RealmObjective::EmbarkExplorers),
{
    if after.done && !before.completed@.contains(RealmObjective::EmbarkExplorers) {
        let pushed = before.completed@.push(RealmObjective::EmbarkExplorers);
        assert(pushed[pushed.len() - 1] == RealmObjective::EmbarkExplorers);
    }
}

/// Dropping a piece of equipment and having an explorer in the same region
/// (the same one or another) pick it up again gives the region back its
/// particularities, in the template and in the view, where no such item lay
/// there before, leaves the region otherwise as it was, and leaves the two
/// inventories together holding the same items as before.
pub proof fn lemma_drop_then_pick(
    s0: RealmStrategy,
    s1: RealmStrategy,
    s2: RealmStrategy,
    region: RegionId,
    e: ExplorerId,
    e2: ExplorerId,
    item: Equipment,
)
    requires
        s0.wf(),
        s2.wf(),
        can_drop(s0, region, e, item),
        dropped(s0, s1, region, e, item),
        can_pick(s1, region, e2, item),
        picked(s1, s2, region, e2, item),
        !s0.template_map()[region].particularities.items().contains(Particularity::Item(item)),
    ensures
        s2.template_map() == s0.template_map().insert(region, s2.template_map()[region]),
        s2.template_map()[region].particularities.items() == s0.template_map()[region].particularities.items(),
        same_but_particularities(s0.template_map()[region], s2.template_map()[region]),
        s2.view_map()[region].particularities.items() == s0.view_map()[region].particularities.items(),
        e2 == e ==> s2.explorers()[e as int].inventory.items().to_multiset()
            == s0.explorers()[e as int].inventory.items().to_multiset(),
        e2 != e ==> s2.explorers()[e as int].inventory.items().to_multiset().add(
            s2.explorers()[e2 as int].inventory.items().to_multiset(),
        ) == s0.explorers()[e as int].inventory.items().to_multiset().add(
            s0.explorers()[e2 as int].inventory.items().to_multiset(),
        ),
        s2.explorers()[e2 as int].inventory.items().last() == ExplorerItem::Equipment(item),
        s2.explorers()[e as int].region == s0.explorers()[e as int].region,
{
    let lying = s0.template_map()[region].particularities.items();
    let x = ExplorerItem::Equipment(item);
    lemma_without_pushed(lying, Particularity::Item(item));
    lemma_without_first_multiset(s0.explorers()[e as int].inventory.items(), x);
    assert(s2.template_map() =~= s0.template_map().insert(region, s2.template_map()[region]));
    assert(s0.explorers()[e as int].region == Some(region));
    assert(s2.explorers()[e2 as int].region == Some(region));
    if e2 != e {
        let a0 = s0.explorers()[e as int].inventory.items();
        let b0 = s0.explorers()[e2 as int].inventory.items();
        let a2 = s2.explorers()[e as int].inventory.items();
        let b2 = s2.explorers()[e2 as int].inventory.items();
        assert(s1.explorers()[e2 as int] == s0.explorers()[e2 as int]);
        assert(s2.explorers()[e as int] == s1.explorers()[e as int]);
        assert(a2 == without_first(a0, x));
        assert(b2 == b0.push(x));
        vstd::seq_lib::to_multiset_build(b0, x);
        vstd::seq_lib::to_multiset_contains(a0, x);
        assert(a2.to_multiset().add(b2.to_multiset()) =~= a0.to_multiset().add(b0.to_multiset()));
    }
}

/// After the view is recomputed, every region it holds is a region of the
/// template under the same id, a hidden one shows no resources, buildings or
/// particularities, and any other shows exactly what the template holds.
pub proof fn lemma_refreshed_within_template(
    regions: Map<RegionId, Region>,
    explorers: Seq<Explorer>,
    before: Realm,
    after: Realm,
)
    requires
        forall|k: RegionId| #[trigger] regions.contains_key(k) ==> regions[k].id == k,
        forall|k: RegionId| #[trigger] before.island.regions.map().contains_key(k) ==> {
            &&& regions.contains_key(k)
            &&& before.island.regions.map()[k].id == k
        },
        refreshed(regions, explorers, before, after),
    ensures
        view_within_template(after.island.regions.map(), regions),
{
}

/// Moving the first explorer of a realm in which nobody has embarked and no
/// region is mapped shows its new region live, the neighbours of that region
/// partially, and every other region of the view hidden.
pub proof fn lemma_embark_then_move(s0: RealmStrategy, s1: RealmStrategy, e: ExplorerId, region: RegionId)
    requires
        s0.wf(),
        forall|i: int| 0 <= i < s0.explorers().len() ==> (#[trigger] s0.explorers()[i]).region.is_none(),
        forall|k: RegionId| #[trigger] s0.template_map().contains_key(k) ==> !s0.template_map()[k].mapped,
        can_move(s0, e, region),
        moved(s0, s1, e, region),
        !s0.template_map()[region].neighbors@.contains(region),
    ensures
        s1.view_map().contains_key(region),
        s1.view_map()[region].sight == RegionVisibility::Live,
        forall|n: RegionId|
            #[trigger] s0.template_map()[region].neighbors@.contains(n) && s0.template_map().contains_key(n)
                ==> s1.view_map().contains_key(n) && s1.view_map()[n].sight == RegionVisibility::Partial,
        forall|k: RegionId|
            #[trigger] s1.view_map().contains_key(k) && k != region && !s0.template_map()[region].neighbors@.contains(k)
                ==> s1.view_map()[k].sight == RegionVisibility::Hidden,
{
    let t = s0.template_map();
    let ex = s1.explorers();
    assert(ex[e as int].region == Some(region));
    assert(occupied(ex, region));
    assert forall|k: RegionId| #[trigger] occupied(ex, k) implies k == region by {
        let i = choose|i: int| 0 <= i < ex.len() && (#[trigger] ex[i]).region == Some(k);
        if i != e {
            assert(ex[i] == s0.explorers()[i]);
        }
    }
    assert forall|k: RegionId| #[trigger] bordered(t, ex, k) == t[region].neighbors@.contains(k) by {
        if bordered(t, ex, k) {
            let i = choose|i: int|
                0 <= i < ex.len() && (#[trigger] ex[i]).region.is_some() && t.contains_key(ex[i].region.unwrap())
                    && t[ex[i].region.unwrap()].neighbors@.contains(k);
            if i != e {
                assert(ex[i] == s0.explorers()[i]);
            }
        }
        if t[region].neighbors@.contains(k) {
            assert(ex[e as int].region.is_some());
        }
    }
    assert(sight_for(t, ex, region) == RegionVisibility::Live);
    let v = s1.view_map();
    assert(recomputed(t, ex, s0.view_map(), v));
    assert(t.contains_key(region));
    assert(v.contains_key(region));
    assert(v[region].sight == sight_for(t, ex, region));
    assert forall|n: RegionId|
        #[trigger] t[region].neighbors@.contains(n) && t.contains_key(n) implies s1.view_map().contains_key(n)
            && s1.view_map()[n].sight == RegionVisibility::Partial by {
        assert(n != region);
        assert(!occupied(ex, n));
        assert(bordered(t, ex, n));
        assert(sight_for(t, ex, n) == RegionVisibility::Partial);
        assert(v.contains_key(n));
        assert(v[n].sight == sight_for(t, ex, n));
    }
    assert forall|k: RegionId|
        #[trigger] s1.view_map().contains_key(k) && k != region && !t[region].neighbors@.contains(k)
            implies s1.view_map()[k].sight == RegionVisibility::Hidden by {
        assert(!occupied(ex, k));
        assert(!bordered(t, ex, k));
        if t.contains_key(k) {
            assert(sight_for(t, ex, k) == RegionVisibility::Hidden);
        }
    }
}

/// A hunt only succeeds on a region with resources left, and takes exactly
/// one: the count never goes below zero.
pub proof fn lemma_hunt_takes_one(before: Region, after: Region)
    requires
        acted(before, ExplorerAction::Hunt, after),
    ensures
        before.resources >= 1,
        after.resources == before.resources - 1,
{
}

impl RealmTemplate {
    pub fn new(variant: RealmVariant) -> (r: RealmTemplate)
        ensures
            variant == RealmVariant::Tutorial ==> tutorial_template(r),
    {
        match variant {
            RealmVariant::Tutorial => tutorial::template(),
        }
    }

    /// Each region is stored under its own id.
    pub open spec fn wf(&self) -> bool {
        &&& self.regions.wf()
        &&& forall|k: RegionId| #[trigger] self.regions.map().contains_key(k) ==> self.regions.map()[k].id == k
    }
}

impl RealmStrategy {
    /// The template is well formed, each region of the view is a region of
    /// the template stored under its id, every explorer that has embarked
    /// stands in a region of the template, and a done realm has its objective
    /// recorded. This holds between a change of the template or of the
    /// explorers' positions and the recomputation of the view.
    pub open spec fn wf_base(&self) -> bool {
        &&& self.template.wf()
        &&& self.realm.island.regions.wf()
        &&& forall|k: RegionId| #[trigger] self.realm.island.regions.map().contains_key(k) ==> {
            &&& self.template.regions.map().contains_key(k)
            &&& self.realm.island.regions.map()[k].id == k
        }
        &&& forall|i: int|
            0 <= i < self.explorers().len() && (#[trigger] self.explorers()[i]).region.is_some()
                ==> self.template_map().contains_key(self.explorers()[i].region.unwrap())
        &&& self.realm.done ==> self.realm.completed@.contains(RealmObjective::EmbarkExplorers)
    }

    /// `wf_base`, and the view shows each region in which an explorer stands
    /// live, as the template holds it.
    pub open spec fn wf(&self) -> bool {
        &&& self.wf_base()
        &&& forall|i: int|
            0 <= i < self.explorers().len() && (#[trigger] self.explorers()[i]).region.is_some() ==> {
                let k = self.explorers()[i].region.unwrap();
                &&& self.view_map().contains_key(k)
                &&& self.view_map()[k].matches(&self.template_map()[k])
                &&& self.view_map()[k].sight == RegionVisibility::Live
            }
    }

    pub open spec fn view_map(&self) -> Map<RegionId, Region> {
        self.realm.island.regions.map()
    }

    pub open spec fn template_map(&self) -> Map<RegionId, Region> {
        self.template.regions.map()
    }

    pub open spec fn explorers(&self) -> Seq<Explorer> {
        self.realm.expedition.explorers.items()
    }

    pub fn new(id: usize, variant: RealmVariant) -> (r: RealmStrategy)
        ensures
            r.wf(),
            r.variant == variant,
            variant == RealmVariant::Tutorial ==> tutorial_template(r.template) && starting_view(r.realm, id, r.template),
    {
        match variant {
            RealmVariant::Tutorial => tutorial::new(id),
        }
    }

    /// Recomputes the view from the template and the explorers' positions,
    /// records the objective once every explorer has embarked, and ages the realm.
    pub fn state(&mut self)
        requires
            old(self).wf_base(),
            old(self).realm.age < usize::MAX,
        ensures
            final(self).wf(),
            final(self).variant == old(self).variant,
            final(self).template == old(self).template,
            final(self).realm.expedition == old(self).realm.expedition,
            final(self).realm.id == old(self).realm.id,
            final(self).realm.title == old(self).realm.title,
            final(self).realm.objectives == old(self).realm.objectives,
            final(self).realm.island.regions.cursor() == old(self).realm.island.regions.cursor(),
            refreshed(old(self).template_map(), old(self).explorers(), old(self).realm, final(self).realm),
            view_within_template(final(self).view_map(), old(self).template_map()),
    {
        let ghost before = self.view_map();
        let ghost template = self.template_map();
        let ghost explorers = self.explorers();
        // clear what the view showed
        let len = self.realm.island.regions.len();
        let mut n: usize = 0;
        while n < len
            invariant
                self.template == old(self).template,
                self.realm.expedition == old(self).realm.expedition,
                self.realm.island.regions.wf(),
                self.realm.island.regions.cursor() == old(self).realm.island.regions.cursor(),
                len == old(self).realm.island.regions.len_spec(),
                old(self).realm.island.regions.wf(),
                self.realm.island.regions.key_seq() == old(self).realm.island.regions.key_seq(),
                n <= len,
                forall|j: int| 0 <= j < n ==> reset_of(
                    #[trigger] self.realm.island.regions.value_seq()[j],
                    old(self).realm.island.regions.value_seq()[j],
                ),
                forall|j: int| n <= j < len ==> #[trigger] self.realm.island.regions.value_seq()[j]
                    == old(self).realm.island.regions.value_seq()[j],
                self.realm.id == old(self).realm.id,
                self.realm.title == old(self).realm.title,
                self.realm.story == old(self).realm.story,
                self.realm.objectives == old(self).realm.objectives,
                self.realm.completed == old(self).realm.completed,
                self.realm.done == old(self).realm.done,
                self.realm.age == old(self).realm.age,
                self.variant == old(self).variant,
            decreases len - n,
        {
            let cleared = reset(self.realm.island.regions.nth(n).1);
            self.realm.island.regions.replace_nth(n, cleared);
            n = n + 1;
        }
        let ghost cleared = self.view_map();
        proof {
            assert forall|k: RegionId| #[trigger] cleared.contains_key(k) == before.contains_key(k) by {}
            assert forall|k: RegionId| #[trigger] cleared.contains_key(k) implies reset_of(cleared[k], before[k]) by {
                let j = self.realm.island.regions.key_seq().index_of(k);
                self.realm.island.regions.lemma_index_of(j);
                old(self).realm.island.regions.lemma_index_of(j);
            }
        }
        // copy in what the explorers see
        let count = self.template.regions.len();
        let mut n: usize = 0;
        while n < count
            invariant
                self.template == old(self).template,
                self.template.wf(),
                template == self.template_map(),
                self.realm.expedition == old(self).realm.expedition,
                explorers == self.explorers(),
                self.realm.island.regions.wf(),
                self.realm.island.regions.cursor() == old(self).realm.island.regions.cursor(),
                count == self.template.regions.len_spec(),
                n <= count,
                forall|k: RegionId| #[trigger] self.view_map().contains_key(k) <==> cleared.contains_key(k) || (
                    template.contains_key(k) && self.template.regions.key_seq().index_of(k) < n
                    && sight_for(template, explorers, k) != RegionVisibility::Hidden),
                forall|k: RegionId| #[trigger] self.view_map().contains_key(k) ==> if template.contains_key(k)
                    && self.template.regions.key_seq().index_of(k) < n && sight_for(template, explorers, k)
                    != RegionVisibility::Hidden {
                    self.view_map()[k].matches(&template[k]) && self.view_map()[k].sight == sight_for(template, explorers, k)
                } else {
                    self.view_map()[k] == cleared[k]
                },
                self.realm.id == old(self).realm.id,
                self.realm.title == old(self).realm.title,
                self.realm.story == old(self).realm.story,
                self.realm.objectives == old(self).realm.objectives,
                self.realm.completed == old(self).realm.completed,
                self.realm.done == old(self).realm.done,
                self.realm.age == old(self).realm.age,
                self.variant == old(self).variant,
            decreases count - n,
        {
            let (k, region) = self.template.regions.nth(n);
            proof {
                self.template.regions.lemma_index_of(n as int);
            }
            let sight = if is_occupied(self.realm.expedition.explorers.storage(), k) {
                RegionVisibility::Live
            } else if region.mapped || is_bordered(&self.template.regions, self.realm.expedition.explorers.storage(), k) {
                RegionVisibility::Partial
            } else {
                RegionVisibility::Hidden
            };
            let ghost view_before = self.view_map();
            if sight != RegionVisibility::Hidden {
                let seen = region.with_sight(sight);
                self.realm.island.regions.insert(k, seen);
            }
            proof {
                assert forall|key: RegionId| template.contains_key(key) implies
                    (#[trigger] self.template.regions.key_seq().index_of(key) < n + 1 <==> (
                    self.template.regions.key_seq().index_of(key) < n || key == k)) by {
                    let j = self.template.regions.key_seq().index_of(key);
                    self.template.regions.lemma_index_of(j);
                }
            }
            n = n + 1;
        }
        proof {
            assert forall|k: RegionId| template.contains_key(k) implies
                #[trigger] self.template.regions.key_seq().index_of(k) < count by {
                let j = self.template.regions.key_seq().index_of(k);
                self.template.regions.lemma_index_of(j);
            }
            assert forall|k: RegionId| #[trigger] self.view_map().contains_key(k) implies if template.contains_key(k)
                && sight_for(template, explorers, k) != RegionVisibility::Hidden {
                self.view_map()[k].matches(&template[k]) && self.view_map()[k].sight == sight_for(template, explorers, k)
            } else {
                reset_of(self.view_map()[k], before[k])
            } by {
                if template.contains_key(k) {
                    assert(self.template.regions.key_seq().index_of(k) < count);
                }
            }
        }
        // record the objective once every explorer has embarked
        let mut embarked = true;
        let mut i: usize = 0;
        while i < self.realm.expedition.explorers.storage().len()
            invariant
                explorers == self.explorers(),
                i <= explorers.len(),
                embarked == (forall|j: int| 0 <= j < i ==> (#[trigger] explorers[j]).region.is_some()),
            decreases explorers.len() - i,
        {
            if self.realm.expedition.explorers.storage()[i].region.is_none() {
                embarked = false;
            }
            i = i + 1;
        }
        if embarked {
            let mut recorded = false;
            let mut j: usize = 0;
            while j < self.realm.completed.len()
                invariant
                    j <= self.realm.completed@.len(),
                    recorded == self.realm.completed@.subrange(0, j as int).contains(RealmObjective::EmbarkExplorers),
                decreases self.realm.completed@.len() - j,
            {
                if self.realm.completed[j] == RealmObjective::EmbarkExplorers {
                    recorded = true;
                }
                proof {
                    let s = self.realm.completed@;
                    assert(s.subrange(0, j + 1) =~= s.subrange(0, j as int).push(s[j as int]));
                    assert(s.subrange(0, j + 1)[j as int] == s[j as int]);
                    if s.subrange(0, j as int).contains(RealmObjective::EmbarkExplorers) {
                        let q = s.subrange(0, j as int).index_of(RealmObjective::EmbarkExplorers);
                        assert(s.subrange(0, j + 1)[q] == RealmObjective::EmbarkExplorers);
                    }
                    if s.subrange(0, j + 1).contains(RealmObjective::EmbarkExplorers) {
                        let q = s.subrange(0, j + 1).index_of(RealmObjective::EmbarkExplorers);
                        if q < j {
                            assert(s.subrange(0, j as int)[q] == RealmObjective::EmbarkExplorers);
                        }
                    }
                }
                j = j + 1;
            }
            assert(self.realm.completed@.subrange(0, self.realm.completed@.len() as int) =~= self.realm.completed@);
            if !recorded {
                self.realm.completed.push(RealmObjective::EmbarkExplorers);
                assert(self.realm.completed@.last() == RealmObjective::EmbarkExplorers);
            }
            self.realm.story = "all explorers have embarked. you can keep playing around.".to_string();
            self.realm.done = true;
        }
        self.realm.age = self.realm.age + 1;
        proof {
            assert forall|i: int|
                0 <= i < self.explorers().len() && (#[trigger] self.explorers()[i]).region.is_some() implies {
                let k = self.explorers()[i].region.unwrap();
                &&& self.view_map().contains_key(k)
                &&& self.view_map()[k].matches(&self.template_map()[k])
                &&& self.view_map()[k].sight == RegionVisibility::Live
            } by {
                let k = explorers[i].region.unwrap();
                assert(occupied(explorers, k));
                assert(template.contains_key(k));
                assert(sight_for(template, explorers, k) == RegionVisibility::Live);
                assert(self.view_map().contains_key(k));
            }
        }
    }

    /// Moves an explorer to a region of the template and recomputes the view.
    /// Nothing changes, and the result is false, where the explorer or the
    /// region is unknown or the variant's rules refuse the move.
    pub fn move_explorer(&mut self, explorer: ExplorerId, region: RegionId) -> (r: bool)
        requires
            old(self).wf(),
            old(self).realm.age < usize::MAX,
        ensures
            r == can_move(*old(self), explorer, region),
            !r ==> *final(self) == *old(self),
            r ==> moved(*old(self), *final(self), explorer, region),
            final(self).wf(),
    {
        if self.explorer(explorer).is_none() || self.template.regions.get(region).is_none() || !self.valid_move(
            explorer,
            region,
        ) {
            return false;
        }
        let explorers = self.realm.expedition.explorers.storage_mut();
        explorers[explorer].region = Some(region);
        self.state();
        true
    }

    /// Takes an action in the region where the explorer stands, on the
    /// template, and recomputes the view. Building adds a house, mapping marks
    /// the region as mapped, hunting takes one resource, sailing and waiting
    /// change nothing. Nothing changes, and the result is false, where the
    /// explorer or region is unknown, the explorer is elsewhere, the variant's
    /// rules refuse the action, or a hunt finds no resources left.
    pub fn act(&mut self, explorer: ExplorerId, region: RegionId, action: ExplorerAction) -> (r: bool)
        requires
            old(self).wf(),
            old(self).realm.age < usize::MAX,
        ensures
            r == can_act(*old(self), explorer, region, action),
            !r ==> *final(self) == *old(self),
            r ==> acted_on(*old(self), *final(self), region, action),
            final(self).wf(),
    {
        if self.region_explorer(region, explorer).is_none() || !self.valid_action(explorer, region, &action) {
            return false;
        }
        let mut target = match self.template.regions.get(region) {
            Some(found) => found.clone(),
            None => {
                return false;
            },
        };
        match action {
            ExplorerAction::Build => {
                let ghost built = target.buildings.items();
                target.buildings.insert("\u{2302}".to_string());
                assert(target.buildings.items().drop_last() =~= built);
            },
            ExplorerAction::Chart => {
                target.mapped = true;
            },
            ExplorerAction::Hunt => {
                if target.resources > 0 {
                    target.resources = target.resources - 1;
                } else {
                    return false;
                }
            },
            ExplorerAction::Sail => {},
            ExplorerAction::Wait => {},
        }
        self.template.regions.insert(region, target);
        self.state();
        true
    }

    /// Moves a piece of equipment from the explorer's inventory into the
    /// region where it stands, and recomputes the view. Nothing changes, and
    /// the result is false, where the explorer or region is unknown, the
    /// explorer is elsewhere, or it does not carry the equipment.
    pub fn drop_equipment(&mut self, region: RegionId, explorer: ExplorerId, item: Equipment) -> (r: bool)
        requires
            old(self).wf(),
            old(self).realm.age < usize::MAX,
        ensures
            r == can_drop(*old(self), region, explorer, item),
            !r ==> *final(self) == *old(self),
            r ==> dropped(*old(self), *final(self), region, explorer, item),
            final(self).wf(),
    {
        if self.region_explorer(region, explorer).is_none() {
            return false;
        }
        let wanted = ExplorerItem::Equipment(item);
        let position = match find_item(self.realm.expedition.explorers.storage()[explorer].inventory.storage(), &wanted) {
            Some(p) => p,
            None => {
                return false;
            },
        };
        let mut target = match self.template.regions.get(region) {
            Some(found) => found.clone(),
            None => {
                return false;
            },
        };
        target.particularities.insert(Particularity::Item(item));
        self.template.regions.insert(region, target);
        let ghost items = self.explorers()[explorer as int].inventory.items();
        proof {
            lemma_without_first(items, wanted, position as int);
        }
        let explorers = self.realm.expedition.explorers.storage_mut();
        explorers[explorer].inventory.storage_mut().remove(position);
        self.state();
        true
    }

    /// Moves a piece of equipment lying in the explorer's region into its
    /// inventory, and recomputes the view. Nothing changes, and the result is
    /// false, where the explorer or region is unknown, the explorer is
    /// elsewhere, or the equipment does not lie there.
    pub fn pick_equipment(&mut self, region: RegionId, explorer: ExplorerId, item: Equipment) -> (r: bool)
        requires
            old(self).wf(),
            old(self).realm.age < usize::MAX,
        ensures
            r == can_pick(*old(self), region, explorer, item),
            !r ==> *final(self) == *old(self),
            r ==> picked(*old(self), *final(self), region, explorer, item),
            final(self).wf(),
    {
        if self.region_explorer(region, explorer).is_none() {
            return false;
        }
        let wanted = Particularity::Item(item);
        let mut target = match self.template.regions.get(region) {
            Some(found) => found.clone(),
            None => {
                return false;
            },
        };
        let position = match find_particularity(target.particularities.storage(), wanted) {
            Some(p) => p,
            None => {
                return false;
            },
        };
        proof {
            lemma_without_first(target.particularities.items(), wanted, position as int);
        }
        target.particularities.storage_mut().remove(position);
        self.template.regions.insert(region, target);
        let explorers = self.realm.expedition.explorers.storage_mut();
        explorers[explorer].inventory.insert(ExplorerItem::Equipment(item));
        self.state();
        true
    }

    /// The explorer notes a particularity of the region where it stands in
    /// its inventory. Nothing changes, and the result is false, where the
    /// explorer or region is unknown, the explorer is elsewhere, or the region
    /// has no such particularity.
    pub fn investigate_particularity(&mut self, region: RegionId, explorer: ExplorerId, particularity: Particularity) -> (r: bool)
        requires
            old(self).wf(),
        ensures
            r == can_investigate(*old(self), region, explorer, particularity),
            !r ==> *final(self) == *old(self),
            r ==> investigated(*old(self), *final(self), region, explorer, particularity),
            final(self).wf(),
    {
        if self.region_explorer(region, explorer).is_none() {
            return false;
        }
        match self.template.regions.get(region) {
            Some(found) => {
                if find_particularity(found.particularities.storage(), particularity).is_none() {
                    return false;
                }
            },
            None => {
                return false;
            },
        }
        let explorers = self.realm.expedition.explorers.storage_mut();
        explorers[explorer].inventory.insert(ExplorerItem::Particularity(region, particularity));
        true
    }

    /// The explorer forgets a particularity it noted in the region where it
    /// stands. Nothing changes, and the result is false, where the explorer
    /// is unknown, stands elsewhere, or has no such note.
    pub fn forget_particularity(&mut self, region: RegionId, explorer: ExplorerId, particularity: Particularity) -> (r: bool)
        requires
            old(self).wf(),
        ensures
            r == can_forget(*old(self), region, explorer, particularity),
            !r ==> *final(self) == *old(self),
            r ==> forgot(*old(self), *final(self), region, explorer, particularity),
            final(self).wf(),
    {
        if self.region_explorer(region, explorer).is_none() {
            return false;
        }
        let wanted = ExplorerItem::Particularity(region, particularity);
        let position = match find_item(self.realm.expedition.explorers.storage()[explorer].inventory.storage(), &wanted) {
            Some(p) => p,
            None => {
                return false;
            },
        };
        let ghost items = self.explorers()[explorer as int].inventory.items();
        proof {
            lemma_without_first(items, wanted, position as int);
        }
        let explorers = self.realm.expedition.explorers.storage_mut();
        explorers[explorer].inventory.storage_mut().remove(position);
        true
    }

    /// Whether an explorer may move to a region.
    pub fn valid_move(&self, _explorer: ExplorerId, _region: RegionId) -> (r: bool)
        ensures
            r == move_allowed(self.variant, _explorer, _region),
    {
        match self.variant {
            RealmVariant::Tutorial => true,
        }
    }

    /// Whether an explorer may take an action in a region.
    pub fn valid_action(&self, _explorer: ExplorerId, _region: RegionId, _action: &ExplorerAction) -> (r: bool)
        ensures
            r == action_allowed(self.variant, _explorer, _region, *_action),
    {
        match self.variant {
            RealmVariant::Tutorial => true,
        }
    }
}

/// The variant's rule on moves: the tutorial allows every move.
pub open spec fn move_allowed(variant: RealmVariant, explorer: ExplorerId, region: RegionId) -> bool {
    match variant {
        RealmVariant::Tutorial => true,
    }
}

/// The variant's rule on actions: the tutorial allows every action.
pub open spec fn action_allowed(variant: RealmVariant, explorer: ExplorerId, region: RegionId, action: ExplorerAction) -> bool {
    match variant {
        RealmVariant::Tutorial => true,
    }
}

/// Explorer `e` can move to `region`: both exist and the rules allow it.
pub open spec fn can_move(s: RealmStrategy, e: ExplorerId, region: RegionId) -> bool {
    e < s.explorers().len() && s.template_map().contains_key(region) && move_allowed(s.variant, e, region)
}

/// `after` is `before` once explorer `e` has moved to `region` and the view
/// has been recomputed.
pub open spec fn moved(before: RealmStrategy, after: RealmStrategy, e: ExplorerId, region: RegionId) -> bool {
    &&& after.variant == before.variant
    &&& after.template == before.template
    &&& after.explorers() == before.explorers().update(
        e as int,
        Explorer { region: Some(region), ..before.explorers()[e as int] },
    )
    &&& refreshed(before.template_map(), after.explorers(), before.realm, after.realm)
    &&& view_within_template(after.view_map(), after.template_map())
}

/// Explorer `e` can take `action` in `region`: it stands there, the rules
/// allow it, and a hunt finds resources left.
pub open spec fn can_act(s: RealmStrategy, e: ExplorerId, region: RegionId, action: ExplorerAction) -> bool {
    &&& present(s.explorers(), e, region)
    &&& s.template_map().contains_key(region)
    &&& action_allowed(s.variant, e, region, action)
    &&& action == ExplorerAction::Hunt ==> s.template_map()[region].resources > 0
}

/// `after` is `before` once `action` has been taken in `region` of the
/// template and the view has been recomputed.
pub open spec fn acted_on(before: RealmStrategy, after: RealmStrategy, region: RegionId, action: ExplorerAction) -> bool {
    &&& after.variant == before.variant
    &&& after.realm.expedition == before.realm.expedition
    &&& after.template.explorers == before.template.explorers
    &&& after.template_map() == before.template_map().insert(region, after.template_map()[region])
    &&& acted(before.template_map()[region], action, after.template_map()[region])
    &&& refreshed(after.template_map(), before.explorers(), before.realm, after.realm)
    &&& view_within_template(after.view_map(), after.template_map())
}

/// Explorer `e` stands in `region` and carries `item`.
pub open spec fn can_drop(s: RealmStrategy, region: RegionId, e: ExplorerId, item: Equipment) -> bool {
    &&& present(s.explorers(), e, region)
    &&& s.template_map().contains_key(region)
    &&& s.explorers()[e as int].inventory.items().contains(ExplorerItem::Equipment(item))
}

/// `after` is `before` once explorer `e` has left `item` in `region` and the
/// view has been recomputed.
pub open spec fn dropped(before: RealmStrategy, after: RealmStrategy, region: RegionId, e: ExplorerId, item: Equipment) -> bool {
    &&& after.variant == before.variant
    &&& after.template.explorers == before.template.explorers
    &&& after.template_map() == before.template_map().insert(region, after.template_map()[region])
    &&& after.template_map()[region].particularities.items() == before.template_map()[region].particularities.items().push(
        Particularity::Item(item),
    )
    &&& same_but_particularities(before.template_map()[region], after.template_map()[region])
    &&& inventory_changed(
        before.explorers(),
        after.explorers(),
        e as int,
        without_first(before.explorers()[e as int].inventory.items(), ExplorerItem::Equipment(item)),
    )
    &&& refreshed(after.template_map(), after.explorers(), before.realm, after.realm)
    &&& view_within_template(after.view_map(), after.template_map())
}

/// Explorer `e` stands in `region`, where `item` lies.
pub open spec fn can_pick(s: RealmStrategy, region: RegionId, e: ExplorerId, item: Equipment) -> bool {
    &&& present(s.explorers(), e, region)
    &&& s.template_map().contains_key(region)
    &&& s.template_map()[region].particularities.items().contains(Particularity::Item(item))
}

/// `after` is `before` once explorer `e` has taken `item` from `region` and
/// the view has been recomputed.
pub open spec fn picked(before: RealmStrategy, after: RealmStrategy, region: RegionId, e: ExplorerId, item: Equipment) -> bool {
    &&& after.variant == before.variant
    &&& after.template.explorers == before.template.explorers
    &&& after.template_map() == before.template_map().insert(region, after.template_map()[region])
    &&& after.template_map()[region].particularities.items() == without_first(
        before.template_map()[region].particularities.items(),
        Particularity::Item(item),
    )
    &&& same_but_particularities(before.template_map()[region], after.template_map()[region])
    &&& inventory_changed(
        before.explorers(),
        after.explorers(),
        e as int,
        before.explorers()[e as int].inventory.items().push(ExplorerItem::Equipment(item)),
    )
    &&& refreshed(after.template_map(), after.explorers(), before.realm, after.realm)
    &&& view_within_template(after.view_map(), after.template_map())
}

/// Explorer `e` stands in `region`, which has `particularity`.
pub open spec fn can_investigate(s: RealmStrategy, region: RegionId, e: ExplorerId, particularity: Particularity) -> bool {
    &&& present(s.explorers(), e, region)
    &&& s.template_map().contains_key(region)
    &&& s.template_map()[region].particularities.items().contains(particularity)
}

/// `after` is `before` with a note of `particularity` in `region` added to the
/// inventory of explorer `e`; nothing else changes.
pub open spec fn investigated(before: RealmStrategy, after: RealmStrategy, region: RegionId, e: ExplorerId, particularity: Particularity) -> bool {
    &&& after.variant == before.variant
    &&& after.template == before.template
    &&& after.realm.island == before.realm.island
    &&& after.realm.done == before.realm.done
    &&& after.realm.age == before.realm.age
    &&& inventory_changed(
        before.explorers(),
        after.explorers(),
        e as int,
        before.explorers()[e as int].inventory.items().push(ExplorerItem::Particularity(region, particularity)),
    )
}

/// Explorer `e` stands in `region` and holds a note of `particularity` there.
pub open spec fn can_forget(s: RealmStrategy, region: RegionId, e: ExplorerId, particularity: Particularity) -> bool {
    &&& present(s.explorers(), e, region)
    &&& s.explorers()[e as int].inventory.items().contains(ExplorerItem::Particularity(region, particularity))
}

/// `after` is `before` without the first note of `particularity` in `region`
/// in the inventory of explorer `e`; nothing else changes.
pub open spec fn forgot(before: RealmStrategy, after: RealmStrategy, region: RegionId, e: ExplorerId, particularity: Particularity) -> bool {
    &&& after.variant == before.variant
    &&& after.template == before.template
    &&& after.realm.island == before.realm.island
    &&& after.realm.done == before.realm.done
    &&& after.realm.age == before.realm.age
    &&& inventory_changed(
        before.explorers(),
        after.explorers(),
        e as int,
        without_first(before.explorers()[e as int].inventory.items(), ExplorerItem::Particularity(region, particularity)),
    )
}

/// Explorer `e` exists and stands in region `k`.
pub open spec fn present(explorers: Seq<Explorer>, e: ExplorerId, k: RegionId) -> bool {
    e < explorers.len() && explorers[e as int].region == Some(k)
}

/// Equal in every field but the particularities, whose cursor is kept.
pub open spec fn same_but_particularities(before: Region, after: Region) -> bool {
    &&& after.id == before.id
    &&& after.terrain == before.terrain
    &&& after.particularities.cursor() == before.particularities.cursor()
    &&& after.buildings.same_as(&before.buildings)
    &&& after.mapped == before.mapped
    &&& after.resources == before.resources
    &&& after.sight == before.sight
    &&& after.neighbors@ == before.neighbors@
    &&& after.hex_offset_coords == before.hex_offset_coords
}

/// What an action does to the region it is taken in.
pub open spec fn acted(before: Region, action: ExplorerAction, after: Region) -> bool {
    &&& after.id == before.id
    &&& after.terrain == before.terrain
    &&& after.particularities.same_as(&before.particularities)
    &&& after.sight == before.sight
    &&& after.neighbors@ == before.neighbors@
    &&& after.hex_offset_coords == before.hex_offset_coords
    &&& after.buildings.cursor() == before.buildings.cursor()
    &&& if action == ExplorerAction::Build {
        &&& after.buildings.items().len() == before.buildings.items().len() + 1
        &&& after.buildings.items().drop_last() == before.buildings.items()
        &&& after.buildings.items().last()@ == "\u{2302}"@
    } else {
        after.buildings.items() == before.buildings.items()
    }
    &&& after.mapped == (before.mapped || action == ExplorerAction::Chart)
    &&& after.resources == if action == ExplorerAction::Hunt {
        before.resources - 1
    } else {
        before.resources as int
    }
}

/// `after` is `before` with the inventory of explorer `e` now holding `items`.
pub open spec fn inventory_changed(before: Seq<Explorer>, after: Seq<Explorer>, e: int, items: Seq<ExplorerItem>) -> bool {
    &&& after.len() == before.len()
    &&& forall|j: int| 0 <= j < before.len() && j != e ==> #[trigger] after[j] == before[j]
    &&& after[e].id == before[e].id
    &&& after[e].traits == before[e].traits
    &&& after[e].region == before[e].region
    &&& after[e].inventory.items() == items
    &&& after[e].inventory.cursor() == before[e].inventory.cursor()
}

/// The first position of `wanted` in `items`.
fn find_item(items: &Vec<ExplorerItem>, wanted: &ExplorerItem) -> (r: Option<usize>)
    requires
        !(wanted is Message),
    ensures
        r.is_none() ==> !items@.contains(*wanted),
        r.is_some() ==> r.unwrap() < items@.len() && items@[r.unwrap() as int] == *wanted
            && forall|j: int| 0 <= j < r.unwrap() ==> items@[j] != *wanted,
{
    let mut i: usize = 0;
    while i < items.len()
        invariant
            !(wanted is Message),
            i <= items@.len(),
            forall|j: int| 0 <= j < i ==> items@[j] != *wanted,
        decreases items@.len() - i,
    {
        let found = match (&items[i], wanted) {
            (ExplorerItem::Equipment(a), ExplorerItem::Equipment(b)) => *a == *b,
            (ExplorerItem::Particularity(ra, a), ExplorerItem::Particularity(rb, b)) => *ra == *rb && *a == *b,
            _ => false,
        };
        if found {
            return Some(i);
        }
        i = i + 1;
    }
    None
}

/// The first position of `wanted` in `items`.
fn find_particularity(items: &Vec<Particularity>, wanted: Particularity) -> (r: Option<usize>)
    ensures
        r.is_none() ==> !items@.contains(wanted),
        r.is_some() ==> r.unwrap() < items@.len() && items@[r.unwrap() as int] == wanted
            && forall|j: int| 0 <= j < r.unwrap() ==> items@[j] != wanted,
{
    let mut i: usize = 0;
    while i < items.len()
        invariant
            i <= items@.len(),
            forall|j: int| 0 <= j < i ==> items@[j] != wanted,
        decreases items@.len() - i,
    {
        if items[i] == wanted {
            return Some(i);
        }
        i = i + 1;
    }
    None
}

impl LazyRealmAccess for RealmStrategy {
    open spec fn shown_regions(&self) -> Map<RegionId, Region> {
        self.view_map()
    }

    open spec fn members(&self) -> Seq<Explorer> {
        self.explorers()
    }

    open spec fn consistent(&self) -> bool {
        self.wf()
    }

    fn region(&self, region: RegionId) -> (r: Option<&Region>) {
        self.realm.island.regions.get(region)
    }

    fn region_explorer(&self, region: RegionId, explorer: ExplorerId) -> (r: Option<&Explorer>) {
        match self.explorer(explorer) {
            Some(found) => if found.region == Some(region) {
                Some(found)
            } else {
                None
            },
            None => None,
        }
    }

    fn explorer_region(&self, explorer: ExplorerId) -> (r: Option<&Region>) {
        match self.explorer(explorer) {
            Some(found) => match found.region {
                Some(at) => self.region(at),
                None => None,
            },
            None => None,
        }
    }

    fn explorer(&self, explorer: ExplorerId) -> (r: Option<&Explorer>) {
        let explorers = self.realm.expedition.explorers.storage();
        if explorer < explorers.len() {
            Some(&explorers[explorer])
        } else {
            None
        }
    }
}

/// Whether some explorer stands in region `k`.
fn is_occupied(explorers: &Vec<Explorer>, k: RegionId) -> (r: bool)
    ensures
        r == occupied(explorers@, k),
{
    let mut i: usize = 0;
    while i < explorers.len()
        invariant
            i <= explorers@.len(),
            forall|j: int| 0 <= j < i ==> (#[trigger] explorers@[j]).region != Some(k),
        decreases explorers@.len() - i,
    {
        if explorers[i].region == Some(k) {
            return true;
        }
        i = i + 1;
    }
    false
}

/// Whether region `k` borders a template region in which some explorer stands.
fn is_bordered(regions: &SelectionHashMap<Region>, explorers: &Vec<Explorer>, k: RegionId) -> (r: bool)
    requires
        regions.wf(),
    ensures
        r == bordered(regions.map(), explorers@, k),
{
    let mut i: usize = 0;
    while i < explorers.len()
        invariant
            regions.wf(),
            i <= explorers@.len(),
            forall|j: int|
                0 <= j < i ==> !((#[trigger] explorers@[j]).region.is_some() && regions.map().contains_key(
                    explorers@[j].region.unwrap(),
                ) && regions.map()[explorers@[j].region.unwrap()].neighbors@.contains(k)),
        decreases explorers@.len() - i,
    {
        if let Some(at) = explorers[i].region {
            if let Some(region) = regions.get(at) {
                let mut n: usize = 0;
                while n < region.neighbors.len()
                    invariant
                        i < explorers@.len(),
                        explorers@[i as int].region == Some(at),
                        regions.map().contains_key(at),
                        *region == regions.map()[at],
                        n <= region.neighbors@.len(),
                        forall|m: int| 0 <= m < n ==> region.neighbors@[m] != k,
                    decreases region.neighbors@.len() - n,
                {
                    if region.neighbors[n] == k {
                        assert(regions.map()[at].neighbors@.contains(k));
                        assert(explorers@[i as int].region == Some(at));
                        return true;
                    }
                    n = n + 1;
                }
            }
        }
        i = i + 1;
    }
    false
}

/// A copy of `region` with its contents cleared and its visibility hidden.
fn reset(region: &Region) -> (r: Region)
    ensures
        reset_of(r, *region),
{
    let mut r = region.clone();
    r.resources = 0;
    r.buildings = SelectionStorage::new();
    r.particularities = SelectionStorage::new();
    r.sight = RegionVisibility::Hidden;
    r
}

} // verus!
