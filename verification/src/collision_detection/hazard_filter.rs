//! Which hazards a query may pass over.

use vstd::prelude::*;
use crate::collision_detection::hazard::{hazard_views, Hazard, HazardView};
use crate::collision_detection::hazard_entity::HazardEntity;
use crate::collision_detection::hp_cell::contains_entity;

verus! {

/// Tells of each hazard, by the entity it stands for, whether a query may pass over
/// it.
pub trait HazardFilter {
    /// The filter passes over the hazard that `entity` stands for.
    spec fn spec_is_irrelevant(&self, entity: HazardEntity) -> bool;

    /// Tells whether the filter passes over the hazard that `entity` stands for.
    fn is_irrelevant(&self, entity: &HazardEntity) -> (r: bool)
        ensures
            r == self.spec_is_irrelevant(*entity),
    ;
}

/// Passes over the quality zones that an item is good enough for: those of a class at
/// or above the cutoff. Every other hazard stays relevant.
#[derive(Clone, Copy, Debug, PartialEq, Eq, Hash, Structural)]
pub struct QZHazardFilter {
    pub cutoff_quality: usize,
}

impl HazardFilter for QZHazardFilter {
    open spec fn spec_is_irrelevant(&self, entity: HazardEntity) -> bool {
        entity matches HazardEntity::QualityZoneInferior { quality, .. } && quality
            >= self.cutoff_quality
    }

    fn is_irrelevant(&self, entity: &HazardEntity) -> (r: bool) {
        match entity {
            HazardEntity::QualityZoneInferior { quality, .. } => *quality >= self.cutoff_quality,
            _ => false,
        }
    }
}

/// Passes over everything that belongs to the bin: its outer border, its holes and its
/// quality zones. Placed items stay relevant.
#[derive(Clone, Copy, Debug, PartialEq, Eq, Hash, Structural)]
pub struct BinHazardFilter;

impl HazardFilter for BinHazardFilter {
    open spec fn spec_is_irrelevant(&self, entity: HazardEntity) -> bool {
        !entity.spec_dynamic()
    }

    fn is_irrelevant(&self, entity: &HazardEntity) -> (r: bool) {
        !entity.dynamic()
    }
}

/// Passes over the entities that it lists: an item that is moved lists its own
/// placement. Every other hazard stays relevant.
#[derive(Debug)]
pub struct EntityHazardFilter {
    pub entities: Vec<HazardEntity>,
}

impl Clone for EntityHazardFilter {
    /// A copy that lists the same entities.
    fn clone(&self) -> (r: EntityHazardFilter)
        ensures
            r.entities@ == self.entities@,
    {
        EntityHazardFilter { entities: self.entities.clone() }
    }
}

impl HazardFilter for EntityHazardFilter {
    open spec fn spec_is_irrelevant(&self, entity: HazardEntity) -> bool {
        self.entities@.contains(entity)
    }

    fn is_irrelevant(&self, entity: &HazardEntity) -> (r: bool) {
        contains_entity(self.entities.as_slice(), entity)
    }
}

/// The entities of those among the first `k` hazards that the filter passes over, in
/// the order of the hazards.
pub open spec fn irrelevant_entities<F: HazardFilter>(
    filter: F,
    hazards: Seq<HazardView>,
    k: int,
) -> Seq<HazardEntity>
    decreases k,
{
    if k <= 0 {
        Seq::empty()
    } else {
        let rest = irrelevant_entities(filter, hazards, k - 1);
        if filter.spec_is_irrelevant(hazards[k - 1].entity) {
            rest.push(hazards[k - 1].entity)
        } else {
            rest
        }
    }
}

/// The entities of the hazards that the filter passes over.
pub fn get_irrelevant_hazard_entities<F: HazardFilter>(filter: &F, hazards: &[Hazard]) -> (r: Vec<
    HazardEntity,
>)
    ensures
        r@ == irrelevant_entities(*filter, hazard_views(hazards@), hazards@.len() as int),
{
    let mut entities: Vec<HazardEntity> = Vec::new();
    let mut i: usize = 0;
    while i < hazards.len()
        invariant
            0 <= i <= hazards@.len(),
            entities@ == irrelevant_entities(*filter, hazard_views(hazards@), i as int),
        decreases hazards@.len() - i,
    {
        assert(hazard_views(hazards@)[i as int] == hazards@[i as int]@);
        let entity: &HazardEntity = hazards[i].entity();
        if filter.is_irrelevant(entity) {
            entities.push(*entity);
        }
        i += 1;
    }
    entities
}

/// An entity is passed over exactly where it is that of a hazard that the filter
/// passes over.
pub proof fn lemma_irrelevant_entities<F: HazardFilter>(
    filter: F,
    hazards: Seq<HazardView>,
    k: int,
    entity: HazardEntity,
)
    requires
        0 <= k <= hazards.len(),
    ensures
        irrelevant_entities(filter, hazards, k).contains(entity) <==> (filter.spec_is_irrelevant(
            entity,
        ) && exists|i: int| 0 <= i < k && (#[trigger] hazards[i]).entity == entity),
    decreases k,
{
    if k > 0 {
        lemma_irrelevant_entities(filter, hazards, k - 1, entity);
        let rest = irrelevant_entities(filter, hazards, k - 1);
        let all = irrelevant_entities(filter, hazards, k);
        if filter.spec_is_irrelevant(hazards[k - 1].entity) {
            assert(all == rest.push(hazards[k - 1].entity));
            if all.contains(entity) {
                let a = choose|a: int| 0 <= a < all.len() && all[a] == entity;
                if a < rest.len() {
                    assert(rest[a] == entity);
                }
            }
            if rest.contains(entity) {
                let a = choose|a: int| 0 <= a < rest.len() && rest[a] == entity;
                assert(all[a] == entity);
            }
            if hazards[k - 1].entity == entity {
                assert(all[rest.len() as int] == entity);
            }
        }
        if filter.spec_is_irrelevant(entity) && exists|i: int|
            0 <= i < k && (#[trigger] hazards[i]).entity == entity {
            let i = choose|i: int| 0 <= i < k && (#[trigger] hazards[i]).entity == entity;
            if i < k - 1 {
                assert(hazards[i].entity == entity);
            }
        }
    }
}

} // verus!
