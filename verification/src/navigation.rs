//! Grid, structures and flow field, kept in step with each other.
use vstd::prelude::*;
use crate::building::{
    distinct_ids, has_id, index_of, lookup, removed, with_health, Building, BuildingRegistry,
    BuildingType, PlacementError,
};
use crate::coords::cell_of;
use crate::direction::Direction;
use crate::enemy::clamped;
use crate::flow::flow_field;
use crate::grid::{
    empty_field, field_wf, lemma_match_by_footprints, lemma_place_all_matches,
    lemma_place_keeps_match, lemma_remove_keeps_match, occupancy_matches, place_all,
    placement_error, same_footprints, with_building, without_building, without_directions,
    GridMap, GridSpace,
};
use crate::nearest::{lemma_flow_field_by_footprints, lemma_rebuild_is_identical};

verus! {

/// The structure that a new battlefield begins with.
pub open spec fn main_building() -> Building {
    Building {
        building_type: BuildingType::Sentry,
        bottom_left: (134, 131),
        width: 18,
        height: 12,
        max_health: 1_000_000,
        health: 1_000_000,
    }
}

/// What the navigation holds: the cells, whether the flow field counts as
/// built, and the structures in the order in which they were placed.
pub struct Terrain {
    pub field: Seq<Seq<GridSpace>>,
    pub built: bool,
    pub structures: Seq<(u32, Building)>,
}

impl Terrain {
    /// Whether cells, flag and structures fit together: the occupied cells
    /// are the footprints of the structures, no identifier occurs twice, a
    /// field that counts as built is the flow field, and one that does not
    /// holds no direction.
    pub open spec fn wf(self) -> bool {
        &&& field_wf(self.field)
        &&& distinct_ids(self.structures)
        &&& occupancy_matches(self.field, self.structures)
        &&& self.built ==> self.field == flow_field(self.field, self.structures)
        &&& !self.built ==> self.field == without_directions(self.field)
    }

    /// Why `building` cannot be placed under `id`, if it cannot.
    pub open spec fn refusal(self, id: u32, building: Building) -> Option<PlacementError> {
        if has_id(self.structures, id) {
            Some(PlacementError::DuplicateId)
        } else {
            placement_error(self.field, building)
        }
    }

    /// The terrain with `building` placed under `id`.
    pub open spec fn placed(self, id: u32, building: Building) -> Terrain {
        Terrain {
            field: with_building(without_directions(self.field), id, building),
            built: false,
            structures: self.structures.push((id, building)),
        }
    }

    /// The terrain without the structure under `id`.
    pub open spec fn cleared(self, id: u32) -> Terrain {
        if has_id(self.structures, id) {
            Terrain {
                field: without_building(without_directions(self.field), id),
                built: false,
                structures: removed(self.structures, id),
            }
        } else {
            self
        }
    }

    /// The terrain with the flow field built, if it was not.
    pub open spec fn readied(self) -> Terrain {
        if self.built {
            self
        } else {
            Terrain { field: flow_field(self.field, self.structures), built: true, ..self }
        }
    }

    /// The terrain after the structure under `id` has lost `amount` of
    /// health.  A structure whose health falls to nothing or below leaves.
    pub open spec fn struck(self, id: u32, amount: i64) -> Terrain {
        match lookup(self.structures, id) {
            None => self,
            Some(building) => {
                let health = clamped(building.health - amount) as i64;
                if health <= 0 {
                    self.cleared(id)
                } else {
                    Terrain { structures: with_health(self.structures, id, health), ..self }
                }
            },
        }
    }

    /// The cell that world position `position` falls into.
    pub open spec fn space_at(self, position: (i64, i64)) -> GridSpace {
        self.field[cell_of(position.0 as int)][cell_of(position.1 as int)]
    }
}

/// Grid, structures and flow field.
pub struct Navigation {
    map: GridMap,
    path_built: bool,
    buildings: BuildingRegistry,
}

impl View for Navigation {
    type V = Terrain;

    closed spec fn view(&self) -> Terrain {
        Terrain { field: self.map@, built: self.path_built, structures: self.buildings@ }
    }
}

impl Navigation {
    /// The invariant.
    pub open spec fn wf(&self) -> bool {
        self@.wf()
    }

    /// The navigation of a new battlefield: the main structure stands under
    /// identifier 0, and the flow field is not built.
    pub fn new() -> (navigation: Navigation)
        ensures
            navigation.wf(),
            navigation@ == (Terrain {
                field: with_building(empty_field(), 0, main_building()),
                built: false,
                structures: seq![(0u32, main_building())],
            }),
    {
        let main = Building {
            building_type: BuildingType::Sentry,
            bottom_left: (134, 131),
            width: 18,
            height: 12,
            max_health: 1_000_000,
            health: 1_000_000,
        };
        let mut buildings = BuildingRegistry::new();
        buildings.insert(0, main);
        proof {
            let entries = seq![(0u32, main)];
            assert(buildings@ =~= entries);
            assert(entries.drop_last() =~= Seq::<(u32, Building)>::empty());
            assert(place_all(entries.drop_last()) == Ok::<_, PlacementError>(empty_field()));
            assert(placement_error(empty_field(), main) is None);
            assert(place_all(entries) == Ok::<_, PlacementError>(
                with_building(empty_field(), 0, main),
            ));
            lemma_place_all_matches(entries);
        }
        let map = GridMap::new(&buildings).unwrap();
        Navigation { map, path_built: false, buildings }
    }

    /// The grid.
    pub fn map(&self) -> (map: &GridMap)
        ensures
            map@ == self@.field,
    {
        &self.map
    }

    /// The structures.
    pub fn buildings(&self) -> (buildings: &BuildingRegistry)
        ensures
            buildings@ == self@.structures,
    {
        &self.buildings
    }

    /// Whether the flow field counts as built.
    pub fn path_built(&self) -> (built: bool)
        ensures
            built == self@.built,
    {
        self.path_built
    }

    /// Places `building` under `building_id`.  The flow field no longer
    /// counts as built.  A structure whose identifier is taken, whose
    /// footprint reaches outside the grid or covers an occupied cell is
    /// refused, and nothing changes.
    pub fn add_building(&mut self, building_id: u32, building: Building) -> (placed: Result<
        (),
        PlacementError,
    >)
        requires
            old(self).wf(),
        ensures
            final(self).wf(),
            match placed {
                Ok(()) => {
                    &&& old(self)@.refusal(building_id, building) is None
                    &&& final(self)@ == old(self)@.placed(building_id, building)
                },
                Err(error) => {
                    &&& old(self)@.refusal(building_id, building) == Some(error)
                    &&& final(self)@ == old(self)@
                },
            },
    {
        if self.buildings.position(building_id).is_some() {
            return Err(PlacementError::DuplicateId);
        }
        match self.map.add_building(building_id, building) {
            Err(error) => Err(error),
            Ok(()) => {
                self.buildings.insert(building_id, building);
                self.path_built = false;
                proof {
                    lemma_place_keeps_match(
                        old(self)@.field,
                        old(self)@.structures,
                        building_id,
                        building,
                    );
                    assert(without_directions(self@.field) =~~= self@.field);
                }
                Ok(())
            },
        }
    }

    /// Takes the structure under `building_id` off the battlefield and
    /// hands it back.  The flow field no longer counts as built.  Nothing
    /// changes if there is no such structure.
    pub fn remove_building(&mut self, building_id: u32) -> (taken: Option<Building>)
        requires
            old(self).wf(),
        ensures
            final(self).wf(),
            taken == lookup(old(self)@.structures, building_id),
            final(self)@ == old(self)@.cleared(building_id),
    {
        let taken = self.buildings.remove(building_id);
        if taken.is_some() {
            self.map.remove_building(building_id);
            self.path_built = false;
            proof {
                lemma_remove_keeps_match(
                    old(self)@.field,
                    old(self)@.structures,
                    index_of(old(self)@.structures, building_id),
                );
                assert(without_directions(self@.field) =~~= self@.field);
            }
        }
        taken
    }

    /// Builds the flow field unless it counts as built.
    pub fn ensure_built(&mut self)
        requires
            old(self).wf(),
        ensures
            final(self).wf(),
            final(self)@ == old(self)@.readied(),
            final(self)@.built,
    {
        if !self.path_built {
            proof {
                lemma_rebuild_is_identical(self@.field, self@.structures);
            }
            self.map.build_flow_path(&self.buildings);
            self.path_built = true;
        }
    }

    /// The direction of the flow field at `world_position`, which is built
    /// first unless it counts as built.  A position outside the battlefield
    /// reads the nearest edge cell.
    pub fn query_direction(&mut self, world_position: (i64, i64)) -> (direction: Option<Direction>)
        requires
            old(self).wf(),
        ensures
            final(self).wf(),
            final(self)@ == old(self)@.readied(),
            direction == final(self)@.space_at(world_position).direction,
    {
        self.ensure_built();
        let cell = GridMap::convert_position_to_grid_position(world_position);
        self.map.cell_at(cell.0, cell.1).direction
    }

    /// The identifier of the structure that occupies the cell at
    /// `world_position`, if one does: an entity there has reached it.
    pub fn query_objective_reached(&self, world_position: (i64, i64)) -> (structure: Option<u32>)
        requires
            self.wf(),
        ensures
            structure == match self@.space_at(world_position).building {
                Some(info) => Some(info.id),
                None => None,
            },
    {
        let cell = GridMap::convert_position_to_grid_position(world_position);
        match self.map.cell_at(cell.0, cell.1).building {
            Some(info) => Some(info.id),
            None => None,
        }
    }

    /// Takes `amount` of health from the structure under `building_id`.  A
    /// structure whose health falls to nothing or below leaves the
    /// battlefield.  Nothing changes if there is no such structure.
    pub fn strike_building(&mut self, building_id: u32, amount: i64)
        requires
            old(self).wf(),
        ensures
            final(self).wf(),
            final(self)@ == old(self)@.struck(building_id, amount),
    {
        match self.buildings.get(building_id) {
            None => {},
            Some(building) => {
                let left: i128 = building.health as i128 - amount as i128;
                let health: i64 = if left < i64::MIN as i128 {
                    i64::MIN
                } else if left > i64::MAX as i128 {
                    i64::MAX
                } else {
                    left as i64
                };
                if health <= 0 {
                    self.remove_building(building_id);
                } else {
                    let ghost before = self@.structures;
                    self.buildings.set_health(building_id, health);
                    proof {
                        let after = self@.structures;
                        assert(same_footprints(before, after));
                        lemma_match_by_footprints(self@.field, before, after);
                        lemma_flow_field_by_footprints(self@.field, before, after);
                    }
                }
            },
        }
    }
}

} // verus!
