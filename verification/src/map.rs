//! Structured representation of the game state.
//!
//! Allows the user to read the map state, and stage changes to commit as a
//! move for their turn.

use vstd::prelude::*;

use crate::bounds::{in_diamond, on_edge, MapBounds, MapEdge, EDGE_LENGTH};
use crate::coords::Coords;
use crate::grid::{grid_in_bounds, grid_of_empty_vecs, grid_of_none, Grid};
use crate::messages::{PlayerId, UnitInformation};
use crate::units::{MobileUnitType, RemoveUnitType, SpawnableUnitType, StructureUnitType, UnitType, UnitTypeAtlas, UpgradeUnitType};

verus! {

/// A unit on the map.
///
/// Generic over the set of unit types it can carry.
#[derive(Debug)]
pub struct Unit<T> {
    pub unit_type: T,
    pub health: u32,
    pub id: Option<String>,
    pub owner: PlayerId,
}

impl Unit<StructureUnitType> {
    /// An exact copy of this unit.
    pub fn duplicate(&self) -> (r: Unit<StructureUnitType>)
        ensures
            r == *self,
    {
        Unit {
            unit_type: self.unit_type,
            health: self.health,
            id: match &self.id {
                Some(s) => Some(s.clone()),
                None => None,
            },
            owner: self.owner,
        }
    }

    /// Turn this unit into a `Unit<UnitType>`.
    pub fn unspecialize(self) -> (r: Unit<UnitType>)
        ensures
            r.unit_type == self.unit_type.spec_unit_type(),
            r.health == self.health,
            r.id == self.id,
            r.owner == self.owner,
    {
        Unit {
            unit_type: self.unit_type.unit_type(),
            health: self.health,
            id: self.id,
            owner: self.owner,
        }
    }
}

impl Unit<MobileUnitType> {
    /// Turn this unit into a `Unit<UnitType>`.
    pub fn unspecialize(self) -> (r: Unit<UnitType>)
        ensures
            r.unit_type == self.unit_type.spec_unit_type(),
            r.health == self.health,
            r.id == self.id,
            r.owner == self.owner,
    {
        Unit {
            unit_type: self.unit_type.unit_type(),
            health: self.health,
            id: self.id,
            owner: self.owner,
        }
    }
}

impl Unit<RemoveUnitType> {
    /// Turn this unit into a `Unit<UnitType>`.
    pub fn unspecialize(self) -> (r: Unit<UnitType>)
        ensures
            r.unit_type == UnitType::Remove,
            r.health == self.health,
            r.id == self.id,
            r.owner == self.owner,
    {
        Unit {
            unit_type: self.unit_type.unit_type(),
            health: self.health,
            id: self.id,
            owner: self.owner,
        }
    }
}

impl Unit<UpgradeUnitType> {
    /// Turn this unit into a `Unit<UnitType>`.
    pub fn unspecialize(self) -> (r: Unit<UnitType>)
        ensures
            r.unit_type == UnitType::Upgrade,
            r.health == self.health,
            r.id == self.id,
            r.owner == self.owner,
    {
        Unit {
            unit_type: self.unit_type.unit_type(),
            health: self.health,
            id: self.id,
            owner: self.owner,
        }
    }
}

/// Whether a unit can be spawned at a location.
#[derive(Copy, Clone, PartialEq, Eq, Structural, Debug)]
pub enum CanSpawn {
    Yes,
    OutOfBounds(Coords),
    WrongSideOfMap(Coords),
    NotOnEdge(Coords),
    NotEnoughResources { have_bits: u64, need_bits: u64, have_cores: u64, need_cores: u64 },
    UnitAlreadyPresent { coords: Coords, unit_present: UnitPresent },
}

/// Whether a structure can be removed at a location.
#[derive(Copy, Clone, PartialEq, Eq, Structural, Debug)]
pub enum CanRemove {
    Yes,
    OutOfBounds(Coords),
    WrongSideOfMap(Coords),
    NoUnitPresent(Coords),
    MobileUnitPresent(Coords),
}

/// Whether a structure can be upgraded at a location.
#[derive(Copy, Clone, PartialEq, Eq, Structural, Debug)]
pub enum CanUpgrade {
    Yes,
    OutOfBounds(Coords),
    WrongSideOfMap(Coords),
    NoUnitPresent(Coords),
    MobileUnitPresent(Coords),
    AlreadyUpgraded,
    NotEnoughResources { have_bits: u64, need_bits: u64, have_cores: u64, need_cores: u64 },
}

/// Details on a possible unit spawn being blocked by another unit.
#[derive(Copy, Clone, PartialEq, Eq, Structural, Debug)]
pub enum UnitPresent {
    Wall,
    Mobile,
}

/// A spendable resource that the player has.
#[derive(Copy, Clone, PartialEq, Eq, Structural, Debug)]
pub enum Resource {
    Cores,
    Bits,
}

impl CanSpawn {
    /// Whether self is `CanSpawn::Yes`.
    pub fn yes(self) -> (r: bool)
        ensures
            r == (self == CanSpawn::Yes),
    {
        match self {
            CanSpawn::Yes => true,
            _ => false,
        }
    }
}

impl CanRemove {
    /// Whether self is `CanRemove::Yes`.
    pub fn yes(self) -> (r: bool)
        ensures
            r == (self == CanRemove::Yes),
    {
        match self {
            CanRemove::Yes => true,
            _ => false,
        }
    }
}

impl CanUpgrade {
    /// Whether self is `CanUpgrade::Yes`.
    pub fn yes(self) -> (r: bool)
        ensures
            r == (self == CanUpgrade::Yes),
    {
        match self {
            CanUpgrade::Yes => true,
            _ => false,
        }
    }
}

impl Resource {
    /// Get the resource which buys a particular unit type.
    pub fn which_buys(unit_type: SpawnableUnitType) -> (r: Resource)
        ensures
            r == (match unit_type {
                SpawnableUnitType::Mobile(_) => Resource::Bits,
                SpawnableUnitType::Structure(_) => Resource::Cores,
            }),
    {
        match unit_type {
            SpawnableUnitType::Mobile(_) => Resource::Bits,
            SpawnableUnitType::Structure(_) => Resource::Cores,
        }
    }
}

/// The cost of a spawn or upgrade, split over the two resource ledgers.
///
/// `None` means the action does not consume that resource.
#[derive(Copy, Clone, PartialEq, Eq, Structural, Debug)]
pub struct Cost {
    pub bits: Option<u32>,
    pub cores: Option<u32>,
}

impl Cost {
    /// Drop zero components.
    pub open spec fn spec_filter_nonzero(self) -> Cost {
        Cost {
            bits: if self.bits == Some(0u32) { None } else { self.bits },
            cores: if self.cores == Some(0u32) { None } else { self.cores },
        }
    }

    /// Drop zero components.
    pub fn filter_nonzero(self) -> (r: Cost)
        ensures
            r == self.spec_filter_nonzero(),
    {
        Cost {
            bits: match self.bits {
                Some(0u32) => None,
                other => other,
            },
            cores: match self.cores {
                Some(0u32) => None,
                other => other,
            },
        }
    }
}

/// One staged command in the wire format: shorthand code and coordinates.
#[derive(Debug, Clone, PartialEq)]
pub struct SpawnCommand(pub String, pub i32, pub i32);

/// True when `cmd` encodes the unit with shorthand `shorthand` at `c`.
pub open spec fn cmd_matches(cmd: SpawnCommand, shorthand: Seq<char>, c: Coords) -> bool {
    cmd.0@ == shorthand && cmd.1 == c.x && cmd.2 == c.y
}

/// The mutable board snapshot: layered occupancy, the resource ledger, and
/// the two ordered command logs.
pub struct MapState {
    walls: Grid<Option<Unit<StructureUnitType>>>,
    mobile: Grid<Vec<Unit<MobileUnitType>>>,
    remove: Grid<Option<Unit<RemoveUnitType>>>,
    upgrade: Grid<Option<Unit<UpgradeUnitType>>>,
    cores: u64,
    bits: u64,
    atlas: UnitTypeAtlas,
    build_stack: Vec<SpawnCommand>,
    deploy_stack: Vec<SpawnCommand>,
}

impl MapState {
    /// A map state is well formed when each of its four occupancy layers
    /// holds one entry per board cell.
    pub closed spec fn wf(&self) -> bool {
        &&& self.walls.wf()
        &&& self.mobile.wf()
        &&& self.remove.wf()
        &&& self.upgrade.wf()
    }

    /// The structure unit staged or standing at `c`, if any.
    pub closed spec fn wall_at(&self, c: Coords) -> Option<Unit<StructureUnitType>> {
        self.walls.at(c)
    }

    /// The mobile units staged or standing at `c`, in spawn order.
    pub closed spec fn mobile_at(&self, c: Coords) -> Seq<Unit<MobileUnitType>> {
        self.mobile.at(c)@
    }

    /// The removal marker at `c`, if any.
    pub closed spec fn remove_at(&self, c: Coords) -> Option<Unit<RemoveUnitType>> {
        self.remove.at(c)
    }

    /// The upgrade marker at `c`, if any.
    pub closed spec fn upgrade_at(&self, c: Coords) -> Option<Unit<UpgradeUnitType>> {
        self.upgrade.at(c)
    }

    /// The cores ledger.
    pub closed spec fn spec_cores(&self) -> u64 {
        self.cores
    }

    /// The bits ledger.
    pub closed spec fn spec_bits(&self) -> u64 {
        self.bits
    }

    /// The unit type atlas the state was built with.
    pub closed spec fn spec_atlas(&self) -> UnitTypeAtlas {
        self.atlas
    }

    /// The staged build-phase commands, in order.
    pub closed spec fn spec_build_stack(&self) -> Seq<SpawnCommand> {
        self.build_stack@
    }

    /// The staged deploy-phase commands, in order.
    pub closed spec fn spec_deploy_stack(&self) -> Seq<SpawnCommand> {
        self.deploy_stack@
    }

    /// How much of a specific resource is owned, as a spec value.
    pub open spec fn spec_resource_owned(&self, resource: Resource) -> u64 {
        match resource {
            Resource::Cores => self.spec_cores(),
            Resource::Bits => self.spec_bits(),
        }
    }

    /// How much a unit type costs to spawn, with zero components dropped.
    pub open spec fn spec_cost_of(&self, unit_type: SpawnableUnitType) -> Cost {
        let info = self.spec_atlas().spec_info(unit_type.spec_unit_type());
        (Cost { cores: info.cost1, bits: info.cost2 }).spec_filter_nonzero()
    }

    /// The decision chain of `can_spawn`, evaluated in its fixed priority
    /// order: resource sufficiency first, then structure collision, then
    /// structure-vs-mobile collision, then side of board, then arena
    /// membership, then the edge requirement for mobile units.
    pub open spec fn spec_can_spawn(&self, c: Coords, unit_type: UnitType, quantity: u32) -> CanSpawn {
        let spawnable = unit_type.spec_as_spawnable();
        let cost = self.spec_cost_of(spawnable->Some_0);
        let need_bits = spec_u32_or_zero(cost.bits) * quantity;
        let need_cores = spec_u32_or_zero(cost.cores) * quantity;
        if spawnable is Some && (need_bits > self.spec_bits() || need_cores > self.spec_cores()) {
            CanSpawn::NotEnoughResources {
                need_bits: need_bits as u64,
                need_cores: need_cores as u64,
                have_bits: self.spec_bits(),
                have_cores: self.spec_cores(),
            }
        } else if unit_type != UnitType::Remove && self.wall_at(c) is Some {
            CanSpawn::UnitAlreadyPresent { coords: c, unit_present: UnitPresent::Wall }
        } else if unit_type.spec_as_structure() is Some && self.mobile_at(c).len() > 0 {
            CanSpawn::UnitAlreadyPresent { coords: c, unit_present: UnitPresent::Mobile }
        } else if c.y < 0 || c.y >= EDGE_LENGTH {
            CanSpawn::WrongSideOfMap(c)
        } else if !in_diamond(c.x as int, c.y as int) {
            CanSpawn::OutOfBounds(c)
        } else if unit_type.spec_as_mobile() is Some && !(on_edge(
            MapEdge::BottomLeft,
            c.x as int,
            c.y as int,
        ) || on_edge(MapEdge::BottomRight, c.x as int, c.y as int)) {
            CanSpawn::NotOnEdge(c)
        } else {
            CanSpawn::Yes
        }
    }

    /// The decision chain of `can_remove_structure`.
    pub open spec fn spec_can_remove_structure(&self, c: Coords) -> CanRemove {
        if !in_diamond(c.x as int, c.y as int) {
            CanRemove::OutOfBounds(c)
        } else if c.y >= EDGE_LENGTH {
            CanRemove::WrongSideOfMap(c)
        } else if self.mobile_at(c).len() > 0 {
            CanRemove::MobileUnitPresent(c)
        } else if self.wall_at(c) is None {
            CanRemove::NoUnitPresent(c)
        } else {
            CanRemove::Yes
        }
    }

    /// The upgrade cost of a structure: its distinct upgrade cost where one
    /// is defined, else its base cost, with zero components dropped.
    pub open spec fn spec_upgrade_cost(info: UnitInformation) -> Cost {
        let cores = spec_u32_or(info.upgrade_cost1, spec_u32_or_zero(info.cost1));
        let bits = spec_u32_or(info.upgrade_cost2, spec_u32_or_zero(info.cost2));
        (Cost { cores: Some(cores), bits: Some(bits) }).spec_filter_nonzero()
    }

    /// The decision chain of `can_upgrade`.
    pub open spec fn spec_can_upgrade(&self, c: Coords) -> CanUpgrade {
        if !in_diamond(c.x as int, c.y as int) {
            CanUpgrade::OutOfBounds(c)
        } else if c.y >= EDGE_LENGTH {
            CanUpgrade::WrongSideOfMap(c)
        } else if self.mobile_at(c).len() > 0 {
            CanUpgrade::MobileUnitPresent(c)
        } else if self.wall_at(c) is None {
            CanUpgrade::NoUnitPresent(c)
        } else {
            let unit = self.wall_at(c)->Some_0;
            let info = self.spec_atlas().spec_info(unit.unit_type.spec_unit_type());
            let cost = Self::spec_upgrade_cost(info);
            let need_bits = spec_u32_or_zero(cost.bits) as u64;
            let need_cores = spec_u32_or_zero(cost.cores) as u64;
            if need_bits > self.spec_bits() || need_cores > self.spec_cores() {
                CanUpgrade::NotEnoughResources {
                    need_bits,
                    need_cores,
                    have_bits: self.spec_bits(),
                    have_cores: self.spec_cores(),
                }
            } else if self.upgrade_at(c) is Some {
                CanUpgrade::AlreadyUpgraded
            } else {
                CanUpgrade::Yes
            }
        }
    }
}

/// The value of an optional amount, zero when absent.
pub open spec fn spec_u32_or_zero(v: Option<u32>) -> u32 {
    match v {
        Some(n) => n,
        None => 0,
    }
}

/// The value of an optional amount, or a fallback when absent.
pub open spec fn spec_u32_or(v: Option<u32>, fallback: u32) -> u32 {
    match v {
        Some(n) => n,
        None => fallback,
    }
}

impl MapState {
    /// An empty board: no units, no markers, empty command logs, and the
    /// given resource balances.
    pub fn new(atlas: UnitTypeAtlas, cores: u64, bits: u64) -> (r: MapState)
        ensures
            r.wf(),
            forall|c: Coords| grid_in_bounds(c) ==> #[trigger] r.wall_at(c) is None,
            forall|c: Coords| grid_in_bounds(c) ==> #[trigger] r.mobile_at(c).len() == 0,
            forall|c: Coords| grid_in_bounds(c) ==> #[trigger] r.remove_at(c) is None,
            forall|c: Coords| grid_in_bounds(c) ==> #[trigger] r.upgrade_at(c) is None,
            r.spec_cores() == cores,
            r.spec_bits() == bits,
            r.spec_atlas() == atlas,
            r.spec_build_stack() == Seq::<SpawnCommand>::empty(),
            r.spec_deploy_stack() == Seq::<SpawnCommand>::empty(),
    {
        let r = MapState {
            walls: grid_of_none(),
            mobile: grid_of_empty_vecs(),
            remove: grid_of_none(),
            upgrade: grid_of_none(),
            cores,
            bits,
            atlas,
            build_stack: Vec::new(),
            deploy_stack: Vec::new(),
        };
        proof {
            assert(r.spec_build_stack() =~= Seq::<SpawnCommand>::empty());
            assert(r.spec_deploy_stack() =~= Seq::<SpawnCommand>::empty());
        }
        r
    }

    /// Assemble a board snapshot from already-filled occupancy layers, as
    /// the frame parser produces them.
    pub fn from_grids(
        walls: Grid<Option<Unit<StructureUnitType>>>,
        mobile: Grid<Vec<Unit<MobileUnitType>>>,
        remove: Grid<Option<Unit<RemoveUnitType>>>,
        upgrade: Grid<Option<Unit<UpgradeUnitType>>>,
        cores: u64,
        bits: u64,
        atlas: UnitTypeAtlas,
    ) -> (r: MapState)
        requires
            walls.wf(),
            mobile.wf(),
            remove.wf(),
            upgrade.wf(),
        ensures
            r.wf(),
            forall|c: Coords| #[trigger] r.wall_at(c) == walls.at(c),
            forall|c: Coords| #[trigger] r.mobile_at(c) == mobile.at(c)@,
            forall|c: Coords| #[trigger] r.remove_at(c) == remove.at(c),
            forall|c: Coords| #[trigger] r.upgrade_at(c) == upgrade.at(c),
            r.spec_cores() == cores,
            r.spec_bits() == bits,
            r.spec_atlas() == atlas,
            r.spec_build_stack() == Seq::<SpawnCommand>::empty(),
            r.spec_deploy_stack() == Seq::<SpawnCommand>::empty(),
    {
        let r = MapState {
            walls,
            mobile,
            remove,
            upgrade,
            cores,
            bits,
            atlas,
            build_stack: Vec::new(),
            deploy_stack: Vec::new(),
        };
        proof {
            assert(r.spec_build_stack() =~= Seq::<SpawnCommand>::empty());
            assert(r.spec_deploy_stack() =~= Seq::<SpawnCommand>::empty());
        }
        r
    }

    /// How much of a specific resource do we currently own.
    pub fn resource_owned(&self, resource: Resource) -> (r: u64)
        ensures
            r == self.spec_resource_owned(resource),
    {
        match resource {
            Resource::Cores => self.cores,
            Resource::Bits => self.bits,
        }
    }

    /// The unit type atlas.
    pub fn atlas(&self) -> (r: &UnitTypeAtlas)
        ensures
            *r == self.spec_atlas(),
    {
        &self.atlas
    }

    /// The staged build-phase commands, in order of staging.
    pub fn build_commands(&self) -> (r: &Vec<SpawnCommand>)
        ensures
            r@ == self.spec_build_stack(),
    {
        &self.build_stack
    }

    /// The staged deploy-phase commands, in order of staging.
    pub fn deploy_commands(&self) -> (r: &Vec<SpawnCommand>)
        ensures
            r@ == self.spec_deploy_stack(),
    {
        &self.deploy_stack
    }

    /// Get the optional structure unit at a cell.
    pub fn wall_unit(&self, c: Coords) -> (r: Option<&Unit<StructureUnitType>>)
        requires
            self.wf(),
            grid_in_bounds(c),
        ensures
            r is Some <==> self.wall_at(c) is Some,
            r is Some ==> *r->Some_0 == self.wall_at(c)->Some_0,
    {
        match self.walls.get(c) {
            Some(slot) => match slot {
                Some(unit) => Some(unit),
                None => None,
            },
            None => None,
        }
    }

    /// Get the mobile units at a cell.
    pub fn mobile_units(&self, c: Coords) -> (r: &Vec<Unit<MobileUnitType>>)
        requires
            self.wf(),
            grid_in_bounds(c),
        ensures
            r@ == self.mobile_at(c),
    {
        match self.mobile.get(c) {
            Some(units) => units,
            None => vstd::pervasive::unreached(),
        }
    }

    /// Get the optional removal marker at a cell.
    pub fn remove_unit(&self, c: Coords) -> (r: Option<&Unit<RemoveUnitType>>)
        requires
            self.wf(),
            grid_in_bounds(c),
        ensures
            r is Some <==> self.remove_at(c) is Some,
            r is Some ==> *r->Some_0 == self.remove_at(c)->Some_0,
    {
        match self.remove.get(c) {
            Some(slot) => match slot {
                Some(unit) => Some(unit),
                None => None,
            },
            None => None,
        }
    }

    /// Get the optional upgrade marker at a cell.
    pub fn upgrade_unit(&self, c: Coords) -> (r: Option<&Unit<UpgradeUnitType>>)
        requires
            self.wf(),
            grid_in_bounds(c),
        ensures
            r is Some <==> self.upgrade_at(c) is Some,
            r is Some ==> *r->Some_0 == self.upgrade_at(c)->Some_0,
    {
        match self.upgrade.get(c) {
            Some(slot) => match slot {
                Some(unit) => Some(unit),
                None => None,
            },
            None => None,
        }
    }

    /// How much does a certain unit type cost to spawn, in its respective
    /// resource units.
    pub fn cost_of(&self, unit_type: SpawnableUnitType) -> (r: Cost)
        ensures
            r == self.spec_cost_of(unit_type),
    {
        let info = self.atlas.type_mobile(unit_type.unit_type());
        (Cost { cores: info.cost1, bits: info.cost2 }).filter_nonzero()
    }

    /// How many of a certain unit type we can afford to spawn: the minimum
    /// over both resources of balance divided by cost, a free resource
    /// counting as 99.
    pub fn number_affordable(&self, unit_type: SpawnableUnitType) -> (r: u32)
        ensures
            r as int == spec_min_int(
                spec_affordable(self.spec_bits(), self.spec_cost_of(unit_type).bits),
                spec_affordable(self.spec_cores(), self.spec_cost_of(unit_type).cores),
            ),
    {
        let cost = self.cost_of(unit_type);
        let from_bits = match cost.bits {
            Some(cost_bits) => saturate_u32(self.bits / (cost_bits as u64)),
            None => 99,
        };
        let from_cores = match cost.cores {
            Some(cost_cores) => saturate_u32(self.cores / (cost_cores as u64)),
            None => 99,
        };
        if from_bits < from_cores {
            from_bits
        } else {
            from_cores
        }
    }

    /// Can the given number of a given unit type be spawned at this cell?
    /// If not, why?
    ///
    /// The checks run in the fixed priority order of `spec_can_spawn`; the
    /// first failing check decides the reported reason.
    #[verifier::rlimit(100)]
    #[verifier::spinoff_prover]
    pub fn can_spawn(&self, bounds: &MapBounds, c: Coords, unit_type: UnitType, quantity: u32) -> (r:
        CanSpawn)
        requires
            self.wf(),
            grid_in_bounds(c),
        ensures
            r == self.spec_can_spawn(c, unit_type, quantity),
    {
        let ghost expected = self.spec_can_spawn(c, unit_type, quantity);
        if let Some(spawnable) = unit_type.as_spawnable() {
            let cost = self.cost_of(spawnable);
            let need_bits: u64 = match cost.bits {
                Some(b) => mul_u32_to_u64(b, quantity),
                None => 0,
            };
            let need_cores: u64 = match cost.cores {
                Some(cr) => mul_u32_to_u64(cr, quantity),
                None => 0,
            };
            if need_bits > self.bits || need_cores > self.cores {
                proof {
                    assert(unit_type.spec_as_spawnable() == Some(spawnable));
                    assert(cost == self.spec_cost_of(spawnable));
                    assert(need_bits == spec_u32_or_zero(cost.bits) * quantity);
                    assert(need_cores == spec_u32_or_zero(cost.cores) * quantity);
                    assert(expected == CanSpawn::NotEnoughResources {
                        need_bits,
                        need_cores,
                        have_bits: self.spec_bits(),
                        have_cores: self.spec_cores(),
                    });
                }
                return CanSpawn::NotEnoughResources {
                    need_bits,
                    need_cores,
                    have_bits: self.bits,
                    have_cores: self.cores,
                };
            }
        }
        proof {
            assert(!(unit_type.spec_as_spawnable() is Some && (spec_u32_or_zero(
                self.spec_cost_of(unit_type.spec_as_spawnable()->Some_0).bits,
            ) * quantity > self.spec_bits() || spec_u32_or_zero(
                self.spec_cost_of(unit_type.spec_as_spawnable()->Some_0).cores,
            ) * quantity > self.spec_cores())));
        }
        if unit_type != UnitType::Remove && self.wall_unit(c).is_some() {
            CanSpawn::UnitAlreadyPresent { coords: c, unit_present: UnitPresent::Wall }
        } else if unit_type.is_structure() && self.mobile_units(c).len() > 0 {
            CanSpawn::UnitAlreadyPresent { coords: c, unit_present: UnitPresent::Mobile }
        } else if c.y < 0 || c.y >= (EDGE_LENGTH as i32) {
            CanSpawn::WrongSideOfMap(c)
        } else if !bounds.is_in_arena(c) {
            CanSpawn::OutOfBounds(c)
        } else if unit_type.is_mobile() && !(bounds.is_on_edge(MapEdge::BottomLeft, c)
            || bounds.is_on_edge(MapEdge::BottomRight, c)) {
            CanSpawn::NotOnEdge(c)
        } else {
            CanSpawn::Yes
        }
    }

    /// Can a structure be removed at this cell? If not, why?
    pub fn can_remove_structure(&self, bounds: &MapBounds, c: Coords) -> (r: CanRemove)
        requires
            self.wf(),
            grid_in_bounds(c),
        ensures
            r == self.spec_can_remove_structure(c),
    {
        if !bounds.is_in_arena(c) {
            CanRemove::OutOfBounds(c)
        } else if c.y >= (EDGE_LENGTH as i32) {
            CanRemove::WrongSideOfMap(c)
        } else if self.mobile_units(c).len() > 0 {
            CanRemove::MobileUnitPresent(c)
        } else if self.wall_unit(c).is_none() {
            CanRemove::NoUnitPresent(c)
        } else {
            CanRemove::Yes
        }
    }

    /// Can the structure at this cell be upgraded? If not, why?
    pub fn can_upgrade(&self, bounds: &MapBounds, c: Coords) -> (r: CanUpgrade)
        requires
            self.wf(),
            grid_in_bounds(c),
        ensures
            r == self.spec_can_upgrade(c),
    {
        if !bounds.is_in_arena(c) {
            CanUpgrade::OutOfBounds(c)
        } else if c.y >= (EDGE_LENGTH as i32) {
            CanUpgrade::WrongSideOfMap(c)
        } else if self.mobile_units(c).len() > 0 {
            CanUpgrade::MobileUnitPresent(c)
        } else {
            let unit = match self.wall_unit(c) {
                Some(unit) => unit,
                None => {
                    return CanUpgrade::NoUnitPresent(c);
                },
            };
            let info = self.atlas.type_mobile(unit.unit_type.unit_type());
            let cost = Self::upgrade_cost(info);
            let need_bits: u64 = match cost.bits {
                Some(b) => b as u64,
                None => 0,
            };
            let need_cores: u64 = match cost.cores {
                Some(cr) => cr as u64,
                None => 0,
            };
            if need_bits > self.bits || need_cores > self.cores {
                CanUpgrade::NotEnoughResources {
                    need_bits,
                    need_cores,
                    have_bits: self.bits,
                    have_cores: self.cores,
                }
            } else if self.upgrade_unit(c).is_some() {
                CanUpgrade::AlreadyUpgraded
            } else {
                CanUpgrade::Yes
            }
        }
    }

    /// The upgrade cost of a structure type, falling back to its base cost
    /// where no distinct upgrade cost is defined.
    pub fn upgrade_cost(info: &UnitInformation) -> (r: Cost)
        ensures
            r == Self::spec_upgrade_cost(*info),
    {
        let cores = match info.upgrade_cost1 {
            Some(n) => n,
            None => match info.cost1 {
                Some(n) => n,
                None => 0,
            },
        };
        let bits = match info.upgrade_cost2 {
            Some(n) => n,
            None => match info.cost2 {
                Some(n) => n,
                None => 0,
            },
        };
        (Cost { cores: Some(cores), bits: Some(bits) }).filter_nonzero()
    }
}

/// One step of a bulk spawn attempt: the spawn applies exactly when the
/// rule chain allows it, and otherwise leaves the board untouched.
pub open spec fn spec_try_spawn_step(
    pre: MapState,
    post: MapState,
    c: Coords,
    unit_type: SpawnableUnitType,
) -> bool {
    if pre.spec_can_spawn(c, unit_type.spec_unit_type(), 1) == CanSpawn::Yes {
        spec_spawn_effect(pre, post, c, unit_type)
    } else {
        post == pre
    }
}

/// One step of a bulk removal attempt: the marker applies exactly when the
/// rule chain allows it, and otherwise leaves the board untouched.
pub open spec fn spec_try_remove_step(pre: MapState, post: MapState, c: Coords) -> bool {
    if pre.spec_can_remove_structure(c) == CanRemove::Yes {
        spec_remove_effect(pre, post, c)
    } else {
        post == pre
    }
}

/// The priority order of the spawn checks is absolute: whenever the
/// balances cannot pay for a spawnable type, `can_spawn` reports the
/// insufficiency, no matter how invalid the cell may otherwise be.
pub proof fn lemma_resource_check_comes_first(
    state: MapState,
    c: Coords,
    unit_type: UnitType,
    quantity: u32,
)
    requires
        unit_type.spec_as_spawnable() is Some,
        spec_u32_or_zero(state.spec_cost_of(unit_type.spec_as_spawnable()->Some_0).bits)
            * quantity > state.spec_bits() || spec_u32_or_zero(
            state.spec_cost_of(unit_type.spec_as_spawnable()->Some_0).cores,
        ) * quantity > state.spec_cores(),
    ensures
        state.spec_can_spawn(c, unit_type, quantity) matches CanSpawn::NotEnoughResources { .. },
{
}

/// Converting a spawnable type to a general unit type and back yields the
/// same spawnable type.
pub proof fn lemma_spawnable_roundtrip(s: SpawnableUnitType)
    ensures
        s.spec_unit_type().spec_as_spawnable() == Some(s),
{
}

/// How a successful `spawn` changes the board: the type's cost is debited,
/// the new unit joins the structure or mobile layer of its cell, every
/// other cell is untouched, and exactly one command is appended to the
/// matching log.
pub open spec fn spec_spawn_effect(
    pre: MapState,
    post: MapState,
    c: Coords,
    unit_type: SpawnableUnitType,
) -> bool {
    let info = pre.spec_atlas().spec_info(unit_type.spec_unit_type());
    let cost = pre.spec_cost_of(unit_type);
    let health = spec_u32_or_zero(info.start_health);
    let shorthand = pre.spec_atlas().spec_shorthand(unit_type.spec_unit_type());
    &&& post.wf()
    &&& post.spec_cores() == pre.spec_cores() - spec_u32_or_zero(cost.cores)
    &&& post.spec_bits() == pre.spec_bits() - spec_u32_or_zero(cost.bits)
    &&& post.spec_atlas() == pre.spec_atlas()
    &&& (forall|c2: Coords|
        grid_in_bounds(c2) && c2 != c ==> #[trigger] post.wall_at(c2) == pre.wall_at(c2))
    &&& (forall|c2: Coords|
        grid_in_bounds(c2) && c2 != c ==> #[trigger] post.mobile_at(c2) == pre.mobile_at(c2))
    &&& (forall|c2: Coords| grid_in_bounds(c2) ==> #[trigger] post.remove_at(c2) == pre.remove_at(
        c2,
    ))
    &&& (forall|c2: Coords|
        grid_in_bounds(c2) ==> #[trigger] post.upgrade_at(c2) == pre.upgrade_at(c2))
    &&& match unit_type {
        SpawnableUnitType::Structure(s) => {
            &&& post.wall_at(c) == Some(
                Unit::<StructureUnitType> {
                    unit_type: s,
                    health,
                    id: None,
                    owner: PlayerId::Player1,
                },
            )
            &&& post.mobile_at(c) == pre.mobile_at(c)
            &&& post.spec_build_stack().len() == pre.spec_build_stack().len() + 1
            &&& post.spec_build_stack().take(pre.spec_build_stack().len() as int)
                == pre.spec_build_stack()
            &&& cmd_matches(post.spec_build_stack().last(), shorthand, c)
            &&& post.spec_deploy_stack() == pre.spec_deploy_stack()
        },
        SpawnableUnitType::Mobile(m) => {
            &&& post.wall_at(c) == pre.wall_at(c)
            &&& post.mobile_at(c) == pre.mobile_at(c).push(
                Unit::<MobileUnitType> {
                    unit_type: m,
                    health,
                    id: None,
                    owner: PlayerId::Player1,
                },
            )
            &&& post.spec_deploy_stack().len() == pre.spec_deploy_stack().len() + 1
            &&& post.spec_deploy_stack().take(pre.spec_deploy_stack().len() as int)
                == pre.spec_deploy_stack()
            &&& cmd_matches(post.spec_deploy_stack().last(), shorthand, c)
            &&& post.spec_build_stack() == pre.spec_build_stack()
        },
    }
}

/// How a successful `remove_structure` changes the board: a removal marker
/// appears at the cell, a removal command is appended to the build log, and
/// nothing else changes; in particular no resources are refunded.
pub open spec fn spec_remove_effect(pre: MapState, post: MapState, c: Coords) -> bool {
    &&& post.wf()
    &&& post.spec_cores() == pre.spec_cores()
    &&& post.spec_bits() == pre.spec_bits()
    &&& post.spec_atlas() == pre.spec_atlas()
    &&& (forall|c2: Coords| grid_in_bounds(c2) ==> #[trigger] post.wall_at(c2) == pre.wall_at(c2))
    &&& (forall|c2: Coords|
        grid_in_bounds(c2) ==> #[trigger] post.mobile_at(c2) == pre.mobile_at(c2))
    &&& (forall|c2: Coords|
        grid_in_bounds(c2) && c2 != c ==> #[trigger] post.remove_at(c2) == pre.remove_at(c2))
    &&& (forall|c2: Coords|
        grid_in_bounds(c2) ==> #[trigger] post.upgrade_at(c2) == pre.upgrade_at(c2))
    &&& post.remove_at(c) == Some(
        Unit::<RemoveUnitType> {
            unit_type: RemoveUnitType,
            health: 1u32,
            id: None,
            owner: PlayerId::Player1,
        },
    )
    &&& post.spec_build_stack().len() == pre.spec_build_stack().len() + 1
    &&& post.spec_build_stack().take(pre.spec_build_stack().len() as int)
        == pre.spec_build_stack()
    &&& cmd_matches(
        post.spec_build_stack().last(),
        pre.spec_atlas().spec_shorthand(UnitType::Remove),
        c,
    )
    &&& post.spec_deploy_stack() == pre.spec_deploy_stack()
}

/// How a successful `upgrade` changes the board: an upgrade marker appears
/// at the cell, the structure's upgrade cost is debited, an upgrade command
/// is appended to the build log, and nothing else changes.
pub open spec fn spec_upgrade_effect(pre: MapState, post: MapState, c: Coords) -> bool {
    let info = pre.spec_atlas().spec_info(pre.wall_at(c)->Some_0.unit_type.spec_unit_type());
    let cost = MapState::spec_upgrade_cost(info);
    &&& post.wf()
    &&& post.spec_cores() == pre.spec_cores() - spec_u32_or_zero(cost.cores)
    &&& post.spec_bits() == pre.spec_bits() - spec_u32_or_zero(cost.bits)
    &&& post.spec_atlas() == pre.spec_atlas()
    &&& (forall|c2: Coords| grid_in_bounds(c2) ==> #[trigger] post.wall_at(c2) == pre.wall_at(c2))
    &&& (forall|c2: Coords|
        grid_in_bounds(c2) ==> #[trigger] post.mobile_at(c2) == pre.mobile_at(c2))
    &&& (forall|c2: Coords|
        grid_in_bounds(c2) ==> #[trigger] post.remove_at(c2) == pre.remove_at(c2))
    &&& (forall|c2: Coords|
        grid_in_bounds(c2) && c2 != c ==> #[trigger] post.upgrade_at(c2) == pre.upgrade_at(c2))
    &&& post.upgrade_at(c) == Some(
        Unit::<UpgradeUnitType> {
            unit_type: UpgradeUnitType,
            health: 1u32,
            id: None,
            owner: PlayerId::Player1,
        },
    )
    &&& post.spec_build_stack().len() == pre.spec_build_stack().len() + 1
    &&& post.spec_build_stack().take(pre.spec_build_stack().len() as int)
        == pre.spec_build_stack()
    &&& cmd_matches(
        post.spec_build_stack().last(),
        pre.spec_atlas().spec_shorthand(UnitType::Upgrade),
        c,
    )
    &&& post.spec_deploy_stack() == pre.spec_deploy_stack()
}

impl MapState {
    /// Attempt to spawn a unit on the board.
    ///
    /// The move is re-validated through the full `can_spawn` chain; on
    /// failure the specific decision is returned and the board, the
    /// resource balances and the command logs are left exactly as they
    /// were.
    pub fn spawn(&mut self, bounds: &MapBounds, c: Coords, unit_type: SpawnableUnitType) -> (r:
        Result<(), CanSpawn>)
        requires
            old(self).wf(),
            grid_in_bounds(c),
        ensures
            final(self).wf(),
            r is Ok <==> old(self).spec_can_spawn(c, unit_type.spec_unit_type(), 1)
                == CanSpawn::Yes,
            r matches Err(e) ==> e == old(self).spec_can_spawn(c, unit_type.spec_unit_type(), 1),
            r is Err ==> *final(self) == *old(self),
            r is Ok ==> spec_spawn_effect(*old(self), *final(self), c, unit_type),
    {
        match self.can_spawn(bounds, c, unit_type.unit_type(), 1) {
            CanSpawn::Yes => (),
            cannot => {
                return Err(cannot);
            },
        }
        proof {
            lemma_spawnable_roundtrip(unit_type);
        }

        // subtract the cost from our wealth
        let cost = self.cost_of(unit_type);
        self.cores = self.cores - (match cost.cores {
            Some(n) => n as u64,
            None => 0,
        });
        self.bits = self.bits - (match cost.bits {
            Some(n) => n as u64,
            None => 0,
        });

        let info = self.atlas.type_mobile(unit_type.unit_type());
        let health = match info.start_health {
            Some(h) => h,
            None => 0,
        };

        match unit_type {
            SpawnableUnitType::Structure(s) => {
                let unit = Unit {
                    unit_type: s,
                    health,
                    id: None,
                    owner: PlayerId::Player1,
                };
                let _ = self.walls.set(c, Some(unit));
            },
            SpawnableUnitType::Mobile(m) => {
                let unit = Unit {
                    unit_type: m,
                    health,
                    id: None,
                    owner: PlayerId::Player1,
                };
                let _ = self.mobile.push_at(c, unit);
            },
        }

        // add it to the command stack
        let shorthand = self.atlas.type_into_shorthand(unit_type.unit_type());
        let command = SpawnCommand(shorthand.to_owned(), c.x, c.y);
        let is_structure = unit_type.is_structure();
        if is_structure {
            self.build_stack.push(command);
        } else {
            self.deploy_stack.push(command);
        }
        proof {
            if is_structure {
                assert(self.build_stack@.take(old(self).spec_build_stack().len() as int)
                    =~= old(self).spec_build_stack());
            } else {
                assert(self.deploy_stack@.take(old(self).spec_deploy_stack().len() as int)
                    =~= old(self).spec_deploy_stack());
            }
        }

        Ok(())
    }

    /// Attempt to spawn a unit at a location, returning whether successful.
    pub fn try_spawn(&mut self, bounds: &MapBounds, c: Coords, unit_type: SpawnableUnitType) -> (r:
        bool)
        requires
            old(self).wf(),
            grid_in_bounds(c),
        ensures
            final(self).wf(),
            r == (old(self).spec_can_spawn(c, unit_type.spec_unit_type(), 1) == CanSpawn::Yes),
            !r ==> *final(self) == *old(self),
            r ==> spec_spawn_effect(*old(self), *final(self), c, unit_type),
    {
        self.spawn(bounds, c, unit_type).is_ok()
    }

    /// Attempt to mark a structure for removal.
    ///
    /// On failure the specific decision is returned and nothing changes.
    /// Removing does not refund the structure's cost.
    pub fn remove_structure(&mut self, bounds: &MapBounds, c: Coords) -> (r: Result<
        (),
        CanRemove,
    >)
        requires
            old(self).wf(),
            grid_in_bounds(c),
        ensures
            final(self).wf(),
            r is Ok <==> old(self).spec_can_remove_structure(c) == CanRemove::Yes,
            r matches Err(e) ==> e == old(self).spec_can_remove_structure(c),
            r is Err ==> *final(self) == *old(self),
            r is Ok ==> spec_remove_effect(*old(self), *final(self), c),
    {
        match self.can_remove_structure(bounds, c) {
            CanRemove::Yes => (),
            cannot => {
                return Err(cannot);
            },
        }

        // add the remove unit
        let _ = self.remove.set(
            c,
            Some(
                Unit {
                    unit_type: RemoveUnitType,
                    health: 1,
                    id: None,
                    owner: PlayerId::Player1,
                },
            ),
        );

        // add it to the command stack
        let shorthand = self.atlas.type_into_shorthand(UnitType::Remove);
        let command = SpawnCommand(shorthand.to_owned(), c.x, c.y);
        self.build_stack.push(command);
        proof {
            assert(self.build_stack@.take(old(self).spec_build_stack().len() as int)
                =~= old(self).spec_build_stack());
        }

        Ok(())
    }

    /// Attempt to mark a structure for removal, returning whether
    /// successful.
    pub fn try_remove_structure(&mut self, bounds: &MapBounds, c: Coords) -> (r: bool)
        requires
            old(self).wf(),
            grid_in_bounds(c),
        ensures
            final(self).wf(),
            r == (old(self).spec_can_remove_structure(c) == CanRemove::Yes),
            !r ==> *final(self) == *old(self),
            r ==> spec_remove_effect(*old(self), *final(self), c),
    {
        self.remove_structure(bounds, c).is_ok()
    }

    /// Attempt to mark the structure at a cell for upgrade.
    ///
    /// On failure the specific decision is returned and nothing changes.
    pub fn upgrade(&mut self, bounds: &MapBounds, c: Coords) -> (r: Result<(), CanUpgrade>)
        requires
            old(self).wf(),
            grid_in_bounds(c),
        ensures
            final(self).wf(),
            r is Ok <==> old(self).spec_can_upgrade(c) == CanUpgrade::Yes,
            r matches Err(e) ==> e == old(self).spec_can_upgrade(c),
            r is Err ==> *final(self) == *old(self),
            r is Ok ==> spec_upgrade_effect(*old(self), *final(self), c),
    {
        match self.can_upgrade(bounds, c) {
            CanUpgrade::Yes => (),
            cannot => {
                return Err(cannot);
            },
        }

        let _ = self.upgrade.set(
            c,
            Some(
                Unit {
                    unit_type: UpgradeUnitType,
                    health: 1,
                    id: None,
                    owner: PlayerId::Player1,
                },
            ),
        );

        // debit the upgrade cost of the structure standing at the cell
        let wall_type = match self.wall_unit(c) {
            Some(wall) => wall.unit_type,
            None => vstd::pervasive::unreached(),
        };
        let cost = {
            let info = self.atlas.type_mobile(wall_type.unit_type());
            Self::upgrade_cost(info)
        };
        self.cores = self.cores - (match cost.cores {
            Some(n) => n as u64,
            None => 0,
        });
        self.bits = self.bits - (match cost.bits {
            Some(n) => n as u64,
            None => 0,
        });

        let shorthand = self.atlas.type_into_shorthand(UnitType::Upgrade);
        let command = SpawnCommand(shorthand.to_owned(), c.x, c.y);
        self.build_stack.push(command);
        proof {
            assert(self.build_stack@.take(old(self).spec_build_stack().len() as int)
                =~= old(self).spec_build_stack());
        }

        Ok(())
    }

    /// Attempt to mark the structure at a cell for upgrade, returning
    /// whether successful.
    pub fn try_upgrade(&mut self, bounds: &MapBounds, c: Coords) -> (r: bool)
        requires
            old(self).wf(),
            grid_in_bounds(c),
        ensures
            final(self).wf(),
            r == (old(self).spec_can_upgrade(c) == CanUpgrade::Yes),
            !r ==> *final(self) == *old(self),
            r ==> spec_upgrade_effect(*old(self), *final(self), c),
    {
        self.upgrade(bounds, c).is_ok()
    }
}

/// Units affordable from one ledger: balance over cost, or 99 when the
/// type does not consume the resource, capped at `u32::MAX`.
pub open spec fn spec_affordable(balance: u64, cost: Option<u32>) -> int {
    match cost {
        Some(n) => spec_min_int(balance as int / n as int, u32::MAX as int),
        None => 99,
    }
}

/// The smaller of two mathematical integers.
pub open spec fn spec_min_int(a: int, b: int) -> int {
    if a < b {
        a
    } else {
        b
    }
}

/// The product of two 32-bit amounts, which always fits in 64 bits.
fn mul_u32_to_u64(a: u32, b: u32) -> (r: u64)
    ensures
        r == a * b,
{
    proof {
        assert((a as int) * (b as int) < 0x1_0000_0000_0000_0000) by (nonlinear_arith)
            requires
                a < 0x1_0000_0000,
                b < 0x1_0000_0000,
        ;
    }
    (a as u64) * (b as u64)
}

/// Clamp a 64-bit count into 32 bits.
fn saturate_u32(n: u64) -> (r: u32)
    ensures
        r as int == spec_min_int(n as int, u32::MAX as int),
{
    if n >= (u32::MAX as u64) {
        u32::MAX
    } else {
        n as u32
    }
}

} // verus!
