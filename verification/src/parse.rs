//! Conversion from per-frame occupancy data into a `MapState`.
//!
//! The records arrive already deserialized; this module places them on the
//! board, rejecting the whole frame when a unit lies off the board or when
//! two structures, removal markers or upgrade markers claim one cell.

use vstd::prelude::*;

use crate::bounds::BOARD_SIZE;
use crate::coords::Coords;
use crate::grid::{grid_in_bounds, grid_index, grid_of_empty_vecs, grid_of_none, Grid};
use crate::map::{MapState, Unit};
use crate::messages::PlayerId;
use crate::units::{MobileUnitType, RemoveUnitType, StructureUnitType, UnitTypeAtlas, UpgradeUnitType};

verus! {

/// One unit record of a frame: position, remaining health, and the
/// engine-assigned unit id.
pub struct PlayerUnit {
    pub coords: Coords,
    pub stability: u32,
    pub unit_id: String,
}

/// All unit records of one player, one list per unit type.
pub struct PlayerUnits {
    pub wall: Vec<PlayerUnit>,
    pub support: Vec<PlayerUnit>,
    pub turret: Vec<PlayerUnit>,
    pub scout: Vec<PlayerUnit>,
    pub demolisher: Vec<PlayerUnit>,
    pub interceptor: Vec<PlayerUnit>,
    pub remove: Vec<PlayerUnit>,
    pub upgrade: Vec<PlayerUnit>,
}

/// All the ways in which a map can fail to parse from frame data.
#[derive(Copy, Clone, PartialEq, Eq, Structural, Debug)]
pub enum MapParseError {
    UnitInIllegalPosition(Coords),
    MultipleWallsSamePosition(Coords),
    MultipleRemovesSamePosition(Coords),
    MultipleUpgradesSamePosition(Coords),
}

/// The unit a frame record stands for.
pub open spec fn spec_unit_of_record<T>(t: T, rec: PlayerUnit, owner: PlayerId) -> Unit<T> {
    Unit { unit_type: t, health: rec.stability, id: Some(rec.unit_id), owner }
}

/// Place structure records one by one: a record off the board fails the
/// frame, as does a record on an already occupied cell.
pub open spec fn spec_fill_structures(
    cells: Seq<Option<Unit<StructureUnitType>>>,
    recs: Seq<PlayerUnit>,
    t: StructureUnitType,
    owner: PlayerId,
) -> Result<Seq<Option<Unit<StructureUnitType>>>, MapParseError>
    decreases recs.len(),
{
    if recs.len() == 0 {
        Ok(cells)
    } else {
        let rec = recs[0];
        if !grid_in_bounds(rec.coords) {
            Err(MapParseError::UnitInIllegalPosition(rec.coords))
        } else if cells[grid_index(rec.coords)] is Some {
            Err(MapParseError::MultipleWallsSamePosition(rec.coords))
        } else {
            spec_fill_structures(
                cells.update(grid_index(rec.coords), Some(spec_unit_of_record(t, rec, owner))),
                recs.drop_first(),
                t,
                owner,
            )
        }
    }
}

/// Place removal-marker records one by one, rejecting off-board and
/// doubled records.
pub open spec fn spec_fill_removes(
    cells: Seq<Option<Unit<RemoveUnitType>>>,
    recs: Seq<PlayerUnit>,
    owner: PlayerId,
) -> Result<Seq<Option<Unit<RemoveUnitType>>>, MapParseError>
    decreases recs.len(),
{
    if recs.len() == 0 {
        Ok(cells)
    } else {
        let rec = recs[0];
        if !grid_in_bounds(rec.coords) {
            Err(MapParseError::UnitInIllegalPosition(rec.coords))
        } else if cells[grid_index(rec.coords)] is Some {
            Err(MapParseError::MultipleRemovesSamePosition(rec.coords))
        } else {
            spec_fill_removes(
                cells.update(
                    grid_index(rec.coords),
                    Some(spec_unit_of_record(RemoveUnitType, rec, owner)),
                ),
                recs.drop_first(),
                owner,
            )
        }
    }
}

/// Place upgrade-marker records one by one, rejecting off-board and
/// doubled records.
pub open spec fn spec_fill_upgrades(
    cells: Seq<Option<Unit<UpgradeUnitType>>>,
    recs: Seq<PlayerUnit>,
    owner: PlayerId,
) -> Result<Seq<Option<Unit<UpgradeUnitType>>>, MapParseError>
    decreases recs.len(),
{
    if recs.len() == 0 {
        Ok(cells)
    } else {
        let rec = recs[0];
        if !grid_in_bounds(rec.coords) {
            Err(MapParseError::UnitInIllegalPosition(rec.coords))
        } else if cells[grid_index(rec.coords)] is Some {
            Err(MapParseError::MultipleUpgradesSamePosition(rec.coords))
        } else {
            spec_fill_upgrades(
                cells.update(
                    grid_index(rec.coords),
                    Some(spec_unit_of_record(UpgradeUnitType, rec, owner)),
                ),
                recs.drop_first(),
                owner,
            )
        }
    }
}

/// Place mobile-unit records one by one: any number may share a cell, so
/// only off-board records fail the frame.
pub open spec fn spec_fill_mobiles(
    cells: Seq<Seq<Unit<MobileUnitType>>>,
    recs: Seq<PlayerUnit>,
    t: MobileUnitType,
    owner: PlayerId,
) -> Result<Seq<Seq<Unit<MobileUnitType>>>, MapParseError>
    decreases recs.len(),
{
    if recs.len() == 0 {
        Ok(cells)
    } else {
        let rec = recs[0];
        if !grid_in_bounds(rec.coords) {
            Err(MapParseError::UnitInIllegalPosition(rec.coords))
        } else {
            spec_fill_mobiles(
                cells.update(
                    grid_index(rec.coords),
                    cells[grid_index(rec.coords)].push(spec_unit_of_record(t, rec, owner)),
                ),
                recs.drop_first(),
                t,
                owner,
            )
        }
    }
}

/// The per-cell views of a grid of unit sequences.
pub open spec fn spec_mobile_views(cells: Seq<Vec<Unit<MobileUnitType>>>) -> Seq<
    Seq<Unit<MobileUnitType>>,
> {
    cells.map_values(|v: Vec<Unit<MobileUnitType>>| v@)
}

/// Fill structure records into the walls layer.
fn fill_structures(
    walls: &mut Grid<Option<Unit<StructureUnitType>>>,
    recs: &Vec<PlayerUnit>,
    t: StructureUnitType,
    owner: PlayerId,
) -> (r: Result<(), MapParseError>)
    requires
        old(walls).wf(),
    ensures
        final(walls).wf(),
        r is Ok ==> spec_fill_structures(old(walls)@, recs@, t, owner) == Ok::<
            _,
            MapParseError,
        >(final(walls)@),
        r matches Err(e) ==> spec_fill_structures(old(walls)@, recs@, t, owner) == Err::<
            Seq<Option<Unit<StructureUnitType>>>,
            _,
        >(e),
{
    let n = recs.len();
    proof {
        assert(recs@.skip(0) =~= recs@);
    }
    for i in 0..n
        invariant
            n == recs@.len(),
            walls.wf(),
            spec_fill_structures(old(walls)@, recs@, t, owner) == spec_fill_structures(
                walls@,
                recs@.skip(i as int),
                t,
                owner,
            ),
    {
        let rec = &recs[i];
        let c = rec.coords;
        proof {
            assert(recs@.skip(i as int)[0] == recs@[i as int]);
            assert(recs@.skip(i as int).drop_first() =~= recs@.skip(i as int + 1));
        }
        match walls.get(c) {
            None => {
                return Err(MapParseError::UnitInIllegalPosition(c));
            },
            Some(Some(_)) => {
                return Err(MapParseError::MultipleWallsSamePosition(c));
            },
            Some(None) => (),
        }
        let unit = Unit {
            unit_type: t,
            health: rec.stability,
            id: Some(rec.unit_id.clone()),
            owner,
        };
        let _ = walls.set(c, Some(unit));
    }
    proof {
        assert(recs@.skip(n as int) =~= Seq::<PlayerUnit>::empty());
    }
    Ok(())
}

/// Fill removal-marker records into the removal layer.
fn fill_removes(
    removes: &mut Grid<Option<Unit<RemoveUnitType>>>,
    recs: &Vec<PlayerUnit>,
    owner: PlayerId,
) -> (r: Result<(), MapParseError>)
    requires
        old(removes).wf(),
    ensures
        final(removes).wf(),
        r is Ok ==> spec_fill_removes(old(removes)@, recs@, owner) == Ok::<_, MapParseError>(
            final(removes)@,
        ),
        r matches Err(e) ==> spec_fill_removes(old(removes)@, recs@, owner) == Err::<
            Seq<Option<Unit<RemoveUnitType>>>,
            _,
        >(e),
{
    let n = recs.len();
    proof {
        assert(recs@.skip(0) =~= recs@);
    }
    for i in 0..n
        invariant
            n == recs@.len(),
            removes.wf(),
            spec_fill_removes(old(removes)@, recs@, owner) == spec_fill_removes(
                removes@,
                recs@.skip(i as int),
                owner,
            ),
    {
        let rec = &recs[i];
        let c = rec.coords;
        proof {
            assert(recs@.skip(i as int)[0] == recs@[i as int]);
            assert(recs@.skip(i as int).drop_first() =~= recs@.skip(i as int + 1));
        }
        match removes.get(c) {
            None => {
                return Err(MapParseError::UnitInIllegalPosition(c));
            },
            Some(Some(_)) => {
                return Err(MapParseError::MultipleRemovesSamePosition(c));
            },
            Some(None) => (),
        }
        let unit = Unit {
            unit_type: RemoveUnitType,
            health: rec.stability,
            id: Some(rec.unit_id.clone()),
            owner,
        };
        let _ = removes.set(c, Some(unit));
    }
    proof {
        assert(recs@.skip(n as int) =~= Seq::<PlayerUnit>::empty());
    }
    Ok(())
}

/// Fill upgrade-marker records into the upgrade layer.
fn fill_upgrades(
    upgrades: &mut Grid<Option<Unit<UpgradeUnitType>>>,
    recs: &Vec<PlayerUnit>,
    owner: PlayerId,
) -> (r: Result<(), MapParseError>)
    requires
        old(upgrades).wf(),
    ensures
        final(upgrades).wf(),
        r is Ok ==> spec_fill_upgrades(old(upgrades)@, recs@, owner) == Ok::<_, MapParseError>(
            final(upgrades)@,
        ),
        r matches Err(e) ==> spec_fill_upgrades(old(upgrades)@, recs@, owner) == Err::<
            Seq<Option<Unit<UpgradeUnitType>>>,
            _,
        >(e),
{
    let n = recs.len();
    proof {
        assert(recs@.skip(0) =~= recs@);
    }
    for i in 0..n
        invariant
            n == recs@.len(),
            upgrades.wf(),
            spec_fill_upgrades(old(upgrades)@, recs@, owner) == spec_fill_upgrades(
                upgrades@,
                recs@.skip(i as int),
                owner,
            ),
    {
        let rec = &recs[i];
        let c = rec.coords;
        proof {
            assert(recs@.skip(i as int)[0] == recs@[i as int]);
            assert(recs@.skip(i as int).drop_first() =~= recs@.skip(i as int + 1));
        }
        match upgrades.get(c) {
            None => {
                return Err(MapParseError::UnitInIllegalPosition(c));
            },
            Some(Some(_)) => {
                return Err(MapParseError::MultipleUpgradesSamePosition(c));
            },
            Some(None) => (),
        }
        let unit = Unit {
            unit_type: UpgradeUnitType,
            health: rec.stability,
            id: Some(rec.unit_id.clone()),
            owner,
        };
        let _ = upgrades.set(c, Some(unit));
    }
    proof {
        assert(recs@.skip(n as int) =~= Seq::<PlayerUnit>::empty());
    }
    Ok(())
}

/// Fill mobile-unit records into the mobile layer.
fn fill_mobiles(
    mobiles: &mut Grid<Vec<Unit<MobileUnitType>>>,
    recs: &Vec<PlayerUnit>,
    t: MobileUnitType,
    owner: PlayerId,
) -> (r: Result<(), MapParseError>)
    requires
        old(mobiles).wf(),
    ensures
        final(mobiles).wf(),
        r is Ok ==> spec_fill_mobiles(spec_mobile_views(old(mobiles)@), recs@, t, owner) == Ok::<
            _,
            MapParseError,
        >(spec_mobile_views(final(mobiles)@)),
        r matches Err(e) ==> spec_fill_mobiles(spec_mobile_views(old(mobiles)@), recs@, t, owner)
            == Err::<Seq<Seq<Unit<MobileUnitType>>>, _>(e),
{
    let n = recs.len();
    proof {
        assert(recs@.skip(0) =~= recs@);
    }
    for i in 0..n
        invariant
            n == recs@.len(),
            mobiles.wf(),
            spec_fill_mobiles(spec_mobile_views(old(mobiles)@), recs@, t, owner)
                == spec_fill_mobiles(spec_mobile_views(mobiles@), recs@.skip(i as int), t, owner),
    {
        let rec = &recs[i];
        let c = rec.coords;
        proof {
            assert(recs@.skip(i as int)[0] == recs@[i as int]);
            assert(recs@.skip(i as int).drop_first() =~= recs@.skip(i as int + 1));
        }
        if c.x < 0 || c.y < 0 || c.x >= (crate::bounds::BOARD_SIZE as i32) || c.y >= (
        crate::bounds::BOARD_SIZE as i32) {
            return Err(MapParseError::UnitInIllegalPosition(c));
        }
        let ghost before = spec_mobile_views(mobiles@);
        let unit = Unit {
            unit_type: t,
            health: rec.stability,
            id: Some(rec.unit_id.clone()),
            owner,
        };
        let _ = mobiles.push_at(c, unit);
        proof {
            assert(spec_mobile_views(mobiles@) =~= before.update(
                grid_index(c),
                before[grid_index(c)].push(spec_unit_of_record(t, *rec, owner)),
            ));
        }
    }
    proof {
        assert(recs@.skip(n as int) =~= Seq::<PlayerUnit>::empty());
    }
    Ok(())
}

/// The four occupancy layers of a parsed frame.
pub type ParsedLayers = (
    Seq<Option<Unit<StructureUnitType>>>,
    Seq<Seq<Unit<MobileUnitType>>>,
    Seq<Option<Unit<RemoveUnitType>>>,
    Seq<Option<Unit<UpgradeUnitType>>>,
);

/// Place one player's records: mobile units first (scouts, demolishers,
/// interceptors), then structures (walls, supports, turrets), then removal
/// markers, then upgrade markers.
pub open spec fn spec_parse_player(
    layers: ParsedLayers,
    units: PlayerUnits,
    owner: PlayerId,
) -> Result<ParsedLayers, MapParseError> {
    match spec_fill_mobiles(layers.1, units.scout@, MobileUnitType::Scout, owner) {
        Err(e) => Err(e),
        Ok(m1) => match spec_fill_mobiles(m1, units.demolisher@, MobileUnitType::Demolisher, owner) {
            Err(e) => Err(e),
            Ok(m2) => match spec_fill_mobiles(
                m2,
                units.interceptor@,
                MobileUnitType::Interceptor,
                owner,
            ) {
                Err(e) => Err(e),
                Ok(m3) => match spec_fill_structures(
                    layers.0,
                    units.wall@,
                    StructureUnitType::Wall,
                    owner,
                ) {
                    Err(e) => Err(e),
                    Ok(w1) => match spec_fill_structures(
                        w1,
                        units.support@,
                        StructureUnitType::Support,
                        owner,
                    ) {
                        Err(e) => Err(e),
                        Ok(w2) => match spec_fill_structures(
                            w2,
                            units.turret@,
                            StructureUnitType::Turret,
                            owner,
                        ) {
                            Err(e) => Err(e),
                            Ok(w3) => match spec_fill_removes(layers.2, units.remove@, owner) {
                                Err(e) => Err(e),
                                Ok(r1) => match spec_fill_upgrades(
                                    layers.3,
                                    units.upgrade@,
                                    owner,
                                ) {
                                    Err(e) => Err(e),
                                    Ok(u1) => Ok((w3, m3, r1, u1)),
                                },
                            },
                        },
                    },
                },
            },
        },
    }
}

/// Empty occupancy layers.
pub open spec fn spec_empty_layers() -> ParsedLayers {
    (
        Seq::new((BOARD_SIZE * BOARD_SIZE) as nat, |i: int| None::<Unit<StructureUnitType>>),
        Seq::new((BOARD_SIZE * BOARD_SIZE) as nat, |i: int| Seq::<Unit<MobileUnitType>>::empty()),
        Seq::new((BOARD_SIZE * BOARD_SIZE) as nat, |i: int| None::<Unit<RemoveUnitType>>),
        Seq::new((BOARD_SIZE * BOARD_SIZE) as nat, |i: int| None::<Unit<UpgradeUnitType>>),
    )
}

/// The occupancy layers a frame describes: player 1's records first, then
/// player 2's, or the first error met.
pub open spec fn spec_parse_frame(p1_units: PlayerUnits, p2_units: PlayerUnits) -> Result<
    ParsedLayers,
    MapParseError,
> {
    match spec_parse_player(spec_empty_layers(), p1_units, PlayerId::Player1) {
        Err(e) => Err(e),
        Ok(layers) => spec_parse_player(layers, p2_units, PlayerId::Player2),
    }
}

/// Attempt to build a map state from a deserialized frame: both players'
/// unit records, player 1's resource balances, and the unit type atlas.
///
/// A record off the board, or two structures, removal markers or upgrade
/// markers claiming one cell, fail the whole frame; there is no partial
/// map state.
pub fn parse_frame(
    p1_units: &PlayerUnits,
    p2_units: &PlayerUnits,
    cores: u64,
    bits: u64,
    atlas: UnitTypeAtlas,
) -> (r: Result<MapState, MapParseError>)
    ensures
        r matches Ok(state) ==> ({
            &&& spec_parse_frame(*p1_units, *p2_units) matches Ok(layers)
            &&& state.wf()
            &&& (forall|c: Coords|
                grid_in_bounds(c) ==> #[trigger] state.wall_at(c) == layers.0[grid_index(c)])
            &&& (forall|c: Coords|
                grid_in_bounds(c) ==> #[trigger] state.mobile_at(c) == layers.1[grid_index(c)])
            &&& (forall|c: Coords|
                grid_in_bounds(c) ==> #[trigger] state.remove_at(c) == layers.2[grid_index(c)])
            &&& (forall|c: Coords|
                grid_in_bounds(c) ==> #[trigger] state.upgrade_at(c) == layers.3[grid_index(c)])
            &&& state.spec_cores() == cores
            &&& state.spec_bits() == bits
            &&& state.spec_atlas() == atlas
            &&& state.spec_build_stack() == Seq::<crate::map::SpawnCommand>::empty()
            &&& state.spec_deploy_stack() == Seq::<crate::map::SpawnCommand>::empty()
        }),
        r matches Err(e) ==> spec_parse_frame(*p1_units, *p2_units) == Err::<ParsedLayers, _>(e),
{
    let mut walls: Grid<Option<Unit<StructureUnitType>>> = grid_of_none();
    let mut mobile: Grid<Vec<Unit<MobileUnitType>>> = grid_of_empty_vecs();
    let mut remove: Grid<Option<Unit<RemoveUnitType>>> = grid_of_none();
    let mut upgrade: Grid<Option<Unit<UpgradeUnitType>>> = grid_of_none();
    proof {
        assert(walls@ =~= spec_empty_layers().0);
        assert(spec_mobile_views(mobile@) =~= spec_empty_layers().1);
        assert(remove@ =~= spec_empty_layers().2);
        assert(upgrade@ =~= spec_empty_layers().3);
    }

    match fill_mobiles(&mut mobile, &p1_units.scout, MobileUnitType::Scout, PlayerId::Player1) {
        Ok(()) => (),
        Err(e) => {
            return Err(e);
        },
    }
    match fill_mobiles(
        &mut mobile,
        &p1_units.demolisher,
        MobileUnitType::Demolisher,
        PlayerId::Player1,
    ) {
        Ok(()) => (),
        Err(e) => {
            return Err(e);
        },
    }
    match fill_mobiles(
        &mut mobile,
        &p1_units.interceptor,
        MobileUnitType::Interceptor,
        PlayerId::Player1,
    ) {
        Ok(()) => (),
        Err(e) => {
            return Err(e);
        },
    }
    match fill_structures(&mut walls, &p1_units.wall, StructureUnitType::Wall, PlayerId::Player1) {
        Ok(()) => (),
        Err(e) => {
            return Err(e);
        },
    }
    match fill_structures(
        &mut walls,
        &p1_units.support,
        StructureUnitType::Support,
        PlayerId::Player1,
    ) {
        Ok(()) => (),
        Err(e) => {
            return Err(e);
        },
    }
    match fill_structures(
        &mut walls,
        &p1_units.turret,
        StructureUnitType::Turret,
        PlayerId::Player1,
    ) {
        Ok(()) => (),
        Err(e) => {
            return Err(e);
        },
    }
    match fill_removes(&mut remove, &p1_units.remove, PlayerId::Player1) {
        Ok(()) => (),
        Err(e) => {
            return Err(e);
        },
    }
    match fill_upgrades(&mut upgrade, &p1_units.upgrade, PlayerId::Player1) {
        Ok(()) => (),
        Err(e) => {
            return Err(e);
        },
    }

    match fill_mobiles(&mut mobile, &p2_units.scout, MobileUnitType::Scout, PlayerId::Player2) {
        Ok(()) => (),
        Err(e) => {
            return Err(e);
        },
    }
    match fill_mobiles(
        &mut mobile,
        &p2_units.demolisher,
        MobileUnitType::Demolisher,
        PlayerId::Player2,
    ) {
        Ok(()) => (),
        Err(e) => {
            return Err(e);
        },
    }
    match fill_mobiles(
        &mut mobile,
        &p2_units.interceptor,
        MobileUnitType::Interceptor,
        PlayerId::Player2,
    ) {
        Ok(()) => (),
        Err(e) => {
            return Err(e);
        },
    }
    match fill_structures(&mut walls, &p2_units.wall, StructureUnitType::Wall, PlayerId::Player2) {
        Ok(()) => (),
        Err(e) => {
            return Err(e);
        },
    }
    match fill_structures(
        &mut walls,
        &p2_units.support,
        StructureUnitType::Support,
        PlayerId::Player2,
    ) {
        Ok(()) => (),
        Err(e) => {
            return Err(e);
        },
    }
    match fill_structures(
        &mut walls,
        &p2_units.turret,
        StructureUnitType::Turret,
        PlayerId::Player2,
    ) {
        Ok(()) => (),
        Err(e) => {
            return Err(e);
        },
    }
    match fill_removes(&mut remove, &p2_units.remove, PlayerId::Player2) {
        Ok(()) => (),
        Err(e) => {
            return Err(e);
        },
    }
    match fill_upgrades(&mut upgrade, &p2_units.upgrade, PlayerId::Player2) {
        Ok(()) => (),
        Err(e) => {
            return Err(e);
        },
    }

    Ok(MapState::from_grids(walls, mobile, remove, upgrade, cores, bits, atlas))
}

} // verus!
