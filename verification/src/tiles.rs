//! Owned tile handles: coordinate tokens validated against the arena, and
//! the bulk accessor that detects coordinate collisions.
//!
//! The board exposes many simultaneous read/write views addressed by
//! coordinate. To keep two live mutable views from aliasing one cell, the
//! bulk accessor hands out owned, pre-validated tokens instead of live
//! references, and rejects every request that names a coordinate twice.

use vstd::prelude::*;

use crate::bounds::{in_diamond, MapBounds};
use crate::coords::Coords;
use crate::map::{spec_try_remove_step, spec_try_spawn_step, CanRemove, CanSpawn, MapState};
use crate::units::SpawnableUnitType;

verus! {

/// Error type for attempting an operation on an invalid tile.
#[derive(Copy, Clone, PartialEq, Eq, Structural, Debug)]
pub struct InvalidTile(pub Coords);

/// Error that occurs when retrieving multiple tile handles at once, due to
/// requesting the same tile twice.
#[derive(Copy, Clone, PartialEq, Eq, Structural, Debug)]
pub struct RequestedSameTileTwice(pub Coords);

/// Error that occurs when retrieving multiple tile handles at once.
#[derive(Copy, Clone, PartialEq, Eq, Structural, Debug)]
pub enum GetMultipleStateTilesError {
    RequestedSameTileTwice(Coords),
    InvalidCoord(Coords),
}

/// An owned token naming a cell inside the arena.
///
/// A handle can only be obtained through a geometry-checked lookup, so the
/// coordinate it carries always lies in the arena diamond.
#[derive(Copy, Clone, PartialEq, Eq, Structural, Debug)]
pub struct TileHandle {
    coords: Coords,
}

impl TileHandle {
    #[verifier::type_invariant]
    spec fn wf(&self) -> bool {
        in_diamond(self.coords.x as int, self.coords.y as int)
    }

    /// The coordinate this handle names.
    pub closed spec fn spec_coords(&self) -> Coords {
        self.coords
    }

    /// Get the coordinates of this tile.
    pub fn coords(&self) -> (r: Coords)
        ensures
            r == self.spec_coords(),
            in_diamond(r.x as int, r.y as int),
    {
        proof {
            use_type_invariant(self);
        }
        self.coords
    }
}


/// The board after attempting to spawn at each coordinate in order: every
/// coordinate whose decision chain said yes at its turn is spawned with the
/// full spawn effect, the others leave the board untouched, and `count`
/// totals the successes.
pub open spec fn spec_attempt_spawn_fold(
    pre: MapState,
    post: MapState,
    coords: Seq<Coords>,
    unit_type: SpawnableUnitType,
    count: int,
) -> bool
    decreases coords.len(),
{
    if coords.len() == 0 {
        post == pre && count == 0
    } else {
        let took: int = if pre.spec_can_spawn(coords[0], unit_type.spec_unit_type(), 1)
            == CanSpawn::Yes {
            1
        } else {
            0
        };
        exists|mid: MapState|
            #[trigger] spec_try_spawn_step(pre, mid, coords[0], unit_type)
                && spec_attempt_spawn_fold(mid, post, coords.drop_first(), unit_type, count - took)
    }
}

/// The board after attempting to mark each coordinate for removal in
/// order, counting the successes.
pub open spec fn spec_attempt_remove_fold(
    pre: MapState,
    post: MapState,
    coords: Seq<Coords>,
    count: int,
) -> bool
    decreases coords.len(),
{
    if coords.len() == 0 {
        post == pre && count == 0
    } else {
        let took: int = if pre.spec_can_remove_structure(coords[0]) == CanRemove::Yes {
            1
        } else {
            0
        };
        exists|mid: MapState|
            #[trigger] spec_try_remove_step(pre, mid, coords[0])
                && spec_attempt_remove_fold(mid, post, coords.drop_first(), count - took)
    }
}

/// Extending a spawn fold by one more attempted coordinate.
proof fn lemma_attempt_spawn_fold_snoc(
    pre: MapState,
    mid: MapState,
    post: MapState,
    coords: Seq<Coords>,
    c: Coords,
    unit_type: SpawnableUnitType,
    count: int,
)
    requires
        spec_attempt_spawn_fold(pre, mid, coords, unit_type, count),
        spec_try_spawn_step(mid, post, c, unit_type),
    ensures
        spec_attempt_spawn_fold(
            pre,
            post,
            coords.push(c),
            unit_type,
            count + (if mid.spec_can_spawn(c, unit_type.spec_unit_type(), 1) == CanSpawn::Yes {
                1int
            } else {
                0int
            }),
        ),
    decreases coords.len(),
{
    let took_c: int = if mid.spec_can_spawn(c, unit_type.spec_unit_type(), 1) == CanSpawn::Yes {
        1
    } else {
        0
    };
    if coords.len() == 0 {
        assert(mid == pre && count == 0);
        assert(coords.push(c)[0] == c);
        assert(coords.push(c).drop_first() =~= Seq::<Coords>::empty());
        assert(spec_try_spawn_step(pre, post, c, unit_type) && spec_attempt_spawn_fold(
            post,
            post,
            coords.push(c).drop_first(),
            unit_type,
            0,
        ));
    } else {
        let took0: int = if pre.spec_can_spawn(coords[0], unit_type.spec_unit_type(), 1)
            == CanSpawn::Yes {
            1
        } else {
            0
        };
        let m1 = choose|m1: MapState|
            #[trigger] spec_try_spawn_step(pre, m1, coords[0], unit_type)
                && spec_attempt_spawn_fold(
                m1,
                mid,
                coords.drop_first(),
                unit_type,
                count - took0,
            );
        lemma_attempt_spawn_fold_snoc(
            m1,
            mid,
            post,
            coords.drop_first(),
            c,
            unit_type,
            count - took0,
        );
        assert(coords.push(c)[0] == coords[0]);
        assert(coords.push(c).drop_first() =~= coords.drop_first().push(c));
        assert(spec_try_spawn_step(pre, m1, coords.push(c)[0], unit_type)
            && spec_attempt_spawn_fold(
            m1,
            post,
            coords.push(c).drop_first(),
            unit_type,
            (count + took_c) - took0,
        ));
    }
}

/// Extending a removal fold by one more attempted coordinate.
proof fn lemma_attempt_remove_fold_snoc(
    pre: MapState,
    mid: MapState,
    post: MapState,
    coords: Seq<Coords>,
    c: Coords,
    count: int,
)
    requires
        spec_attempt_remove_fold(pre, mid, coords, count),
        spec_try_remove_step(mid, post, c),
    ensures
        spec_attempt_remove_fold(
            pre,
            post,
            coords.push(c),
            count + (if mid.spec_can_remove_structure(c) == CanRemove::Yes {
                1int
            } else {
                0int
            }),
        ),
    decreases coords.len(),
{
    let took_c: int = if mid.spec_can_remove_structure(c) == CanRemove::Yes {
        1
    } else {
        0
    };
    if coords.len() == 0 {
        assert(mid == pre && count == 0);
        assert(coords.push(c)[0] == c);
        assert(coords.push(c).drop_first() =~= Seq::<Coords>::empty());
        assert(spec_try_remove_step(pre, post, c) && spec_attempt_remove_fold(
            post,
            post,
            coords.push(c).drop_first(),
            0,
        ));
    } else {
        let took0: int = if pre.spec_can_remove_structure(coords[0]) == CanRemove::Yes {
            1
        } else {
            0
        };
        let m1 = choose|m1: MapState|
            #[trigger] spec_try_remove_step(pre, m1, coords[0]) && spec_attempt_remove_fold(
                m1,
                mid,
                coords.drop_first(),
                count - took0,
            );
        lemma_attempt_remove_fold_snoc(m1, mid, post, coords.drop_first(), c, count - took0);
        assert(coords.push(c)[0] == coords[0]);
        assert(coords.push(c).drop_first() =~= coords.drop_first().push(c));
        assert(spec_try_remove_step(pre, m1, coords.push(c)[0]) && spec_attempt_remove_fold(
            m1,
            post,
            coords.push(c).drop_first(),
            (count + took_c) - took0,
        ));
    }
}

impl MapState {
    /// The tile handle at some coords, or `None` when the coordinate lies
    /// outside the arena.
    pub fn tile(&self, bounds: &MapBounds, c: Coords) -> (r: Option<TileHandle>)
        ensures
            r is Some <==> in_diamond(c.x as int, c.y as int),
            r is Some ==> r->Some_0.spec_coords() == c,
    {
        if bounds.is_in_arena(c) {
            Some(TileHandle { coords: c })
        } else {
            None
        }
    }

    /// Attempt to retrieve tile handles for several coordinates at once.
    ///
    /// A request outside the arena fails with `InvalidCoord`; a coordinate
    /// named more than once fails with `RequestedSameTileTwice` on every
    /// request that names it; all other requests succeed independently.
    pub fn multiple_tiles(&self, bounds: &MapBounds, coords: &Vec<Coords>) -> (r: Vec<
        Result<TileHandle, GetMultipleStateTilesError>,
    >)
        ensures
            r@.len() == coords@.len(),
            forall|i: int|
                0 <= i < coords@.len() && !in_diamond(coords@[i].x as int, coords@[i].y as int)
                    ==> #[trigger] r@[i] == Result::<TileHandle, GetMultipleStateTilesError>::Err(
                    GetMultipleStateTilesError::InvalidCoord(coords@[i]),
                ),
            forall|i: int|
                0 <= i < coords@.len() && in_diamond(coords@[i].x as int, coords@[i].y as int) && (
                exists|j: int| 0 <= j < coords@.len() && j != i && coords@[j] == coords@[i])
                    ==> #[trigger] r@[i] == Result::<TileHandle, GetMultipleStateTilesError>::Err(
                    GetMultipleStateTilesError::RequestedSameTileTwice(coords@[i]),
                ),
            forall|i: int|
                0 <= i < coords@.len() && in_diamond(coords@[i].x as int, coords@[i].y as int) && (
                forall|j: int| 0 <= j < coords@.len() && j != i ==> coords@[j] != coords@[i])
                    ==> (#[trigger] r@[i] matches Ok(h) && h.spec_coords() == coords@[i]),
    {
        let n = coords.len();
        let mut out: Vec<Result<TileHandle, GetMultipleStateTilesError>> = Vec::new();
        for i in 0..n
            invariant
                n == coords@.len(),
                out@.len() == i,
                forall|k: int|
                    0 <= k < i && !in_diamond(coords@[k].x as int, coords@[k].y as int)
                        ==> #[trigger] out@[k] == Result::<
                        TileHandle,
                        GetMultipleStateTilesError,
                    >::Err(GetMultipleStateTilesError::InvalidCoord(coords@[k])),
                forall|k: int|
                    0 <= k < i && in_diamond(coords@[k].x as int, coords@[k].y as int) && (
                    exists|j: int| 0 <= j < coords@.len() && j != k && coords@[j] == coords@[k])
                        ==> #[trigger] out@[k] == Result::<
                        TileHandle,
                        GetMultipleStateTilesError,
                    >::Err(GetMultipleStateTilesError::RequestedSameTileTwice(coords@[k])),
                forall|k: int|
                    0 <= k < i && in_diamond(coords@[k].x as int, coords@[k].y as int) && (
                    forall|j: int| 0 <= j < coords@.len() && j != k ==> coords@[j] != coords@[k])
                        ==> (#[trigger] out@[k] matches Ok(h) && h.spec_coords() == coords@[k]),
        {
            let c = coords[i];
            if !bounds.is_in_arena(c) {
                out.push(Err(GetMultipleStateTilesError::InvalidCoord(c)));
            } else {
                // scan for another request naming the same coordinate
                let mut duplicated = false;
                for j in 0..n
                    invariant
                        n == coords@.len(),
                        i < n,
                        c == coords@[i as int],
                        duplicated == exists|j2: int|
                            0 <= j2 < j && j2 != i && coords@[j2] == coords@[i as int],
                {
                    if j != i && coords[j] == c {
                        duplicated = true;
                    }
                }
                if duplicated {
                    out.push(Err(GetMultipleStateTilesError::RequestedSameTileTwice(c)));
                } else {
                    out.push(Ok(TileHandle { coords: c }));
                }
            }
        }
        out
    }

    /// Attempt to spawn a unit type at several coords, returning the number
    /// of successes, or failing if a coordinate is outside the arena. This
    /// operation is not atomic in terms of success/failure: requests before
    /// the offending coordinate have already been applied.
    pub fn attempt_spawn_multiple(
        &mut self,
        bounds: &MapBounds,
        coords: &Vec<Coords>,
        unit_type: SpawnableUnitType,
    ) -> (r: Result<u32, InvalidTile>)
        requires
            old(self).wf(),
            coords@.len() <= u32::MAX,
        ensures
            final(self).wf(),
            final(self).spec_atlas() == old(self).spec_atlas(),
            r matches Ok(count) ==> spec_attempt_spawn_fold(
                *old(self),
                *final(self),
                coords@,
                unit_type,
                count as int,
            ),
            r matches Ok(count) ==> count <= coords@.len(),
            r is Ok ==> (forall|i: int|
                0 <= i < coords@.len() ==> in_diamond(
                    #[trigger] coords@[i].x as int,
                    coords@[i].y as int,
                )),
            r matches Err(e) ==> exists|i: int|
                {
                    &&& 0 <= i < coords@.len()
                    &&& coords@[i] == e.0
                    &&& !in_diamond(e.0.x as int, e.0.y as int)
                    &&& (forall|j: int|
                        0 <= j < i ==> in_diamond(
                            (#[trigger] coords@[j]).x as int,
                            coords@[j].y as int,
                        ))
                    &&& (exists|applied: int| #[trigger] spec_attempt_spawn_fold(
                        *old(self),
                        *final(self),
                        coords@.take(i),
                        unit_type,
                        applied,
                    ))
                },
    {
        let mut successful: u32 = 0;
        let n = coords.len();
        proof {
            assert(coords@.take(0) =~= Seq::<Coords>::empty());
        }
        for i in 0..n
            invariant
                self.wf(),
                self.spec_atlas() == old(self).spec_atlas(),
                n == coords@.len(),
                n <= u32::MAX,
                successful <= i,
                forall|k: int|
                    0 <= k < i ==> in_diamond(#[trigger] coords@[k].x as int, coords@[k].y as int),
                spec_attempt_spawn_fold(
                    *old(self),
                    *self,
                    coords@.take(i as int),
                    unit_type,
                    successful as int,
                ),
        {
            let c = coords[i];
            if !bounds.is_in_arena(c) {
                return Err(InvalidTile(c));
            }
            proof {
                crate::bounds::lemma_diamond_in_bounds(c.x as int, c.y as int);
            }
            let ghost before = *self;
            if self.try_spawn(bounds, c, unit_type) {
                successful = successful + 1;
            }
            proof {
                assert(spec_try_spawn_step(before, *self, c, unit_type));
                lemma_attempt_spawn_fold_snoc(
                    *old(self),
                    before,
                    *self,
                    coords@.take(i as int),
                    c,
                    unit_type,
                    (successful as int) - (
                    if before.spec_can_spawn(c, unit_type.spec_unit_type(), 1) == CanSpawn::Yes {
                        1int
                    } else {
                        0int
                    }),
                );
                assert(coords@.take(i as int).push(c) =~= coords@.take(i as int + 1));
            }
        }
        proof {
            assert(coords@.take(n as int) =~= coords@);
        }
        Ok(successful)
    }

    /// Attempt to remove structures at several coords, returning the number
    /// of successes, or failing if a coordinate is outside the arena. This
    /// operation is not atomic in terms of success/failure: requests before
    /// the offending coordinate have already been applied.
    pub fn attempt_remove_multiple(&mut self, bounds: &MapBounds, coords: &Vec<Coords>) -> (r:
        Result<u32, InvalidTile>)
        requires
            old(self).wf(),
            coords@.len() <= u32::MAX,
        ensures
            final(self).wf(),
            final(self).spec_atlas() == old(self).spec_atlas(),
            r matches Ok(count) ==> spec_attempt_remove_fold(
                *old(self),
                *final(self),
                coords@,
                count as int,
            ),
            r matches Ok(count) ==> count <= coords@.len(),
            r is Ok ==> (forall|i: int|
                0 <= i < coords@.len() ==> in_diamond(
                    #[trigger] coords@[i].x as int,
                    coords@[i].y as int,
                )),
            r matches Err(e) ==> exists|i: int|
                {
                    &&& 0 <= i < coords@.len()
                    &&& coords@[i] == e.0
                    &&& !in_diamond(e.0.x as int, e.0.y as int)
                    &&& (forall|j: int|
                        0 <= j < i ==> in_diamond(
                            (#[trigger] coords@[j]).x as int,
                            coords@[j].y as int,
                        ))
                    &&& (exists|applied: int| #[trigger] spec_attempt_remove_fold(
                        *old(self),
                        *final(self),
                        coords@.take(i),
                        applied,
                    ))
                },
    {
        let mut successful: u32 = 0;
        let n = coords.len();
        proof {
            assert(coords@.take(0) =~= Seq::<Coords>::empty());
        }
        for i in 0..n
            invariant
                self.wf(),
                self.spec_atlas() == old(self).spec_atlas(),
                n == coords@.len(),
                n <= u32::MAX,
                successful <= i,
                forall|k: int|
                    0 <= k < i ==> in_diamond(#[trigger] coords@[k].x as int, coords@[k].y as int),
                spec_attempt_remove_fold(
                    *old(self),
                    *self,
                    coords@.take(i as int),
                    successful as int,
                ),
        {
            let c = coords[i];
            if !bounds.is_in_arena(c) {
                return Err(InvalidTile(c));
            }
            proof {
                crate::bounds::lemma_diamond_in_bounds(c.x as int, c.y as int);
            }
            let ghost before = *self;
            if self.try_remove_structure(bounds, c) {
                successful = successful + 1;
            }
            proof {
                assert(spec_try_remove_step(before, *self, c));
                lemma_attempt_remove_fold_snoc(
                    *old(self),
                    before,
                    *self,
                    coords@.take(i as int),
                    c,
                    (successful as int) - (
                    if before.spec_can_remove_structure(c) == CanRemove::Yes {
                        1int
                    } else {
                        0int
                    }),
                );
                assert(coords@.take(i as int).push(c) =~= coords@.take(i as int + 1));
            }
        }
        proof {
            assert(coords@.take(n as int) =~= coords@);
        }
        Ok(successful)
    }
}

} // verus!
