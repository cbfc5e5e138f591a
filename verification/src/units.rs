//! Unit types in the game, and the atlas translating between unit types,
//! integers, and shorthand strings.

use vstd::prelude::*;

use crate::messages::UnitInformation;

verus! {

/// Any unit type, including the remove and upgrade types.
#[derive(Copy, Clone, PartialEq, Eq, Structural, Debug, Hash)]
pub enum UnitType {
    Wall,
    Support,
    Turret,
    Scout,
    Demolisher,
    Interceptor,
    Remove,
    Upgrade,
}

/// A type of structure unit.
#[derive(Copy, Clone, PartialEq, Eq, Structural, Debug, Hash)]
pub enum StructureUnitType {
    Wall,
    Support,
    Turret,
}

/// A type of mobile unit.
#[derive(Copy, Clone, PartialEq, Eq, Structural, Debug, Hash)]
pub enum MobileUnitType {
    Scout,
    Demolisher,
    Interceptor,
}

/// A unit-like struct which represents the remove unit type.
#[derive(Copy, Clone, PartialEq, Eq, Structural, Debug, Hash)]
pub struct RemoveUnitType;

/// A unit-like struct which represents the upgrade unit type.
#[derive(Copy, Clone, PartialEq, Eq, Structural, Debug, Hash)]
pub struct UpgradeUnitType;

/// The unit types which can be spawned; a union of `MobileUnitType` and
/// `StructureUnitType`.
#[derive(Copy, Clone, PartialEq, Eq, Structural, Debug, Hash)]
pub enum SpawnableUnitType {
    Mobile(MobileUnitType),
    Structure(StructureUnitType),
}

/// Position of a unit type in the fixed declared order of the
/// configuration's per-type records.
pub open spec fn unit_type_index(t: UnitType) -> int {
    match t {
        UnitType::Wall => 0,
        UnitType::Support => 1,
        UnitType::Turret => 2,
        UnitType::Scout => 3,
        UnitType::Demolisher => 4,
        UnitType::Interceptor => 5,
        UnitType::Remove => 6,
        UnitType::Upgrade => 7,
    }
}

/// The unit type at a position in the fixed declared order.
pub open spec fn unit_type_of_index(i: int) -> Option<UnitType> {
    if i == 0 {
        Some(UnitType::Wall)
    } else if i == 1 {
        Some(UnitType::Support)
    } else if i == 2 {
        Some(UnitType::Turret)
    } else if i == 3 {
        Some(UnitType::Scout)
    } else if i == 4 {
        Some(UnitType::Demolisher)
    } else if i == 5 {
        Some(UnitType::Interceptor)
    } else if i == 6 {
        Some(UnitType::Remove)
    } else if i == 7 {
        Some(UnitType::Upgrade)
    } else {
        None
    }
}

impl UnitType {
    /// The structure type with the same tag, if any.
    pub open spec fn spec_as_structure(self) -> Option<StructureUnitType> {
        match self {
            UnitType::Wall => Some(StructureUnitType::Wall),
            UnitType::Support => Some(StructureUnitType::Support),
            UnitType::Turret => Some(StructureUnitType::Turret),
            _ => None,
        }
    }

    /// The mobile type with the same tag, if any.
    pub open spec fn spec_as_mobile(self) -> Option<MobileUnitType> {
        match self {
            UnitType::Scout => Some(MobileUnitType::Scout),
            UnitType::Demolisher => Some(MobileUnitType::Demolisher),
            UnitType::Interceptor => Some(MobileUnitType::Interceptor),
            _ => None,
        }
    }

    /// The spawnable type with the same tag, if any.
    pub open spec fn spec_as_spawnable(self) -> Option<SpawnableUnitType> {
        if self.spec_as_mobile() is Some {
            Some(SpawnableUnitType::Mobile(self.spec_as_mobile()->Some_0))
        } else if self.spec_as_structure() is Some {
            Some(SpawnableUnitType::Structure(self.spec_as_structure()->Some_0))
        } else {
            None
        }
    }

    /// Attempt to convert to a StructureUnitType.
    pub fn as_structure(self) -> (r: Option<StructureUnitType>)
        ensures
            r == self.spec_as_structure(),
    {
        match self {
            UnitType::Wall => Some(StructureUnitType::Wall),
            UnitType::Support => Some(StructureUnitType::Support),
            UnitType::Turret => Some(StructureUnitType::Turret),
            _ => None,
        }
    }

    /// Whether self is a StructureUnitType.
    pub fn is_structure(self) -> (r: bool)
        ensures
            r == (self.spec_as_structure() is Some),
    {
        match self {
            UnitType::Wall | UnitType::Support | UnitType::Turret => true,
            _ => false,
        }
    }

    /// Attempt to convert to a MobileUnitType.
    pub fn as_mobile(self) -> (r: Option<MobileUnitType>)
        ensures
            r == self.spec_as_mobile(),
    {
        match self {
            UnitType::Scout => Some(MobileUnitType::Scout),
            UnitType::Demolisher => Some(MobileUnitType::Demolisher),
            UnitType::Interceptor => Some(MobileUnitType::Interceptor),
            _ => None,
        }
    }

    /// Whether self is a MobileUnitType.
    pub fn is_mobile(self) -> (r: bool)
        ensures
            r == (self.spec_as_mobile() is Some),
    {
        match self {
            UnitType::Scout | UnitType::Demolisher | UnitType::Interceptor => true,
            _ => false,
        }
    }

    /// Whether self is a unit type which can be spawned.
    pub fn is_spawnable(self) -> (r: bool)
        ensures
            r == (self.spec_as_spawnable() is Some),
    {
        self.is_structure() || self.is_mobile()
    }

    /// Attempt to convert to a SpawnableUnitType.
    pub fn as_spawnable(self) -> (r: Option<SpawnableUnitType>)
        ensures
            r == self.spec_as_spawnable(),
    {
        if let Some(mobile) = self.as_mobile() {
            Some(SpawnableUnitType::Mobile(mobile))
        } else if let Some(wall) = self.as_structure() {
            Some(SpawnableUnitType::Structure(wall))
        } else {
            None
        }
    }
}

impl StructureUnitType {
    /// The general unit type with the same tag.
    pub open spec fn spec_unit_type(self) -> UnitType {
        match self {
            StructureUnitType::Wall => UnitType::Wall,
            StructureUnitType::Support => UnitType::Support,
            StructureUnitType::Turret => UnitType::Turret,
        }
    }

    /// Convert into the general unit type.
    pub fn unit_type(self) -> (r: UnitType)
        ensures
            r == self.spec_unit_type(),
    {
        match self {
            StructureUnitType::Wall => UnitType::Wall,
            StructureUnitType::Support => UnitType::Support,
            StructureUnitType::Turret => UnitType::Turret,
        }
    }
}

impl MobileUnitType {
    /// The general unit type with the same tag.
    pub open spec fn spec_unit_type(self) -> UnitType {
        match self {
            MobileUnitType::Scout => UnitType::Scout,
            MobileUnitType::Demolisher => UnitType::Demolisher,
            MobileUnitType::Interceptor => UnitType::Interceptor,
        }
    }

    /// Convert into the general unit type.
    pub fn unit_type(self) -> (r: UnitType)
        ensures
            r == self.spec_unit_type(),
    {
        match self {
            MobileUnitType::Scout => UnitType::Scout,
            MobileUnitType::Demolisher => UnitType::Demolisher,
            MobileUnitType::Interceptor => UnitType::Interceptor,
        }
    }
}

impl SpawnableUnitType {
    /// The general unit type with the same tag.
    pub open spec fn spec_unit_type(self) -> UnitType {
        match self {
            SpawnableUnitType::Mobile(t) => t.spec_unit_type(),
            SpawnableUnitType::Structure(t) => t.spec_unit_type(),
        }
    }

    /// Convert into the general unit type.
    pub fn unit_type(self) -> (r: UnitType)
        ensures
            r == self.spec_unit_type(),
    {
        match self {
            SpawnableUnitType::Mobile(t) => t.unit_type(),
            SpawnableUnitType::Structure(t) => t.unit_type(),
        }
    }

    /// Is this a MobileUnitType?
    pub fn is_mobile(&self) -> (r: bool)
        ensures
            r == (self matches SpawnableUnitType::Mobile(_)),
    {
        match self {
            SpawnableUnitType::Mobile(_) => true,
            SpawnableUnitType::Structure(_) => false,
        }
    }

    /// Is this a StructureUnitType?
    pub fn is_structure(&self) -> (r: bool)
        ensures
            r == (self matches SpawnableUnitType::Structure(_)),
    {
        match self {
            SpawnableUnitType::Mobile(_) => false,
            SpawnableUnitType::Structure(_) => true,
        }
    }

    /// The inner mobile type, if any.
    pub fn into_mobile(self) -> (r: Option<MobileUnitType>)
        ensures
            r == (match self {
                SpawnableUnitType::Mobile(t) => Some(t),
                SpawnableUnitType::Structure(_) => None::<MobileUnitType>,
            }),
    {
        match self {
            SpawnableUnitType::Mobile(inner) => Some(inner),
            SpawnableUnitType::Structure(_) => None,
        }
    }

    /// The inner structure type, if any.
    pub fn into_structure(self) -> (r: Option<StructureUnitType>)
        ensures
            r == (match self {
                SpawnableUnitType::Structure(t) => Some(t),
                SpawnableUnitType::Mobile(_) => None::<StructureUnitType>,
            }),
    {
        match self {
            SpawnableUnitType::Structure(inner) => Some(inner),
            SpawnableUnitType::Mobile(_) => None,
        }
    }
}

impl RemoveUnitType {
    /// The general unit type with the same tag.
    pub fn unit_type(self) -> (r: UnitType)
        ensures
            r == UnitType::Remove,
    {
        UnitType::Remove
    }
}

impl UpgradeUnitType {
    /// The general unit type with the same tag.
    pub fn unit_type(self) -> (r: UnitType)
        ensures
            r == UnitType::Upgrade,
    {
        UnitType::Upgrade
    }
}

/// All unit types, in their fixed declared order.
pub fn all_unit_types() -> (r: [UnitType; 8])
    ensures
        r@.len() == 8,
        forall|i: int| 0 <= i < 8 ==> unit_type_of_index(i) == Some(#[trigger] r@[i]),
{
    let r = [
        UnitType::Wall,
        UnitType::Support,
        UnitType::Turret,
        UnitType::Scout,
        UnitType::Demolisher,
        UnitType::Interceptor,
        UnitType::Remove,
        UnitType::Upgrade,
    ];
    proof {
        assert(r@ =~= seq![
            UnitType::Wall,
            UnitType::Support,
            UnitType::Turret,
            UnitType::Scout,
            UnitType::Demolisher,
            UnitType::Interceptor,
            UnitType::Remove,
            UnitType::Upgrade,
        ]);
    }
    r
}

/// Translations between unit types, integers, and shorthand strings.
///
/// Holds one configuration record per unit type, in the fixed declared
/// order; every record carries a shorthand code.
pub struct UnitTypeAtlas {
    unit_information: Vec<UnitInformation>,
}

impl UnitTypeAtlas {
    #[verifier::type_invariant]
    spec fn wf(&self) -> bool {
        &&& self.unit_information@.len() == 8
        &&& forall|i: int| #![auto]
            0 <= i < 8 ==> self.unit_information@[i].shorthand is Some
    }

    /// The configuration record of a unit type.
    pub closed spec fn spec_info(&self, t: UnitType) -> UnitInformation {
        self.unit_information@[unit_type_index(t)]
    }

    /// The shorthand code of a unit type.
    pub open spec fn spec_shorthand(&self, t: UnitType) -> Seq<char> {
        self.spec_info(t).shorthand->Some_0@
    }

    /// Construct a UnitTypeAtlas from the 8 per-type records found in the
    /// configuration, in their declared order.
    pub fn new(unit_information: Vec<UnitInformation>) -> (r: UnitTypeAtlas)
        requires
            unit_information@.len() == 8,
            forall|i: int| #![auto] 0 <= i < 8 ==> unit_information@[i].shorthand is Some,
        ensures
            forall|t: UnitType| #![auto] r.spec_info(t) == unit_information@[unit_type_index(t)],
    {
        UnitTypeAtlas { unit_information }
    }

    /// Get the configuration record for a unit type.
    pub fn type_mobile(&self, unit_type: UnitType) -> (r: &UnitInformation)
        ensures
            *r == self.spec_info(unit_type),
            r.shorthand is Some,
    {
        proof {
            use_type_invariant(self);
        }
        let i: usize = match unit_type {
            UnitType::Wall => 0,
            UnitType::Support => 1,
            UnitType::Turret => 2,
            UnitType::Scout => 3,
            UnitType::Demolisher => 4,
            UnitType::Interceptor => 5,
            UnitType::Remove => 6,
            UnitType::Upgrade => 7,
        };
        &self.unit_information[i]
    }

    /// Convert a unit type integer into a UnitType.
    pub fn type_from_u32(&self, n: u32) -> (r: Option<UnitType>)
        ensures
            r == unit_type_of_index(n as int),
    {
        match n {
            0 => Some(UnitType::Wall),
            1 => Some(UnitType::Support),
            2 => Some(UnitType::Turret),
            3 => Some(UnitType::Scout),
            4 => Some(UnitType::Demolisher),
            5 => Some(UnitType::Interceptor),
            6 => Some(UnitType::Remove),
            7 => Some(UnitType::Upgrade),
            _ => None,
        }
    }

    /// The unit type whose shorthand is `s`, scanning the declared order so
    /// that on duplicate shorthands the later record wins.
    pub closed spec fn spec_lookup_from(&self, s: Seq<char>, i: int) -> Option<UnitType>
        decreases i,
    {
        if i <= 0 {
            None
        } else if self.spec_shorthand(unit_type_of_index(i - 1)->Some_0) == s && 1 <= i <= 8 {
            unit_type_of_index(i - 1)
        } else {
            self.spec_lookup_from(s, i - 1)
        }
    }

    /// The unit type whose shorthand is `s`, if any.
    pub closed spec fn spec_lookup(&self, s: Seq<char>) -> Option<UnitType> {
        self.spec_lookup_from(s, 8)
    }

    /// Convert a unit type shorthand into a UnitType.
    pub fn type_from_shorthand(&self, shorthand: &String) -> (r: Option<UnitType>)
        ensures
            r == self.spec_lookup(shorthand@),
    {
        proof {
            use_type_invariant(self);
        }
        let types = all_unit_types();
        let mut result: Option<UnitType> = None;
        for i in 0..8usize
            invariant
                self.wf(),
                types@.len() == 8,
                forall|j: int| 0 <= j < 8 ==> unit_type_of_index(j) == Some(#[trigger] types@[j]),
                result == self.spec_lookup_from(shorthand@, i as int),
        {
            let t = types[i];
            match &self.unit_information[i].shorthand {
                Some(sh) => {
                    if *sh == *shorthand {
                        result = Some(t);
                    }
                },
                None => (),
            }
            proof {
                assert(unit_type_of_index(i as int) == Some(t));
                assert(unit_type_index(t) == i as int);
                assert(self.spec_info(t) == self.unit_information@[i as int]);
                assert(self.spec_lookup_from(shorthand@, i as int + 1) == (
                    if self.spec_shorthand(t) == shorthand@ {
                        Some(t)
                    } else {
                        self.spec_lookup_from(shorthand@, i as int)
                    }
                ));
            }
        }
        result
    }

    /// An atlas holding exact copies of the same records.
    pub fn duplicate(&self) -> (r: UnitTypeAtlas)
        ensures
            forall|t: UnitType| #![auto] r.spec_info(t) == self.spec_info(t),
    {
        proof {
            use_type_invariant(self);
        }
        let mut infos: Vec<UnitInformation> = Vec::new();
        for i in 0..8usize
            invariant
                self.wf(),
                infos@.len() == i,
                forall|j: int| 0 <= j < i ==> #[trigger] infos@[j] == self.unit_information@[j],
        {
            infos.push(self.unit_information[i].duplicate());
        }
        UnitTypeAtlas { unit_information: infos }
    }

    /// What a scan of the table up to position `i` finds.
    proof fn lemma_lookup_from_props(&self, s: Seq<char>, i: int)
        requires
            0 <= i <= 8,
        ensures
            self.spec_lookup_from(s, i) matches Some(t) ==> (0 <= unit_type_index(t) < i
                && self.spec_shorthand(t) == s),
            self.spec_lookup_from(s, i) is None ==> (forall|j: int| #![auto]
                0 <= j < i ==> self.spec_shorthand(unit_type_of_index(j)->Some_0) != s),
        decreases i,
    {
        if i > 0 {
            self.lemma_lookup_from_props(s, i - 1);
        }
    }

    /// A lookup succeeds exactly on the configured shorthand codes, and
    /// the type found carries the looked-up code.
    pub proof fn lemma_lookup_characterized(&self, s: Seq<char>)
        ensures
            self.spec_lookup(s) is Some <==> (exists|t: UnitType| #[trigger] self.spec_shorthand(
                t,
            ) == s),
            self.spec_lookup(s) matches Some(t) ==> self.spec_shorthand(t) == s,
    {
        self.lemma_lookup_from_props(s, 8);
        if self.spec_lookup(s) is Some {
            let t = self.spec_lookup(s)->Some_0;
            assert(self.spec_shorthand(t) == s);
        }
        if exists|t: UnitType| #[trigger] self.spec_shorthand(t) == s {
            let t = choose|t: UnitType| #[trigger] self.spec_shorthand(t) == s;
            if self.spec_lookup(s) is None {
                assert(unit_type_of_index(unit_type_index(t)) == Some(t));
                assert(self.spec_shorthand(unit_type_of_index(unit_type_index(t))->Some_0) != s);
            }
        }
    }

    /// Looking up a type's own shorthand finds it again, as long as no
    /// other type shares that code.
    pub proof fn lemma_shorthand_round_trip(&self, t: UnitType)
        requires
            forall|u: UnitType|
                u != t ==> #[trigger] self.spec_shorthand(u) != self.spec_shorthand(t),
        ensures
            self.spec_lookup(self.spec_shorthand(t)) == Some(t),
    {
        let s = self.spec_shorthand(t);
        self.lemma_lookup_from_props(s, 8);
        if self.spec_lookup(s) is None {
            assert(unit_type_of_index(unit_type_index(t)) == Some(t));
            assert(self.spec_shorthand(unit_type_of_index(unit_type_index(t))->Some_0) != s);
        } else {
            let u = self.spec_lookup(s)->Some_0;
            assert(self.spec_shorthand(u) == s);
            if u != t {
                assert(self.spec_shorthand(u) != self.spec_shorthand(t));
            }
        }
    }

    /// Convert a unit type into its shorthand.
    pub fn type_into_shorthand(&self, unit_type: UnitType) -> (r: &str)
        ensures
            r@ == self.spec_shorthand(unit_type),
    {
        proof {
            use_type_invariant(self);
        }
        let info = self.type_mobile(unit_type);
        match &info.shorthand {
            Some(s) => s.as_str(),
            None => "",
        }
    }
}

} // verus!
