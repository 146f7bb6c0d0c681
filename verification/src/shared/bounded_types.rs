//! Bounded numeric newtypes. Each value always lies within its type's `[MIN, MAX]`.
use vstd::prelude::*;

verus! {

/// Hit points. Always within `[1, 9999]`.
#[derive(Clone, Copy, Debug, PartialEq, Eq)]
pub struct Hp(u16);

impl View for Hp {
    type V = u16;

    closed spec fn view(&self) -> u16 {
        self.0
    }
}

impl Hp {
    pub const MIN: u16 = 1;
    pub const MAX: u16 = 9999;

    #[verifier::type_invariant]
    spec fn inv(self) -> bool {
        1 <= self.0 <= 9999
    }

    /// Build a value, clamping `val` into `[MIN, MAX]`.
    pub fn new(val: u16) -> (r: Self)
        ensures
            r@ == (if val < 1 { 1 as int } else if val > 9999 { 9999 as int } else { val as int }),
    {
        if val < 1 {
            Hp(1)
        } else if val > 9999 {
            Hp(9999)
        } else {
            Hp(val)
        }
    }

    /// Build a value that is already known to be within bounds.
    pub fn new_unchecked(val: u16) -> (r: Self)
        requires
            1 <= val <= 9999,
        ensures
            r@ == val,
    {
        Hp(val)
    }

    pub fn get(self) -> (r: u16)
        ensures
            r == self@,
            1 <= r <= 9999,
    {
        proof {
            use_type_invariant(&self);
        }
        self.0
    }
}

/// A base combat statistic (ATK, DEF, MAG, SPD). Always within `[0, 9999]`.
#[derive(Clone, Copy, Debug, PartialEq, Eq)]
pub struct BaseStat(u16);

impl View for BaseStat {
    type V = u16;

    closed spec fn view(&self) -> u16 {
        self.0
    }
}

impl BaseStat {
    pub const MIN: u16 = 0;
    pub const MAX: u16 = 9999;

    #[verifier::type_invariant]
    spec fn inv(self) -> bool {
        0 <= self.0 <= 9999
    }

    /// Build a value, clamping `val` into `[MIN, MAX]`.
    pub fn new(val: u16) -> (r: Self)
        ensures
            r@ == (if val > 9999 { 9999 as int } else { val as int }),
    {
        if val > 9999 {
            BaseStat(9999)
        } else {
            BaseStat(val)
        }
    }

    /// Build a value that is already known to be within bounds.
    pub fn new_unchecked(val: u16) -> (r: Self)
        requires
            0 <= val <= 9999,
        ensures
            r@ == val,
    {
        BaseStat(val)
    }

    pub fn get(self) -> (r: u16)
        ensures
            r == self@,
            0 <= r <= 9999,
    {
        proof {
            use_type_invariant(&self);
        }
        self.0
    }
}

/// A signed stat modifier granted by gear, djinn or buffs. Always within `[-999, 999]`.
#[derive(Clone, Copy, Debug, PartialEq, Eq)]
pub struct StatMod(i16);

impl View for StatMod {
    type V = i16;

    closed spec fn view(&self) -> i16 {
        self.0
    }
}

impl StatMod {
    pub const MIN: i16 = -999;
    pub const MAX: i16 = 999;

    #[verifier::type_invariant]
    spec fn inv(self) -> bool {
        -999 <= self.0 <= 999
    }

    /// Build a value, clamping `val` into `[MIN, MAX]`.
    pub fn new(val: i16) -> (r: Self)
        ensures
            r@ == (if val < -999 { -999 as int } else if val > 999 { 999 as int } else { val as int }),
    {
        if val < -999 {
            StatMod(-999)
        } else if val > 999 {
            StatMod(999)
        } else {
            StatMod(val)
        }
    }

    /// Build a value that is already known to be within bounds.
    pub fn new_unchecked(val: i16) -> (r: Self)
        requires
            -999 <= val <= 999,
        ensures
            r@ == val,
    {
        StatMod(val)
    }

    pub fn get(self) -> (r: i16)
        ensures
            r == self@,
            -999 <= r <= 999,
    {
        proof {
            use_type_invariant(&self);
        }
        self.0
    }
}

/// Per-level stat growth. Always within `[0, 999]`.
#[derive(Clone, Copy, Debug, PartialEq, Eq)]
pub struct GrowthRate(u16);

impl View for GrowthRate {
    type V = u16;

    closed spec fn view(&self) -> u16 {
        self.0
    }
}

impl GrowthRate {
    pub const MIN: u16 = 0;
    pub const MAX: u16 = 999;

    #[verifier::type_invariant]
    spec fn inv(self) -> bool {
        0 <= self.0 <= 999
    }

    /// Build a value, clamping `val` into `[MIN, MAX]`.
    pub fn new(val: u16) -> (r: Self)
        ensures
            r@ == (if val > 999 { 999 as int } else { val as int }),
    {
        if val > 999 {
            GrowthRate(999)
        } else {
            GrowthRate(val)
        }
    }

    /// Build a value that is already known to be within bounds.
    pub fn new_unchecked(val: u16) -> (r: Self)
        requires
            0 <= val <= 999,
        ensures
            r@ == val,
    {
        GrowthRate(val)
    }

    pub fn get(self) -> (r: u16)
        ensures
            r == self@,
            0 <= r <= 999,
    {
        proof {
            use_type_invariant(&self);
        }
        self.0
    }
}

/// A unit level. Always within `[1, 99]`.
#[derive(Clone, Copy, Debug, PartialEq, Eq)]
pub struct Level(u8);

impl View for Level {
    type V = u8;

    closed spec fn view(&self) -> u8 {
        self.0
    }
}

impl Level {
    pub const MIN: u8 = 1;
    pub const MAX: u8 = 99;

    #[verifier::type_invariant]
    spec fn inv(self) -> bool {
        1 <= self.0 <= 99
    }

    /// Build a value, clamping `val` into `[MIN, MAX]`.
    pub fn new(val: u8) -> (r: Self)
        ensures
            r@ == (if val < 1 { 1 as int } else if val > 99 { 99 as int } else { val as int }),
    {
        if val < 1 {
            Level(1)
        } else if val > 99 {
            Level(99)
        } else {
            Level(val)
        }
    }

    /// Build a value that is already known to be within bounds.
    pub fn new_unchecked(val: u8) -> (r: Self)
        requires
            1 <= val <= 99,
        ensures
            r@ == val,
    {
        Level(val)
    }

    pub fn get(self) -> (r: u8)
        ensures
            r == self@,
            1 <= r <= 99,
    {
        proof {
            use_type_invariant(&self);
        }
        self.0
    }
}

/// Experience points. Always within `[0, 9999999]`.
#[derive(Clone, Copy, Debug, PartialEq, Eq)]
pub struct Xp(u32);

impl View for Xp {
    type V = u32;

    closed spec fn view(&self) -> u32 {
        self.0
    }
}

impl Xp {
    pub const MIN: u32 = 0;
    pub const MAX: u32 = 9999999;

    #[verifier::type_invariant]
    spec fn inv(self) -> bool {
        0 <= self.0 <= 9999999
    }

    /// Build a value, clamping `val` into `[MIN, MAX]`.
    pub fn new(val: u32) -> (r: Self)
        ensures
            r@ == (if val > 9999999 { 9999999 as int } else { val as int }),
    {
        if val > 9999999 {
            Xp(9999999)
        } else {
            Xp(val)
        }
    }

    /// Build a value that is already known to be within bounds.
    pub fn new_unchecked(val: u32) -> (r: Self)
        requires
            0 <= val <= 9999999,
        ensures
            r@ == val,
    {
        Xp(val)
    }

    pub fn get(self) -> (r: u32)
        ensures
            r == self@,
            0 <= r <= 9999999,
    {
        proof {
            use_type_invariant(&self);
        }
        self.0
    }
}

/// An amount of gold. Always within `[0, 9999999]`.
#[derive(Clone, Copy, Debug, PartialEq, Eq)]
pub struct Gold(u32);

impl View for Gold {
    type V = u32;

    closed spec fn view(&self) -> u32 {
        self.0
    }
}

impl Gold {
    pub const MIN: u32 = 0;
    pub const MAX: u32 = 9999999;

    #[verifier::type_invariant]
    spec fn inv(self) -> bool {
        0 <= self.0 <= 9999999
    }

    /// Build a value, clamping `val` into `[MIN, MAX]`.
    pub fn new(val: u32) -> (r: Self)
        ensures
            r@ == (if val > 9999999 { 9999999 as int } else { val as int }),
    {
        if val > 9999999 {
            Gold(9999999)
        } else {
            Gold(val)
        }
    }

    /// Build a value that is already known to be within bounds.
    pub fn new_unchecked(val: u32) -> (r: Self)
        requires
            0 <= val <= 9999999,
        ensures
            r@ == val,
    {
        Gold(val)
    }

    pub fn get(self) -> (r: u32)
        ensures
            r == self@,
            0 <= r <= 9999999,
    {
        proof {
            use_type_invariant(&self);
        }
        self.0
    }
}

/// A positive item count. Always within `[1, 99]`.
#[derive(Clone, Copy, Debug, PartialEq, Eq)]
pub struct ItemCount(u8);

impl View for ItemCount {
    type V = u8;

    closed spec fn view(&self) -> u8 {
        self.0
    }
}

impl ItemCount {
    pub const MIN: u8 = 1;
    pub const MAX: u8 = 99;

    #[verifier::type_invariant]
    spec fn inv(self) -> bool {
        1 <= self.0 <= 99
    }

    /// Build a value, clamping `val` into `[MIN, MAX]`.
    pub fn new(val: u8) -> (r: Self)
        ensures
            r@ == (if val < 1 { 1 as int } else if val > 99 { 99 as int } else { val as int }),
    {
        if val < 1 {
            ItemCount(1)
        } else if val > 99 {
            ItemCount(99)
        } else {
            ItemCount(val)
        }
    }

    /// Build a value that is already known to be within bounds.
    pub fn new_unchecked(val: u8) -> (r: Self)
        requires
            1 <= val <= 99,
        ensures
            r@ == val,
    {
        ItemCount(val)
    }

    pub fn get(self) -> (r: u8)
        ensures
            r == self@,
            1 <= r <= 99,
    {
        proof {
            use_type_invariant(&self);
        }
        self.0
    }
}

/// A mana amount (ability cost, gain per hit, mana contribution). Always within `[0, 99]`.
#[derive(Clone, Copy, Debug, PartialEq, Eq)]
pub struct ManaCost(u8);

impl View for ManaCost {
    type V = u8;

    closed spec fn view(&self) -> u8 {
        self.0
    }
}

impl ManaCost {
    pub const MIN: u8 = 0;
    pub const MAX: u8 = 99;

    #[verifier::type_invariant]
    spec fn inv(self) -> bool {
        0 <= self.0 <= 99
    }

    /// Build a value, clamping `val` into `[MIN, MAX]`.
    pub fn new(val: u8) -> (r: Self)
        ensures
            r@ == (if val > 99 { 99 as int } else { val as int }),
    {
        if val > 99 {
            ManaCost(99)
        } else {
            ManaCost(val)
        }
    }

    /// Build a value that is already known to be within bounds.
    pub fn new_unchecked(val: u8) -> (r: Self)
        requires
            0 <= val <= 99,
        ensures
            r@ == val,
    {
        ManaCost(val)
    }

    pub fn get(self) -> (r: u8)
        ensures
            r == self@,
            0 <= r <= 99,
    {
        proof {
            use_type_invariant(&self);
        }
        self.0
    }
}

/// Base power of an ability. Always within `[0, 9999]`.
#[derive(Clone, Copy, Debug, PartialEq, Eq)]
pub struct BasePower(u16);

impl View for BasePower {
    type V = u16;

    closed spec fn view(&self) -> u16 {
        self.0
    }
}

impl BasePower {
    pub const MIN: u16 = 0;
    pub const MAX: u16 = 9999;

    #[verifier::type_invariant]
    spec fn inv(self) -> bool {
        0 <= self.0 <= 9999
    }

    /// Build a value, clamping `val` into `[MIN, MAX]`.
    pub fn new(val: u16) -> (r: Self)
        ensures
            r@ == (if val > 9999 { 9999 as int } else { val as int }),
    {
        if val > 9999 {
            BasePower(9999)
        } else {
            BasePower(val)
        }
    }

    /// Build a value that is already known to be within bounds.
    pub fn new_unchecked(val: u16) -> (r: Self)
        requires
            0 <= val <= 9999,
        ensures
            r@ == val,
    {
        BasePower(val)
    }

    pub fn get(self) -> (r: u16)
        ensures
            r == self@,
            0 <= r <= 9999,
    {
        proof {
            use_type_invariant(&self);
        }
        self.0
    }
}

/// Number of hits of an ability. Always within `[1, 9]`.
#[derive(Clone, Copy, Debug, PartialEq, Eq)]
pub struct HitCount(u8);

impl View for HitCount {
    type V = u8;

    closed spec fn view(&self) -> u8 {
        self.0
    }
}

impl HitCount {
    pub const MIN: u8 = 1;
    pub const MAX: u8 = 9;

    #[verifier::type_invariant]
    spec fn inv(self) -> bool {
        1 <= self.0 <= 9
    }

    /// Build a value, clamping `val` into `[MIN, MAX]`.
    pub fn new(val: u8) -> (r: Self)
        ensures
            r@ == (if val < 1 { 1 as int } else if val > 9 { 9 as int } else { val as int }),
    {
        if val < 1 {
            HitCount(1)
        } else if val > 9 {
            HitCount(9)
        } else {
            HitCount(val)
        }
    }

    /// Build a value that is already known to be within bounds.
    pub fn new_unchecked(val: u8) -> (r: Self)
        requires
            1 <= val <= 9,
        ensures
            r@ == val,
    {
        HitCount(val)
    }

    pub fn get(self) -> (r: u8)
        ensures
            r == self@,
            1 <= r <= 9,
    {
        proof {
            use_type_invariant(&self);
        }
        self.0
    }
}

/// Djinn tier. Always within `[1, 3]`.
#[derive(Clone, Copy, Debug, PartialEq, Eq)]
pub struct DjinnTier(u8);

impl View for DjinnTier {
    type V = u8;

    closed spec fn view(&self) -> u8 {
        self.0
    }
}

impl DjinnTier {
    pub const MIN: u8 = 1;
    pub const MAX: u8 = 3;

    #[verifier::type_invariant]
    spec fn inv(self) -> bool {
        1 <= self.0 <= 3
    }

    /// Build a value, clamping `val` into `[MIN, MAX]`.
    pub fn new(val: u8) -> (r: Self)
        ensures
            r@ == (if val < 1 { 1 as int } else if val > 3 { 3 as int } else { val as int }),
    {
        if val < 1 {
            DjinnTier(1)
        } else if val > 3 {
            DjinnTier(3)
        } else {
            DjinnTier(val)
        }
    }

    /// Build a value that is already known to be within bounds.
    pub fn new_unchecked(val: u8) -> (r: Self)
        requires
            1 <= val <= 3,
        ensures
            r@ == val,
    {
        DjinnTier(val)
    }

    pub fn get(self) -> (r: u8)
        ensures
            r == self@,
            1 <= r <= 3,
    {
        proof {
            use_type_invariant(&self);
        }
        self.0
    }
}

/// Steps needed before an encounter check fires. Always within `[0, 100]`.
#[derive(Clone, Copy, Debug, PartialEq, Eq)]
pub struct EncounterRate(u8);

impl View for EncounterRate {
    type V = u8;

    closed spec fn view(&self) -> u8 {
        self.0
    }
}

impl EncounterRate {
    pub const MIN: u8 = 0;
    pub const MAX: u8 = 100;

    #[verifier::type_invariant]
    spec fn inv(self) -> bool {
        0 <= self.0 <= 100
    }

    /// Build a value, clamping `val` into `[MIN, MAX]`.
    pub fn new(val: u8) -> (r: Self)
        ensures
            r@ == (if val > 100 { 100 as int } else { val as int }),
    {
        if val > 100 {
            EncounterRate(100)
        } else {
            EncounterRate(val)
        }
    }

    /// Build a value that is already known to be within bounds.
    pub fn new_unchecked(val: u8) -> (r: Self)
        requires
            0 <= val <= 100,
        ensures
            r@ == val,
    {
        EncounterRate(val)
    }

    pub fn get(self) -> (r: u8)
        ensures
            r == self@,
            0 <= r <= 100,
    {
        proof {
            use_type_invariant(&self);
        }
        self.0
    }
}

/// Maximum party size. Always within `[1, 4]`.
#[derive(Clone, Copy, Debug, PartialEq, Eq)]
pub struct MaxPartySize(u8);

impl View for MaxPartySize {
    type V = u8;

    closed spec fn view(&self) -> u8 {
        self.0
    }
}

impl MaxPartySize {
    pub const MIN: u8 = 1;
    pub const MAX: u8 = 4;

    #[verifier::type_invariant]
    spec fn inv(self) -> bool {
        1 <= self.0 <= 4
    }

    /// Build a value, clamping `val` into `[MIN, MAX]`.
    pub fn new(val: u8) -> (r: Self)
        ensures
            r@ == (if val < 1 { 1 as int } else if val > 4 { 4 as int } else { val as int }),
    {
        if val < 1 {
            MaxPartySize(1)
        } else if val > 4 {
            MaxPartySize(4)
        } else {
            MaxPartySize(val)
        }
    }

    /// Build a value that is already known to be within bounds.
    pub fn new_unchecked(val: u8) -> (r: Self)
        requires
            1 <= val <= 4,
        ensures
            r@ == val,
    {
        MaxPartySize(val)
    }

    pub fn get(self) -> (r: u8)
        ensures
            r == self@,
            1 <= r <= 4,
    {
        proof {
            use_type_invariant(&self);
        }
        self.0
    }
}

/// Maximum djinn equipped per unit. Always within `[0, 3]`.
#[derive(Clone, Copy, Debug, PartialEq, Eq)]
pub struct MaxEquippedDjinn(u8);

impl View for MaxEquippedDjinn {
    type V = u8;

    closed spec fn view(&self) -> u8 {
        self.0
    }
}

impl MaxEquippedDjinn {
    pub const MIN: u8 = 0;
    pub const MAX: u8 = 3;

    #[verifier::type_invariant]
    spec fn inv(self) -> bool {
        0 <= self.0 <= 3
    }

    /// Build a value, clamping `val` into `[MIN, MAX]`.
    pub fn new(val: u8) -> (r: Self)
        ensures
            r@ == (if val > 3 { 3 as int } else { val as int }),
    {
        if val > 3 {
            MaxEquippedDjinn(3)
        } else {
            MaxEquippedDjinn(val)
        }
    }

    /// Build a value that is already known to be within bounds.
    pub fn new_unchecked(val: u8) -> (r: Self)
        requires
            0 <= val <= 3,
        ensures
            r@ == val,
    {
        MaxEquippedDjinn(val)
    }

    pub fn get(self) -> (r: u8)
        ensures
            r == self@,
            0 <= r <= 3,
    {
        proof {
            use_type_invariant(&self);
        }
        self.0
    }
}

/// Maximum buff stacks. Always within `[1, 9]`.
#[derive(Clone, Copy, Debug, PartialEq, Eq)]
pub struct MaxBuffStacks(u8);

impl View for MaxBuffStacks {
    type V = u8;

    closed spec fn view(&self) -> u8 {
        self.0
    }
}

impl MaxBuffStacks {
    pub const MIN: u8 = 1;
    pub const MAX: u8 = 9;

    #[verifier::type_invariant]
    spec fn inv(self) -> bool {
        1 <= self.0 <= 9
    }

    /// Build a value, clamping `val` into `[MIN, MAX]`.
    pub fn new(val: u8) -> (r: Self)
        ensures
            r@ == (if val < 1 { 1 as int } else if val > 9 { 9 as int } else { val as int }),
    {
        if val < 1 {
            MaxBuffStacks(1)
        } else if val > 9 {
            MaxBuffStacks(9)
        } else {
            MaxBuffStacks(val)
        }
    }

    /// Build a value that is already known to be within bounds.
    pub fn new_unchecked(val: u8) -> (r: Self)
        requires
            1 <= val <= 9,
        ensures
            r@ == val,
    {
        MaxBuffStacks(val)
    }

    pub fn get(self) -> (r: u8)
        ensures
            r == self@,
            1 <= r <= 9,
    {
        proof {
            use_type_invariant(&self);
        }
        self.0
    }
}

} // verus!
