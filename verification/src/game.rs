//! The game-side library that compiled scripts use: handles of entities
//! and players, identifiers, the enumerations and events of the game, and
//! integer helpers.

use vstd::prelude::*;

use core::marker::PhantomData;

verus! {

// ---------------------------------------------------------------------------
// Identifiers: never zero.
// ---------------------------------------------------------------------------

/// The identifier of a preset entity.
#[derive(Clone, Copy, Debug, PartialEq, Eq, Structural)]
pub struct Guid(i64);

/// A faction.
#[derive(Clone, Copy, Debug, PartialEq, Eq, Structural)]
pub struct Faction(i64);

/// The id of a configuration.
#[derive(Clone, Copy, Debug, PartialEq, Eq, Structural)]
pub struct Config(i64);

/// The id of a prefab.
#[derive(Clone, Copy, Debug, PartialEq, Eq, Structural)]
pub struct Prefab(i64);

impl Guid {
    #[verifier::type_invariant]
    spec fn nonzero(self) -> bool {
        self.0 != 0
    }
}

impl View for Guid {
    type V = i64;

    closed spec fn view(&self) -> i64 {
        self.0
    }
}

impl Faction {
    #[verifier::type_invariant]
    spec fn nonzero(self) -> bool {
        self.0 != 0
    }
}

impl View for Faction {
    type V = i64;

    closed spec fn view(&self) -> i64 {
        self.0
    }
}

impl Config {
    #[verifier::type_invariant]
    spec fn nonzero(self) -> bool {
        self.0 != 0
    }
}

impl View for Config {
    type V = i64;

    closed spec fn view(&self) -> i64 {
        self.0
    }
}

impl Prefab {
    #[verifier::type_invariant]
    spec fn nonzero(self) -> bool {
        self.0 != 0
    }
}

impl View for Prefab {
    type V = i64;

    closed spec fn view(&self) -> i64 {
        self.0
    }
}

impl Guid {
    /// The identifier `value`, which is not zero.
    pub fn new(value: i64) -> (r: Self)
        requires
            value != 0,
        ensures
            r@ == value,
    {
        Guid(value)
    }

    /// The number of the identifier.
    pub fn get(&self) -> (r: i64)
        ensures
            r == self@,
            r != 0,
    {
        proof {
            use_type_invariant(self);
        }
        self.0
    }
}

impl Faction {
    /// The faction `value`, which is not zero.
    pub fn new(value: i64) -> (r: Self)
        requires
            value != 0,
        ensures
            r@ == value,
    {
        Faction(value)
    }

    pub fn get(&self) -> (r: i64)
        ensures
            r == self@,
            r != 0,
    {
        proof {
            use_type_invariant(self);
        }
        self.0
    }
}

impl Config {
    /// The configuration `value`, which is not zero.
    pub fn new(value: i64) -> (r: Self)
        requires
            value != 0,
        ensures
            r@ == value,
    {
        Config(value)
    }

    pub fn get(&self) -> (r: i64)
        ensures
            r == self@,
            r != 0,
    {
        proof {
            use_type_invariant(self);
        }
        self.0
    }
}

impl Prefab {
    /// The prefab `value`, which is not zero.
    pub fn new(value: i64) -> (r: Self)
        requires
            value != 0,
        ensures
            r@ == value,
    {
        Prefab(value)
    }

    pub fn get(&self) -> (r: i64)
        ensures
            r == self@,
            r != 0,
    {
        proof {
            use_type_invariant(self);
        }
        self.0
    }
}

// ---------------------------------------------------------------------------
// Entities and players.
// ---------------------------------------------------------------------------

/// A reference to an entity of the running game.
#[derive(Clone, Copy, Debug, PartialEq, Eq, Structural)]
pub struct Entity(pub u64);

/// A reference to an entity that is a player.
#[derive(Clone, Copy, Debug, PartialEq, Eq, Structural)]
pub struct Player(pub u64);

impl Entity {
    /// The same entity, seen as a player.
    pub fn as_player(self) -> (r: Player)
        ensures
            r.0 == self.0,
    {
        Player(self.0)
    }
}

impl Player {
    /// The same player, seen as an entity.
    pub fn as_entity(self) -> (r: Entity)
        ensures
            r.0 == self.0,
    {
        Entity(self.0)
    }
}

/// Seeing an entity as a player (`p`, what `as_player` gives) and that
/// player as an entity (`back`, what `as_entity` gives) gives the entity
/// again.
pub proof fn lemma_entity_player_roundtrip(e: Entity, p: Player, back: Entity)
    requires
        p.0 == e.0,
        back.0 == p.0,
    ensures
        back == e,
{
}

/// Seeing a player as an entity and that entity as a player gives the
/// player again.
pub proof fn lemma_player_entity_roundtrip(p: Player, e: Entity, back: Player)
    requires
        e.0 == p.0,
        back.0 == e.0,
    ensures
        back == p,
{
}

// ---------------------------------------------------------------------------
// Enumerations of the game, each item with the number the game gives it.
// ---------------------------------------------------------------------------

/// Why a character went down.
#[derive(Clone, Copy, Debug, PartialEq, Eq, Structural)]
pub enum DownCause {
    System,
    Normal,
    Abnormal,
}

impl DownCause {
    /// The number of the item in the game.
    pub open spec fn spec_code(self) -> i32 {
        match self {
            DownCause::System => 1605,
            DownCause::Normal => 1606,
            DownCause::Abnormal => 1607,
        }
    }

    pub fn code(&self) -> (r: i32)
        ensures
            r == self.spec_code(),
    {
        match self {
            DownCause::System => 1605,
            DownCause::Normal => 1606,
            DownCause::Abnormal => 1607,
        }
    }
}

/// How a player's round stands.
#[derive(Clone, Copy, Debug, PartialEq, Eq, Structural)]
pub enum SettlementStatus {
    Battle,
    Settled,
    Escape,
}

impl SettlementStatus {
    /// The number of the item in the game.
    pub open spec fn spec_code(self) -> i32 {
        match self {
            SettlementStatus::Battle => 0,
            SettlementStatus::Settled => 1,
            SettlementStatus::Escape => 2,
        }
    }

    pub fn code(&self) -> (r: i32)
        ensures
            r == self.spec_code(),
    {
        match self {
            SettlementStatus::Battle => 0,
            SettlementStatus::Settled => 1,
            SettlementStatus::Escape => 2,
        }
    }
}

/// What kind of entity an entity is.
#[derive(Clone, Copy, Debug, PartialEq, Eq, Structural)]
pub enum EntityKind {
    Stage,
    Object,
    Player,
    Character,
    Creation,
}

impl EntityKind {
    /// The number of the item in the game.
    pub open spec fn spec_code(self) -> i32 {
        match self {
            EntityKind::Stage => 1401,
            EntityKind::Object => 1402,
            EntityKind::Player => 1403,
            EntityKind::Character => 1404,
            EntityKind::Creation => 1405,
        }
    }

    pub fn code(&self) -> (r: i32)
        ensures
            r == self.spec_code(),
    {
        match self {
            EntityKind::Stage => 1401,
            EntityKind::Object => 1402,
            EntityKind::Player => 1403,
            EntityKind::Character => 1404,
            EntityKind::Creation => 1405,
        }
    }
}

/// An element of the game.
#[derive(Clone, Copy, Debug, PartialEq, Eq, Structural)]
pub enum ElementType {
    Pyro,
    Hydro,
    Anemo,
    Electro,
    Dendro,
    Cryo,
    Geo,
    Physical,
}

impl ElementType {
    /// The number of the item in the game.
    pub open spec fn spec_code(self) -> i32 {
        match self {
            ElementType::Pyro => 1501,
            ElementType::Hydro => 1502,
            ElementType::Anemo => 1503,
            ElementType::Electro => 1504,
            ElementType::Dendro => 1505,
            ElementType::Cryo => 1506,
            ElementType::Geo => 1507,
            ElementType::Physical => 1508,
        }
    }

    pub fn code(&self) -> (r: i32)
        ensures
            r == self.spec_code(),
    {
        match self {
            ElementType::Pyro => 1501,
            ElementType::Hydro => 1502,
            ElementType::Anemo => 1503,
            ElementType::Electro => 1504,
            ElementType::Dendro => 1505,
            ElementType::Cryo => 1506,
            ElementType::Geo => 1507,
            ElementType::Physical => 1508,
        }
    }
}

/// The frame that an offset is given in.
#[derive(Clone, Copy, Debug, PartialEq, Eq, Structural)]
pub enum CoordinateSystem {
    World,
    Local,
}

impl CoordinateSystem {
    /// The number of the item in the game.
    pub open spec fn spec_code(self) -> i32 {
        match self {
            CoordinateSystem::World => 0,
            CoordinateSystem::Local => 1,
        }
    }

    pub fn code(&self) -> (r: i32)
        ensures
            r == self.spec_code(),
    {
        match self {
            CoordinateSystem::World => 0,
            CoordinateSystem::Local => 1,
        }
    }
}

/// How a follower moves after its target.
#[derive(Clone, Copy, Debug, PartialEq, Eq, Structural)]
pub enum FollowType {
    Linear,
    Smooth,
    Animation,
}

impl FollowType {
    /// The number of the item in the game.
    pub open spec fn spec_code(self) -> i32 {
        match self {
            FollowType::Linear => 0,
            FollowType::Smooth => 1,
            FollowType::Animation => 2,
        }
    }

    pub fn code(&self) -> (r: i32)
        ensures
            r == self.spec_code(),
    {
        match self {
            FollowType::Linear => 0,
            FollowType::Smooth => 1,
            FollowType::Animation => 2,
        }
    }
}

// ---------------------------------------------------------------------------
// Events.
// ---------------------------------------------------------------------------

/// A character went down.
#[derive(Clone, Copy, Debug, PartialEq, Eq, Structural)]
pub struct CharacterDownEvent {
    pub character: Entity,
    pub cause: DownCause,
    pub source: Option<Entity>,
}

/// A character came back.
#[derive(Clone, Copy, Debug, PartialEq, Eq, Structural)]
pub struct CharacterReviveEvent {
    pub character: Entity,
}

/// All characters of a player are down.
#[derive(Clone, Copy, Debug, PartialEq, Eq, Structural)]
pub struct PlayerAllDownEvent {
    pub player: Player,
    pub cause: SettlementStatus,
}

/// A character went down abnormally and came back; the player is the one
/// affected.
#[derive(Clone, Copy, Debug, PartialEq, Eq, Structural)]
pub struct PlayerAbnormalReviveEvent {
    pub player: Player,
}

/// All characters of a player came back.
#[derive(Clone, Copy, Debug, PartialEq, Eq, Structural)]
pub struct PlayerRevivedEvent {
    pub player: Player,
}

// ---------------------------------------------------------------------------
// Collections of the game, by handle.
// ---------------------------------------------------------------------------

/// A list of the game, by its handle.
pub struct List<T> {
    pub handle: u64,
    pub marker: PhantomData<T>,
}

/// The types that can key a dictionary of the game.
pub trait DictKey {
}

impl DictKey for i32 {
}

impl DictKey for Guid {
}

impl DictKey for Entity {
}

impl DictKey for &'static str {
}

/// A dictionary of the game, by its handle.
pub struct Dict<K: DictKey, V> {
    pub handle: i32,
    pub marker: PhantomData<(K, V)>,
}

// ---------------------------------------------------------------------------
// Integer helpers.
// ---------------------------------------------------------------------------

/// Integer helpers that the game's kernels provide.
pub trait I32: Sized {
    /// A shift amount that the kernels accept.
    spec fn shift_ok(rhs: Self) -> bool;

    /// The logical right shift of `x` by `rhs`: zeros come in on the left.
    spec fn logical_shr(x: Self, rhs: Self) -> Self;

    /// The arithmetic right shift of `x` by `rhs`: copies of the sign bit
    /// come in on the left.
    spec fn arithmetic_shr(x: Self, rhs: Self) -> Self;

    /// Shifts right, zeros coming in on the left.
    fn ushr(self, rhs: Self) -> (r: Self)
        requires
            Self::shift_ok(rhs),
        ensures
            r == Self::logical_shr(self, rhs),
    ;

    /// Shifts right, the sign kept, by a logical shift and a mask.
    fn shr(self, rhs: Self) -> (r: Self)
        requires
            Self::shift_ok(rhs),
        ensures
            r == Self::arithmetic_shr(self, rhs),
    ;

    /// The exponent is not negative and the power fits the type.
    spec fn pow_ok(x: Self, rhs: Self) -> bool;

    /// `r` is `x` to the power `rhs`.
    spec fn raised(x: Self, rhs: Self, r: Self) -> bool;

    /// `self` to the power `rhs`.
    fn ipow(self, rhs: Self) -> (r: Self)
        requires
            Self::pow_ok(self, rhs),
        ensures
            Self::raised(self, rhs, r),
    ;
}

/// `b` to the power `e`.
pub open spec fn power(b: int, e: nat) -> int
    decreases e,
{
    if e == 0 {
        1
    } else {
        b * power(b, (e - 1) as nat)
    }
}

pub open spec fn abs(x: int) -> int {
    if x < 0 {
        -x
    } else {
        x
    }
}

proof fn lemma_power_abs(b: int, e: nat)
    ensures
        abs(power(b, e)) == power(abs(b), e),
    decreases e,
{
    if e > 0 {
        lemma_power_abs(b, (e - 1) as nat);
        let p = power(b, (e - 1) as nat);
        assert(abs(b * p) == abs(b) * abs(p)) by (nonlinear_arith);
    }
}

proof fn lemma_power_positive(b: int, e: nat)
    requires
        b >= 1,
    ensures
        power(b, e) >= 1,
    decreases e,
{
    if e > 0 {
        lemma_power_positive(b, (e - 1) as nat);
        let p = power(b, (e - 1) as nat);
        assert(b * p >= 1) by (nonlinear_arith)
            requires
                b >= 1,
                p >= 1,
        ;
    }
}

proof fn lemma_power_grows(b: int, e1: nat, e2: nat)
    requires
        b >= 2,
        e1 < e2,
    ensures
        power(b, e1) < power(b, e2),
    decreases e2,
{
    let p = power(b, (e2 - 1) as nat);
    lemma_power_positive(b, (e2 - 1) as nat);
    if e1 < e2 - 1 {
        lemma_power_grows(b, e1, (e2 - 1) as nat);
    }
    assert(b * p > p) by (nonlinear_arith)
        requires
            b >= 2,
            p >= 1,
    ;
}

proof fn lemma_power_small(b: int, e: nat)
    requires
        0 <= b <= 1,
    ensures
        0 <= power(b, e) <= 1,
    decreases e,
{
    if e > 0 {
        lemma_power_small(b, (e - 1) as nat);
        let p = power(b, (e - 1) as nat);
        assert(0 <= b * p <= 1) by (nonlinear_arith)
            requires
                0 <= b <= 1,
                0 <= p <= 1,
        ;
    }
}

impl I32 for i32 {
    open spec fn shift_ok(rhs: i32) -> bool {
        0 <= rhs < 32
    }

    open spec fn logical_shr(x: i32, rhs: i32) -> i32 {
        ((x as u32) >> (rhs as u32)) as i32
    }

    open spec fn arithmetic_shr(x: i32, rhs: i32) -> i32 {
        x >> (rhs as u32)
    }

    open spec fn pow_ok(x: i32, rhs: i32) -> bool {
        &&& rhs >= 0
        &&& i32::MIN <= power(x as int, rhs as nat) <= i32::MAX
    }

    open spec fn raised(x: i32, rhs: i32, r: i32) -> bool {
        r == power(x as int, rhs as nat)
    }

    fn ipow(self, rhs: i32) -> (r: i32) {
        let mut acc: i32 = 1;
        let mut i: i32 = 0;
        while i < rhs
            invariant
                0 <= i <= rhs,
                acc == power(self as int, i as nat),
                i32::MIN <= power(self as int, rhs as nat) <= i32::MAX,
            decreases rhs - i,
        {
            proof {
                let x = self as int;
                let next = power(x, (i + 1) as nat);
                lemma_power_abs(x, (i + 1) as nat);
                lemma_power_abs(x, rhs as nat);
                if abs(x) >= 2 {
                    if i + 1 < rhs {
                        lemma_power_grows(abs(x), (i + 1) as nat, rhs as nat);
                    }
                } else {
                    lemma_power_small(abs(x), (i + 1) as nat);
                }
                assert(i32::MIN <= next <= i32::MAX);
            }
            acc = self * acc;
            i = i + 1;
        }
        acc
    }

    fn ushr(self, rhs: i32) -> (r: i32) {
        let x = self as u32;
        let s = rhs as u32;
        (x >> s) as i32
    }

    fn shr(self, rhs: i32) -> (r: i32) {
        if rhs == 0 {
            assert(self >> 0u32 == self) by (bit_vector);
            return self;
        }
        let result = self.ushr(rhs);
        if self < 0 {
            let s = rhs as u32;
            let width: u32 = 32 - s;
            assert(1u32 << width >= 1) by (bit_vector)
                requires
                    width < 32,
            ;
            let low: u32 = (1u32 << width) - 1;
            let high: u32 = !low;
            let x = self;
            assert((((result as u32) | high) as i32) == x >> s) by (bit_vector)
                requires
                    x < 0,
                    1 <= s < 32,
                    result == (((x as u32) >> s) as i32),
                    width == 32 - s,
                    low == ((1u32 << width) - 1) as u32,
                    high == !low,
            ;
            ((result as u32) | high) as i32
        } else {
            let x = self;
            let s = rhs as u32;
            assert(result == x >> s) by (bit_vector)
                requires
                    x >= 0,
                    s < 32,
                    result == (((x as u32) >> s) as i32),
            ;
            result
        }
    }
}

// ---------------------------------------------------------------------------
// Boxes of the game's heap.
// ---------------------------------------------------------------------------

/// A value on the heap, owned by the box.
pub struct Box<T> {
    value: std::boxed::Box<T>,
}

impl<T> View for Box<T> {
    type V = T;

    closed spec fn view(&self) -> T {
        *self.value
    }
}

/// A shared borrow of the value of a box.
pub struct BoxRef<'a, T> {
    target: &'a T,
}

/// An exclusive borrow of the value of a box.
pub struct BoxRefMut<'a, T> {
    pub target: &'a mut T,
}

impl<T> Box<T> {
    /// A box holding `value`.
    pub fn new(value: T) -> (r: Self)
        ensures
            r@ == value,
    {
        Box { value: std::boxed::Box::new(value) }
    }

    /// The value of the box; the box is gone.
    pub fn into_inner(boxed: Self) -> (r: T)
        ensures
            r == boxed@,
    {
        *boxed.value
    }

    /// A shared borrow of the value.
    pub fn borrow(&self) -> (r: BoxRef<'_, T>)
        ensures
            r@ == self@,
    {
        BoxRef { target: &*self.value }
    }

    /// An exclusive borrow of the value; what the borrow leaves in it is
    /// the value of the box afterwards.
    pub fn borrow_mut(&mut self) -> (r: BoxRefMut<'_, T>)
        ensures
            *r.target == old(self)@,
            final(self)@ == *final(r.target),
    {
        BoxRefMut { target: &mut *self.value }
    }
}

impl<'a, T> View for BoxRef<'a, T> {
    type V = T;

    closed spec fn view(&self) -> T {
        *self.target
    }
}

impl<'a, T> View for BoxRefMut<'a, T> {
    type V = T;

    closed spec fn view(&self) -> T {
        *self.target
    }
}

impl<'a, T> BoxRef<'a, T> {
    /// The borrowed value.
    pub fn as_ref(&self) -> (r: &T)
        ensures
            *r == self@,
    {
        self.target
    }
}

impl<'a, T> BoxRefMut<'a, T> {
    /// The borrowed value, to change.
    pub fn as_mut(&mut self) -> (r: &mut T)
        ensures
            *r == *old(self).target,
            *final(self).target == *final(r),
            *final(final(self).target) == *final(old(self).target),
    {
        &mut *self.target
    }

    /// The borrowed value.
    pub fn as_ref(&self) -> (r: &T)
        ensures
            *r == self@,
    {
        &*self.target
    }
}

/// The value of a box; the box is gone.
pub fn unbox<T>(boxed: Box<T>) -> (r: T)
    ensures
        r == boxed@,
{
    Box::into_inner(boxed)
}

} // verus!
