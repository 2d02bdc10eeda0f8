use vstd::prelude::*;

verus! {

/// The bit pattern of the 64-bit floating-point number 64.
pub const F64_SIXTY_FOUR: u64 = 0x4050_0000_0000_0000;

/// The bit pattern of the 32-bit floating-point number 20.
pub const F32_TWENTY: u32 = 0x41A0_0000;

/// Where an entity is: three 64-bit floating-point coordinates, held as
/// their bit patterns.
#[derive(Clone, Copy, Debug, PartialEq, Eq, Structural)]
pub struct Position {
    pub x: u64,
    pub y: u64,
    pub z: u64,
}

impl Position {
    pub fn new(x: u64, y: u64, z: u64) -> (r: Self)
        ensures
            r == (Position { x, y, z }),
    {
        Self { x, y, z }
    }
}

/// Where an entity looks: yaw and pitch, two 32-bit floating-point numbers
/// held as their bit patterns.
#[derive(Clone, Copy, Debug, PartialEq, Eq, Structural)]
pub struct Rotation {
    pub yaw: u32,
    pub pitch: u32,
}

impl Rotation {
    pub fn new(yaw: u32, pitch: u32) -> (r: Self)
        ensures
            r == (Rotation { yaw, pitch }),
    {
        Self { yaw, pitch }
    }
}

/// How an entity moves: three 64-bit floating-point numbers held as their
/// bit patterns.
#[derive(Clone, Copy, Debug, PartialEq, Eq, Structural)]
pub struct Velocity {
    pub x: u64,
    pub y: u64,
    pub z: u64,
}

impl Velocity {
    pub fn new(x: u64, y: u64, z: u64) -> (r: Self)
        ensures
            r == (Velocity { x, y, z }),
    {
        Self { x, y, z }
    }

    /// No movement: the bit pattern of zero in every direction.
    pub fn zero() -> (r: Self)
        ensures
            r == (Velocity { x: 0, y: 0, z: 0 }),
    {
        Self { x: 0, y: 0, z: 0 }
    }
}

/// The number that the server gives an entity.
#[derive(Clone, Copy, Debug, PartialEq, Eq, Structural)]
pub struct EntityId {
    pub id: i32,
}

impl EntityId {
    pub fn new(id: i32) -> (r: Self)
        ensures
            r.id == id,
    {
        Self { id }
    }
}

/// The 128-bit identifier under which the outside knows an entity.
#[derive(Clone, Copy, Debug, PartialEq, Eq, Structural)]
pub struct EntityUuid {
    pub uuid: u128,
}

impl EntityUuid {
    pub fn from_uuid(uuid: u128) -> (r: Self)
        ensures
            r.uuid == uuid,
    {
        Self { uuid }
    }
}

/// The kind of an entity, as a tag.
#[derive(Clone, Debug)]
pub struct EntityType {
    pub tag: String,
}

impl EntityType {
    pub fn new(tag: String) -> (r: Self)
        ensures
            r.tag == tag,
    {
        Self { tag }
    }

    pub fn player() -> (r: Self)
        ensures
            r.tag@ == "player"@,
    {
        Self { tag: "player".to_owned() }
    }

    pub fn item() -> (r: Self)
        ensures
            r.tag@ == "item"@,
    {
        Self { tag: "item".to_owned() }
    }
}

#[derive(Clone, Copy, Debug, PartialEq, Eq, Structural)]
pub enum GameMode {
    Survival,
    Creative,
    Adventure,
    Spectator,
}

impl GameMode {
    /// The number under which the game mode travels.
    pub fn id(&self) -> (r: u8)
        ensures
            r == (match *self {
                GameMode::Survival => 0u8,
                GameMode::Creative => 1u8,
                GameMode::Adventure => 2u8,
                GameMode::Spectator => 3u8,
            }),
    {
        match self {
            GameMode::Survival => 0,
            GameMode::Creative => 1,
            GameMode::Adventure => 2,
            GameMode::Spectator => 3,
        }
    }
}

/// What makes an entity a player. Health and experience are 32-bit
/// floating-point numbers held as their bit patterns.
#[derive(Clone, Debug)]
pub struct Player {
    pub username: String,
    pub gamemode: GameMode,
    pub health: u32,
    pub food: i32,
    pub level: i32,
    pub experience: u32,
}

impl Player {
    /// A new player in survival mode, with health 20, food 20, and neither
    /// level nor experience.
    pub fn new(username: String) -> (r: Self)
        ensures
            r.username == username,
            r.gamemode == GameMode::Survival,
            r.health == F32_TWENTY,
            r.food == 20,
            r.level == 0,
            r.experience == 0,
    {
        Self {
            username,
            gamemode: GameMode::Survival,
            health: F32_TWENTY,
            food: 20,
            level: 0,
            experience: 0,
        }
    }
}

#[derive(Clone, Copy, Debug, PartialEq, Eq, Structural)]
pub struct OnGround {
    pub on_ground: bool,
}

impl OnGround {
    pub fn new(on_ground: bool) -> (r: Self)
        ensures
            r.on_ground == on_ground,
    {
        Self { on_ground }
    }
}

/// The health of an entity: what it has and what it can have, two 32-bit
/// floating-point numbers held as their bit patterns.
#[derive(Clone, Copy, Debug, PartialEq, Eq, Structural)]
pub struct Health {
    pub current: u32,
    pub max: u32,
}

impl Health {
    /// Full health.
    pub fn new(max: u32) -> (r: Self)
        ensures
            r.current == max,
            r.max == max,
    {
        Self { current: max, max }
    }
}

} // verus!
