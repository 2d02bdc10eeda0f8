use crate::lua::plugin::PluginMetadata;
use crate::world::manager::World;
use vstd::prelude::*;

verus! {

/// The port on which the game is served.
pub const GAME_PORT: i32 = 25565;

/// What the management interface tells of a world.
pub struct WorldResponse {
    pub id: String,
    pub name: String,
    pub status: String,
    pub port: i32,
    pub max_players: i32,
    pub player_count: usize,
}

impl WorldResponse {
    /// What there is to tell of `world`, which holds `player_count` players.
    pub fn of_world(world: &World, status: String, player_count: usize) -> (r: Self)
        ensures
            r.id@ == world.id@,
            r.name@ == world.name@,
            r.status == status,
            r.port == GAME_PORT,
            r.max_players == 20,
            r.player_count == player_count,
    {
        Self {
            id: world.id.clone(),
            name: world.name.clone(),
            status,
            port: GAME_PORT,
            max_players: 20,
            player_count,
        }
    }
}

/// What the management interface is given to make a plugin.
pub struct CreatePluginRequest {
    pub name: String,
    pub version: String,
    pub author: String,
    pub description: String,
    pub script: String,
}

/// What the management interface tells of a plugin.
pub struct PluginResponse {
    pub id: String,
    pub name: String,
    pub version: String,
    pub author: String,
    pub description: String,
    pub enabled: bool,
}

/// What a request to make a plugin says of the plugin.
pub fn metadata_of_request(request: &CreatePluginRequest) -> (r: PluginMetadata)
    ensures
        r.name@ == request.name@,
        r.version@ == request.version@,
        r.author@ == request.author@,
        r.description@ == request.description@,
        r.dependencies@.len() == 0,
{
    PluginMetadata {
        name: request.name.clone(),
        version: request.version.clone(),
        author: request.author.clone(),
        description: request.description.clone(),
        dependencies: Vec::new(),
    }
}

/// Where the store of records is reached.
pub struct Database {
    url: String,
    anon_key: String,
}

impl Database {
    pub closed spec fn spec_url(&self) -> Seq<char> {
        self.url@
    }

    pub closed spec fn spec_anon_key(&self) -> Seq<char> {
        self.anon_key@
    }

    pub fn new(url: String, anon_key: String) -> (r: Self)
        ensures
            r.spec_url() == url@,
            r.spec_anon_key() == anon_key@,
    {
        Self { url, anon_key }
    }
}

/// A player as the store of records keeps it.
pub struct PlayerRecord {
    pub id: String,
    pub username: String,
    pub uuid: String,
    pub total_playtime: i32,
}

/// A plugin as the store of records keeps it.
pub struct PluginRecord {
    pub id: String,
    pub name: String,
    pub version: String,
    pub author: String,
    pub description: String,
    pub script: String,
    pub enabled: bool,
}

} // verus!
