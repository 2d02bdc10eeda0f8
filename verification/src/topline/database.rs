use vstd::prelude::*;

verus! {

/// The tables and indexes that the launcher tool keeps in its store:
/// mods, configurations and plugins, each by user.
pub const DATABASE_SCHEMA: &'static str = r#"
-- Topline Supabase Schema

-- Mods table
CREATE TABLE IF NOT EXISTS topline_mods (
    id SERIAL PRIMARY KEY,
    user_id TEXT NOT NULL,
    mod_id TEXT NOT NULL,
    mod_name TEXT NOT NULL,
    mod_version TEXT NOT NULL,
    mod_type TEXT NOT NULL,
    enabled BOOLEAN DEFAULT true,
    created_at TIMESTAMP DEFAULT NOW(),
    updated_at TIMESTAMP DEFAULT NOW(),
    UNIQUE(user_id, mod_id)
);

-- Configs table
CREATE TABLE IF NOT EXISTS topline_configs (
    id SERIAL PRIMARY KEY,
    user_id TEXT NOT NULL,
    config_name TEXT NOT NULL,
    config_data JSONB NOT NULL,
    created_at TIMESTAMP DEFAULT NOW(),
    updated_at TIMESTAMP DEFAULT NOW(),
    UNIQUE(user_id, config_name)
);

-- Lua plugins table
CREATE TABLE IF NOT EXISTS topline_lua_plugins (
    id SERIAL PRIMARY KEY,
    user_id TEXT NOT NULL,
    plugin_id TEXT NOT NULL,
    plugin_name TEXT NOT NULL,
    plugin_code TEXT NOT NULL,
    enabled BOOLEAN DEFAULT true,
    created_at TIMESTAMP DEFAULT NOW(),
    updated_at TIMESTAMP DEFAULT NOW(),
    UNIQUE(user_id, plugin_id)
);

-- Indexes
CREATE INDEX IF NOT EXISTS idx_topline_mods_user_id ON topline_mods(user_id);
CREATE INDEX IF NOT EXISTS idx_topline_configs_user_id ON topline_configs(user_id);
CREATE INDEX IF NOT EXISTS idx_topline_lua_plugins_user_id ON topline_lua_plugins(user_id);

-- Row Level Security would be configured through Supabase dashboard
"#;

/// The tables and indexes that the launcher tool keeps in its store.
pub fn get_database_schema() -> (r: &'static str)
    ensures
        r@ == DATABASE_SCHEMA@,
{
    DATABASE_SCHEMA
}

} // verus!
