use vstd::prelude::*;

verus! {

/// What the cache can be asked to do.
#[derive(Debug, Clone, Copy, PartialEq, Eq, Structural)]
pub enum CacheCommands {
    Stats,
    Clear,
}

/// The commands of the command line, with their arguments.
#[derive(Debug)]
#[allow(inconsistent_fields)]
pub enum Commands {
    Init { path: Option<String> },
    Add { name: String, provider: String, base_url: String, api_key: Option<String> },
    Remove { name: String },
    List,
    Serve { port: Option<u16> },
    Translate { input: String, output: String },
    Prefetch { directory: String },
    Cache { action: CacheCommands },
    Validate,
}

/// One invocation of the command line.
#[derive(Debug)]
pub struct Cli {
    pub command: Commands,
}

impl Commands {
    /// Whether the command changes the lock file.
    pub fn writes_lock_file(&self) -> (r: bool)
        ensures
            r == (*self is Init || *self is Add || *self is Remove),
    {
        match self {
            Commands::Init { .. } => true,
            Commands::Add { .. } => true,
            Commands::Remove { .. } => true,
            _ => false,
        }
    }
}

} // verus!
