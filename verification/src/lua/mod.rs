pub mod plugin;
