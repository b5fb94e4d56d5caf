pub mod assets;
pub mod sidebar;
