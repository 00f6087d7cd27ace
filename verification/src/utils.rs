pub mod collision;
pub mod metadata;
