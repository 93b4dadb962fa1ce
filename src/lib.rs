//! Inventory of removable game-library cards and the games installed on them.
pub mod keyed;
pub mod inventory;
pub mod descriptor;
pub mod reconcile;
pub mod laws;
