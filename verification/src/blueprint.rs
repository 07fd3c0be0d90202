//! Staged mutations and the transaction that is built from them.

pub mod build_blueprint;
pub mod cascade;
pub mod delete_node;
pub mod finalize;
pub mod finalized_blueprint;
pub mod finalized_update_node;
pub mod new_node;
pub mod render;
pub mod update_node;

pub use build_blueprint::{
    AddBlueprintEdges, AllowedRenderEdgeSpecifier, BlueNew, BlueUpdate, BuildBlueprint,
    BuildBlueprintView, GetIsNew,
};
pub use finalized_blueprint::{FinalizedBlueprint, FinalizedBlueprintView};
