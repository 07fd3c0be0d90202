//! Sets and maps that keep the order in which their items arrived.

pub mod seq_facts;
pub mod seq_model;
pub mod uid_index;
pub mod vec_map;
pub mod vec_set;

pub use vec_map::VecMap;
pub use vec_set::VecSet;
