//! cairnkit: the deterministic core of a file-as-state-machine delivery harness and its
//! knowledge base, with its rules stated and proved.
pub mod clock;
pub mod config;
pub mod errors;
pub mod evolve;
pub mod gate;
pub mod import_state;
pub mod intent;
pub mod json;
pub mod knowledge;
pub mod notify;
pub mod sort;
pub mod stages;
pub mod state;
pub mod strmap;
pub mod text;
