pub mod text;
pub mod models;
pub mod ids;
pub mod clock;
pub mod queues;
pub mod sorting;
pub mod store;
pub mod audit;
pub mod purge;
pub mod nodes;
pub mod preheat;
pub mod validation;
pub mod resources;
pub mod stats;
pub mod export;
pub mod tree;
pub mod auth;
