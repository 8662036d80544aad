//! Activity monitor: verified core.

pub mod arithmetic;
pub mod collectors;
pub mod desktop;
pub mod distiller;
pub mod event;
pub mod immediate;
pub mod json;
pub mod lists;
pub mod moment;
pub mod normalize;
pub mod number;
pub mod path;
pub mod profile;
pub mod promises;
pub mod quantity;
pub mod recommend;
pub mod server;
pub mod store;
pub mod table;
pub mod text;
