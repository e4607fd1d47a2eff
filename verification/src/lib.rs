pub mod accepted;
pub mod account;
pub mod archive;
pub mod attributes;
pub mod calls;
pub mod change;
pub mod close;
pub mod close_calls;
pub mod create;
pub mod data;
pub mod entry;
pub mod handle;
pub mod ident;
pub mod info;
pub mod io;
mod keep;
pub mod laws;
pub mod memfs;
pub mod model;
pub mod move_calls;
pub mod name;
pub mod open_calls;
pub mod part_calls;
pub mod path;
pub mod release;
pub mod rename;
pub mod status;
pub mod wide;
