pub mod keyset;
pub mod title_keyset;
pub mod kv;
pub mod pfs0;
pub mod hfs0;
pub mod cnmt;
pub mod romfs;
pub mod nca;
pub mod xci;
pub mod ncz;

pub use kv::KeyValueSet;

pub use keyset::Keyset;
pub use title_keyset::TitleKeys;
