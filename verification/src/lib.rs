//! Indexing and query engine for ROM-set catalogs.
//!
//! A catalog lists games, each made of content-addressed ROM files. The
//! writer ingests a stream of game entries, deduplicates ROM contents by
//! their digest tuple, allocates stable integer ids, and resolves
//! parent/clone relationships in a final pass. The reader materializes
//! game sets under three combining modes and answers content-based
//! reverse lookups over the finished index.

pub mod files;
pub mod models;
pub mod report;
pub mod laws;
pub mod reader;
pub mod store;
pub mod writer;

pub use files::DataFile;
pub use files::FileCheckSearch;
pub use files::FileChecks;
pub use models::Game;
pub use models::GameSet;
pub use models::RomsetMode;
pub use models::RomstError;
pub use reader::IndexReader;
pub use reader::RomSearch;
pub use report::FileRename;
pub use report::FileReport;
pub use report::Report;
pub use report::SetNameReport;
pub use report::SetReport;
pub use store::DBReport;
pub use store::Index;
pub use writer::IdsCounter;
pub use writer::IndexWriter;
pub use writer::SysOutWriter;
