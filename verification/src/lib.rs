//! Reading the NetworkManager D-Bus reference pages into a model of its
//! interfaces and enumerations, and generic accessors for D-Bus properties.
use vstd::prelude::*;

pub mod cli;
pub mod config;
pub mod dbus;
pub mod dom;
pub mod fetch;
pub mod model;
pub mod parse;
pub mod text;

pub use config::{RenderConfig, ReprKind};
pub use model::spec::{
    FetchedPage, ObjectPathFamilyRecord, ParsedSnapshot, SnapshotManifest, SnapshotPageKind,
    TocInterfaceRecord,
};
pub use model::types::{EnumDef, EnumValue};
pub use parse::snapshot::assemble_snapshot;

verus! {
} // verus!
