use vstd::prelude::*;

use crate::dom::opt_chars;
use crate::model::interface::{InterfaceDef, InterfaceDefView};
use crate::model::types::{TypesPage, TypesPageView};

verus! {

/// What a snapshot of the reference holds: where it was taken from, the
/// pages saved, and the object-path families of the table of contents.
#[derive(Debug, Clone)]
pub struct SnapshotManifest {
    pub root_url: String,
    pub pages: Vec<FetchedPage>,
    pub object_path_families: Vec<ObjectPathFamilyRecord>,
}

/// One page saved in a snapshot.
#[derive(Debug, Clone)]
pub struct FetchedPage {
    pub title: String,
    pub file_name: String,
    pub source_url: String,
    pub kind: SnapshotPageKind,
}

/// What a saved page holds.
#[derive(Debug, Clone, Copy, PartialEq, Eq, Structural)]
pub enum SnapshotPageKind {
    SpecIndex,
    Types,
    Interface,
    Other,
}

/// An object-path family and the interfaces that its objects carry.
#[derive(Debug, Clone)]
pub struct ObjectPathFamilyRecord {
    pub label: String,
    pub path_pattern: Option<String>,
    pub interfaces: Vec<TocInterfaceRecord>,
}

/// An interface of the table of contents and the file its page was saved in.
#[derive(Debug, Clone)]
pub struct TocInterfaceRecord {
    pub name: String,
    pub href: String,
    pub file_name: String,
    pub description: String,
}

/// Everything read from a snapshot.
#[derive(Debug, Clone)]
pub struct ParsedSnapshot {
    pub types: TypesPage,
    pub interfaces: Vec<InterfaceDef>,
    pub object_path_families: Vec<ObjectPathFamilyRecord>,
}

pub struct FetchedPageView {
    pub title: Seq<char>,
    pub file_name: Seq<char>,
    pub source_url: Seq<char>,
    pub kind: SnapshotPageKind,
}

pub struct TocInterfaceRecordView {
    pub name: Seq<char>,
    pub href: Seq<char>,
    pub file_name: Seq<char>,
    pub description: Seq<char>,
}

pub struct ObjectPathFamilyRecordView {
    pub label: Seq<char>,
    pub path_pattern: Option<Seq<char>>,
    pub interfaces: Seq<TocInterfaceRecordView>,
}

pub struct SnapshotManifestView {
    pub root_url: Seq<char>,
    pub pages: Seq<FetchedPageView>,
    pub object_path_families: Seq<ObjectPathFamilyRecordView>,
}

pub struct ParsedSnapshotView {
    pub types: TypesPageView,
    pub interfaces: Seq<InterfaceDefView>,
    pub object_path_families: Seq<ObjectPathFamilyRecordView>,
}

impl View for FetchedPage {
    type V = FetchedPageView;

    open spec fn view(&self) -> FetchedPageView {
        FetchedPageView {
            title: self.title@,
            file_name: self.file_name@,
            source_url: self.source_url@,
            kind: self.kind,
        }
    }
}

impl View for TocInterfaceRecord {
    type V = TocInterfaceRecordView;

    open spec fn view(&self) -> TocInterfaceRecordView {
        TocInterfaceRecordView {
            name: self.name@,
            href: self.href@,
            file_name: self.file_name@,
            description: self.description@,
        }
    }
}

/// Interface records as plain values.
pub open spec fn records_view(v: Seq<TocInterfaceRecord>) -> Seq<TocInterfaceRecordView> {
    v.map_values(|r: TocInterfaceRecord| r@)
}

impl View for ObjectPathFamilyRecord {
    type V = ObjectPathFamilyRecordView;

    open spec fn view(&self) -> ObjectPathFamilyRecordView {
        ObjectPathFamilyRecordView {
            label: self.label@,
            path_pattern: opt_chars(self.path_pattern),
            interfaces: records_view(self.interfaces@),
        }
    }
}

/// Pages as plain values.
pub open spec fn pages_view(v: Seq<FetchedPage>) -> Seq<FetchedPageView> {
    v.map_values(|p: FetchedPage| p@)
}

/// Families as plain values.
pub open spec fn families_view(v: Seq<ObjectPathFamilyRecord>) -> Seq<ObjectPathFamilyRecordView> {
    v.map_values(|f: ObjectPathFamilyRecord| f@)
}

impl View for SnapshotManifest {
    type V = SnapshotManifestView;

    open spec fn view(&self) -> SnapshotManifestView {
        SnapshotManifestView {
            root_url: self.root_url@,
            pages: pages_view(self.pages@),
            object_path_families: families_view(self.object_path_families@),
        }
    }
}

/// Interfaces as plain values.
pub open spec fn interfaces_view(v: Seq<InterfaceDef>) -> Seq<InterfaceDefView> {
    v.map_values(|i: InterfaceDef| i@)
}

impl View for ParsedSnapshot {
    type V = ParsedSnapshotView;

    open spec fn view(&self) -> ParsedSnapshotView {
        ParsedSnapshotView {
            types: self.types@,
            interfaces: interfaces_view(self.interfaces@),
            object_path_families: families_view(self.object_path_families@),
        }
    }
}

} // verus!
