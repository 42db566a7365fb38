//! The records that flow through the catalog pipeline, and their mathematical views.

use vstd::prelude::*;

verus! {

/// One published extension's current metadata, as the registry reports it.
#[derive(Debug, PartialEq, Eq)]
pub struct CatalogEntry {
    pub key: String,
    pub version: String,
    pub compatibility: Vec<u32>,
    pub description: String,
}

/// What a `CatalogEntry` holds, as plain sequences.
pub ghost struct EntryView {
    pub key: Seq<char>,
    pub version: Seq<char>,
    pub compatibility: Seq<u32>,
    pub description: Seq<char>,
}

impl View for CatalogEntry {
    type V = EntryView;

    open spec fn view(&self) -> EntryView {
        EntryView {
            key: self.key@,
            version: self.version@,
            compatibility: self.compatibility@,
            description: self.description@,
        }
    }
}

impl Clone for CatalogEntry {
    fn clone(&self) -> (copy: Self)
        ensures
            copy@ == self@,
    {
        CatalogEntry {
            key: self.key.clone(),
            version: self.version.clone(),
            compatibility: self.compatibility.clone(),
            description: self.description.clone(),
        }
    }
}

/// One line of the manifest: what is recorded for a key.
#[derive(Debug, PartialEq, Eq)]
pub struct OutputRecord {
    pub version: String,
    pub compatibility: Vec<u32>,
    pub description: String,
    pub hash: String,
}

/// What an `OutputRecord` holds, as plain sequences.
pub ghost struct RecordView {
    pub version: Seq<char>,
    pub compatibility: Seq<u32>,
    pub description: Seq<char>,
    pub hash: Seq<char>,
}

impl View for OutputRecord {
    type V = RecordView;

    open spec fn view(&self) -> RecordView {
        RecordView {
            version: self.version@,
            compatibility: self.compatibility@,
            description: self.description@,
            hash: self.hash@,
        }
    }
}

impl Clone for OutputRecord {
    fn clone(&self) -> (copy: Self)
        ensures
            copy@ == self@,
    {
        OutputRecord {
            version: self.version.clone(),
            compatibility: self.compatibility.clone(),
            description: self.description.clone(),
            hash: self.hash.clone(),
        }
    }
}

/// One page of the registry's listing.
#[derive(Debug, PartialEq, Eq)]
pub struct PageResponse {
    pub total_results: u32,
    pub page_number: u32,
    pub page_size: u32,
    pub entries: Vec<CatalogEntry>,
}

/// A request that failed on the network, timed out, or was answered with a
/// status other than success.
#[derive(Debug, PartialEq, Eq)]
pub struct TransferError {
    pub detail: String,
}

/// A response whose body is not of the expected shape.
#[derive(Debug, PartialEq, Eq)]
pub struct ParseError {
    pub detail: String,
}

/// A required setting that is absent.
#[derive(Debug, PartialEq, Eq)]
pub struct ConfigError {
    pub variable: String,
}

/// Why a run ended without a manifest.
#[derive(Debug, PartialEq, Eq)]
pub enum RunError {
    Config(ConfigError),
    Transfer(TransferError),
    Parse(ParseError),
}

} // verus!
