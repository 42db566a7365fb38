//! The entry resolver: for one catalog entry, whether its earlier hash still
//! holds, where its artifact is downloaded from, and the record it yields.

use vstd::prelude::*;
use vstd::string::StringExecFns;
use crate::manifest::{lookup, with_entry, Manifest};
use crate::model::{CatalogEntry, EntryView, OutputRecord, RecordView, TransferError};
use crate::page::{registry_base, registry_base_text};
use crate::text::{first_line, first_line_of};

verus! {

/// Whether an earlier hash is taken over or the artifact is hashed anew.
#[derive(Debug, Clone, Copy, PartialEq, Eq, Structural)]
pub enum Decision {
    Reuse,
    Recompute,
}

/// The earlier hash is reused exactly when there is an earlier record, its
/// version is the entry's version, character for character, and its hash is
/// not empty.
pub open spec fn decision_for(old: Option<RecordView>, entry: EntryView) -> Decision {
    match old {
        Some(record) => if record.version == entry.version && record.hash.len() > 0 {
            Decision::Reuse
        } else {
            Decision::Recompute
        },
        None => Decision::Recompute,
    }
}

/// Decides for `entry`, given the record that the earlier manifest has under
/// the entry's key.
pub fn decide(old: Option<&OutputRecord>, entry: &CatalogEntry) -> (decision: Decision)
    ensures
        decision == decision_for(
            match old {
                Some(record) => Some(record@),
                None => None,
            },
            entry@,
        ),
{
    match old {
        Some(record) => {
            if record.version == entry.version && !record.hash.as_str().is_empty() {
                Decision::Reuse
            } else {
                Decision::Recompute
            }
        },
        None => Decision::Recompute,
    }
}

/// The address from which the artifact of `key` at `version` is downloaded:
/// under the registry's base address, as the listing is.
pub open spec fn download_url_of(key: Seq<char>, version: Seq<char>) -> Seq<char> {
    registry_base() + "/extension/download/"@ + key + "/"@ + version + "/zip"@
}

/// Builds the download address of an artifact.
pub fn download_url(key: &str, version: &str) -> (url: String)
    ensures
        url@ == download_url_of(key@, version@),
{
    let mut url = String::from_str(registry_base_text());
    url.append("/extension/download/");
    url.append(key);
    url.append("/");
    url.append(version);
    url.append("/zip");
    url
}

/// How an entry gets its hash.
#[derive(Debug, PartialEq, Eq)]
pub enum Plan {
    /// The earlier hash is taken over; nothing is downloaded.
    UseCached { hash: String },
    /// The artifact at `url` is downloaded and hashed.
    Download { url: String },
}

/// The earlier hash that `entry` takes over from the manifest `prior`, or
/// `None` where its artifact is hashed anew.
pub open spec fn reusable_hash(prior: Seq<(Seq<char>, RecordView)>, entry: EntryView) -> Option<
    Seq<char>,
> {
    if decision_for(lookup(prior, entry.key), entry) == Decision::Reuse {
        Some(lookup(prior, entry.key)->0.hash)
    } else {
        None
    }
}

/// Plans the resolution of `entry` against the earlier manifest.
pub fn plan(entry: &CatalogEntry, prior: &Manifest) -> (plan: Plan)
    ensures
        match plan {
            Plan::UseCached { hash } => decision_for(lookup(prior@, entry@.key), entry@)
                == Decision::Reuse && reusable_hash(prior@, entry@) == Some(hash@),
            Plan::Download { url } => decision_for(lookup(prior@, entry@.key), entry@)
                == Decision::Recompute && url@ == download_url_of(entry@.key, entry@.version),
        },
{
    let old = prior.get(entry.key.as_str());
    let cached = match decide(old, entry) {
        Decision::Reuse => old,
        Decision::Recompute => None,
    };
    match cached {
        Some(record) => Plan::UseCached { hash: record.hash.clone() },
        None => Plan::Download { url: download_url(entry.key.as_str(), entry.version.as_str()) },
    }
}

/// The record of an entry that got the hash `hash`: version and
/// compatibility as published, the description cut to its first line.
pub open spec fn record_of(entry: EntryView, hash: Seq<char>) -> RecordView {
    RecordView {
        version: entry.version,
        compatibility: entry.compatibility,
        description: first_line_of(entry.description),
        hash,
    }
}

/// Builds the key and the record of a resolved entry.
pub fn assemble(entry: CatalogEntry, hash: String) -> (pair: (String, OutputRecord))
    ensures
        pair.0@ == entry@.key,
        pair.1@ == record_of(entry@, hash@),
{
    let CatalogEntry { key, version, compatibility, description } = entry;
    let description = first_line(description.as_str());
    (key, OutputRecord { version, compatibility, description, hash })
}

/// Ends the resolution of `entry`. With a hash, the entry's record is stored
/// in `out` under the entry's key. With a failed download, `out` stays as it
/// is and the failure is handed on.
pub fn complete(entry: CatalogEntry, hash: Result<String, TransferError>, out: &mut Manifest) -> (done:
    Result<(), TransferError>)
    ensures
        match hash {
            Ok(text) => done is Ok && final(out)@ == with_entry(
                old(out)@,
                entry@.key,
                record_of(entry@, text@),
            ),
            Err(error) => done == Err::<(), TransferError>(error) && final(out)@ == old(out)@,
        },
{
    match hash {
        Ok(text) => {
            let (key, record) = assemble(entry, text);
            out.insert(key, record);
            Ok(())
        },
        Err(error) => Err(error),
    }
}

/// The notice for an entry whose download failed.
pub open spec fn failure_notice_of(key: Seq<char>, reason: Seq<char>) -> Seq<char> {
    "Unable to calculate hash of "@ + key + ": "@ + reason
}

/// Words the notice for the entry `key`, whose download failed for `reason`.
pub fn failure_notice(key: &str, reason: &str) -> (notice: String)
    ensures
        notice@ == failure_notice_of(key@, reason@),
{
    let mut notice = String::from_str("Unable to calculate hash of ");
    notice.append(key);
    notice.append(": ");
    notice.append(reason);
    notice
}

} // verus!
