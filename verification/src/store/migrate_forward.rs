//! Public forward-only migration entry points, on the bytes of the stored image.
use vstd::prelude::*;

use crate::store::migrate::{has_header, migrate_image, migrated, steps_from, v2_body_core, MigrationError, MigrationReport};
use crate::bytes::u32_at;

verus! {

/// Migrates every supported prior schema through each explicit step. `existing` is the
/// stored image, if there is one. Returns the image to write back (only when a step was
/// taken) and the report. Migration transforms only daemon metadata and preserves
/// core-produced values byte-for-byte without a derivation callback.
///
/// # Errors
///
/// Refuses corrupt, unsupported-old, and newer stores (see [`migrate_image`]).
pub fn migrate_forward(existing: Option<Vec<u8>>) -> (r: Result<
    (Option<Vec<u8>>, MigrationReport),
    MigrationError,
>)
    ensures
        existing is None ==> (r matches Ok((w, report)) && w is None && report.original_version
            == 3 && report.final_version == 3 && report.steps@.len() == 0
            && report.core_produced_records_preserved == 0),
        existing matches Some(b) ==> {
            &&& r is Ok <==> migrated(b@) is Some
            &&& !has_header(b@) ==> (r matches Err(e) && e is InvalidHeader)
            &&& has_header(b@) && u32_at(b@, 4) > 3 ==> r == Err::<(Option<Vec<u8>>, MigrationReport), MigrationError>(
                MigrationError::NewerSchema { found: u32_at(b@, 4), supported: 3 },
            )
            &&& has_header(b@) && u32_at(b@, 4) == 0 ==> r == Err::<(Option<Vec<u8>>, MigrationReport), MigrationError>(
                MigrationError::UnsupportedOldSchema(0),
            )
            &&& has_header(b@) && 1 <= u32_at(b@, 4) <= 3 ==> (r matches Err(e) ==> e is CorruptV1)
            &&& r matches Ok((w, report)) ==> {
                &&& report.original_version == u32_at(b@, 4)
                &&& report.final_version == 3
                &&& report.steps@ == steps_from(u32_at(b@, 4))
                &&& report.core_produced_records_preserved == v2_body_core(migrated(b@).unwrap()).unwrap()
                &&& (w is Some <==> report.steps@.len() > 0)
                &&& w matches Some(out) ==> out@ == migrated(b@).unwrap()
            }
        },
{
    match existing {
        None => {
            let report = MigrationReport {
                original_version: 3,
                final_version: 3,
                steps: Vec::new(),
                core_produced_records_preserved: 0,
            };
            Ok((None, report))
        },
        Some(bytes) => {
            let (out, report) = match migrate_image(bytes) {
                Ok(done) => done,
                Err(e) => {
                    return Err(e);
                },
            };
            if report.steps.len() == 0 {
                Ok((None, report))
            } else {
                Ok((Some(out), report))
            }
        },
    }
}

/// Migrates the stored image, if any, returning the image to write back when a step was
/// taken.
///
/// # Errors
///
/// As [`migrate_forward`].
pub fn migrate(existing: Option<Vec<u8>>) -> (r: Result<Option<Vec<u8>>, MigrationError>)
    ensures
        existing is None ==> (r matches Ok(w) && w is None),
        existing matches Some(b) ==> {
            &&& r is Ok <==> migrated(b@) is Some
            &&& r matches Ok(w) ==> (w is Some <==> steps_from(u32_at(b@, 4)).len() > 0)
            &&& r matches Ok(w) ==> (w matches Some(out) ==> out@ == migrated(b@).unwrap())
        },
{
    let (write, _report) = migrate_forward(existing)?;
    Ok(write)
}

} // verus!
