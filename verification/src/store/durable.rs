//! Changes that reach the disk: each one writes the store's new image through a writer the
//! caller supplies, and puts the store back as it was when the image cannot be encoded or
//! written.
use vstd::prelude::*;

use crate::store::image::{encode_image, image_bytes, image_fits, Record};
use crate::store::{
    insert_all, receipt_record_acceptable, records_map, sorted_records, valid_object_id,
    with_submission, StorageClass, Store, StoreError, StoreView, TenantId, TenantKey,
};

verus! {

/// What writing the image of a store holding `view` through `write` gave: `SizeOverflow`
/// when the image cannot be encoded, otherwise what `write` returned on the image's bytes.
pub open spec fn write_outcome<F: Fn(Vec<u8>) -> Result<(), StoreError>>(
    write: F,
    view: StoreView,
    r: Result<(), StoreError>,
) -> bool {
    exists|recs: Seq<Record>|
        #![trigger records_map(recs)]
        sorted_records(recs) && records_map(recs) == view && if image_fits(recs) {
            exists|b: Vec<u8>| b@ == image_bytes(recs) && call_ensures(write, (b,), r)
        } else {
            r matches Err(e) && e is SizeOverflow
        }
}

impl Store {
    /// Writes the store's current image through `write`. When the image cannot be encoded
    /// or written, the store is put back to `previous` and the error is returned.
    pub fn persist_or_restore<F>(&mut self, previous: Store, write: &F) -> (r: Result<(), StoreError>)
        where
            F: Fn(Vec<u8>) -> Result<(), StoreError>,
        requires
            old(self).wf(),
            previous.wf(),
            forall|b: Vec<u8>| call_requires(*write, (b,)),
        ensures
            final(self).wf(),
            write_outcome(*write, old(self).view(), r),
            r is Ok ==> final(self).view() == old(self).view(),
            r is Err ==> final(self).view() == previous.view(),
    {
        let ghost recs = self.records();
        proof {
            self.lemma_records();
        }
        let image = match encode_image(self) {
            Ok(b) => b,
            Err(e) => {
                assert(write_outcome(*write, records_map(recs), Err::<(), StoreError>(e)));
                *self = previous;
                return Err(e);
            },
        };
        let ghost written = image;
        let w = write(image);
        assert(call_ensures(*write, (written,), w));
        assert(written@ == image_bytes(recs));
        assert(write_outcome(*write, records_map(recs), w));
        assert(records_map(recs) == old(self).view());
        if w.is_err() {
            *self = previous;
        }
        w
    }

    /// Persists daemon-local bytes, undoing the change when the image cannot be written.
    pub fn put_local_durably<F>(&mut self, key: TenantKey, bytes: Vec<u8>, write: &F) -> (r: Result<(), StoreError>)
        where
            F: Fn(Vec<u8>) -> Result<(), StoreError>,
        requires
            old(self).wf(),
            forall|b: Vec<u8>| call_requires(*write, (b,)),
        ensures
            final(self).wf(),
            ({
                let after = old(self).view().insert(key@, (StorageClass::LocalOnly, bytes@));
                &&& write_outcome(*write, after, r)
                &&& r is Ok ==> final(self).view() == after
                &&& r is Err ==> final(self).view() == old(self).view()
            }),
    {
        let previous = self.snapshot();
        let _ = self.put_local(key, bytes);
        self.persist_or_restore(previous, write)
    }

    /// Persists exact core-produced bytes as a cache, undoing the change when the image
    /// cannot be written.
    pub fn put_core_cache_durably<F>(&mut self, key: TenantKey, bytes: Vec<u8>, write: &F) -> (r: Result<(), StoreError>)
        where
            F: Fn(Vec<u8>) -> Result<(), StoreError>,
        requires
            old(self).wf(),
            forall|b: Vec<u8>| call_requires(*write, (b,)),
        ensures
            final(self).wf(),
            ({
                let after = old(self).view().insert(key@, (StorageClass::CoreProducedCache, bytes@));
                &&& write_outcome(*write, after, r)
                &&& r is Ok ==> final(self).view() == after
                &&& r is Err ==> final(self).view() == old(self).view()
            }),
    {
        let previous = self.snapshot();
        let _ = self.put_core_cache(key, bytes);
        self.persist_or_restore(previous, write)
    }

    /// Removes one daemon-local object, restoring it when the image cannot be written.
    /// Core-produced cache is never removed, and nothing is written for an absent key.
    pub fn remove_local_durably<F>(&mut self, key: &TenantKey, write: &F) -> (r: Result<bool, StoreError>)
        where
            F: Fn(Vec<u8>) -> Result<(), StoreError>,
        requires
            old(self).wf(),
            forall|b: Vec<u8>| call_requires(*write, (b,)),
        ensures
            final(self).wf(),
            !old(self).view().contains_key(key@) ==> r == Ok::<bool, StoreError>(false)
                && final(self).view() == old(self).view(),
            old(self).view().contains_key(key@) && old(self).view()[key@].0
                == StorageClass::CoreProducedCache ==> (r matches Err(e) && e is Corrupt)
                && final(self).view() == old(self).view(),
            old(self).view().contains_key(key@) && old(self).view()[key@].0 == StorageClass::LocalOnly ==> {
                let after = old(self).view().remove(key@);
                &&& r matches Ok(removed) ==> removed && write_outcome(*write, after, Ok(()))
                    && final(self).view() == after
                &&& r matches Err(e) ==> write_outcome(*write, after, Err(e))
                    && final(self).view() == old(self).view()
            },
    {
        let previous = self.snapshot();
        let removed = self.remove_local(key)?;
        if !removed {
            return Ok(false);
        }
        let persisted = self.persist_or_restore(previous, write);
        match persisted {
            Ok(u) => {
                assert(persisted == Ok::<(), StoreError>(u));
                Ok(true)
            },
            Err(e) => Err(e),
        }
    }

    /// Atomically records the three local records required before transmission, undoing
    /// all three when the image cannot be written.
    pub fn record_submission_durably<F>(
        &mut self,
        tenant: TenantId,
        idempotency_key: Vec<u8>,
        signed_bytes: Vec<u8>,
        outbox_state: Vec<u8>,
        write: &F,
    ) -> (r: Result<(), StoreError>)
        where
            F: Fn(Vec<u8>) -> Result<(), StoreError>,
        requires
            old(self).wf(),
            forall|b: Vec<u8>| call_requires(*write, (b,)),
        ensures
            final(self).wf(),
            !valid_object_id(idempotency_key@) ==> (r matches Err(e) && e is InvalidObjectId)
                && final(self).view() == old(self).view(),
            valid_object_id(idempotency_key@) ==> {
                let after = with_submission(old(self).view(), tenant@, idempotency_key@, signed_bytes@, outbox_state@);
                &&& write_outcome(*write, after, r)
                &&& r is Ok ==> final(self).view() == after
                &&& r is Err ==> final(self).view() == old(self).view()
            },
    {
        let previous = self.snapshot();
        self.record_submission(tenant, idempotency_key, signed_bytes, outbox_state)?;
        self.persist_or_restore(previous, write)
    }

    /// Restores cache entries obtained again from the core, undoing all of them when the
    /// image cannot be written.
    pub fn restore_core_cache_durably<F>(&mut self, entries: Vec<(TenantKey, Vec<u8>)>, write: &F) -> (r: Result<(), StoreError>)
        where
            F: Fn(Vec<u8>) -> Result<(), StoreError>,
        requires
            old(self).wf(),
            forall|b: Vec<u8>| call_requires(*write, (b,)),
        ensures
            final(self).wf(),
            ({
                let after = insert_all(
                    old(self).view(),
                    entries@.map_values(|e: (TenantKey, Vec<u8>)| e.0@),
                    StorageClass::CoreProducedCache,
                    entries@.map_values(|e: (TenantKey, Vec<u8>)| e.1@),
                );
                &&& write_outcome(*write, after, r)
                &&& r is Ok ==> final(self).view() == after
                &&& r is Err ==> final(self).view() == old(self).view()
            }),
    {
        let previous = self.snapshot();
        let _ = self.restore_core_cache(entries);
        self.persist_or_restore(previous, write)
    }

    /// Atomically records byte-identical core receipt indexes and local verification
    /// metadata, undoing all of them when the image cannot be written.
    pub fn record_verified_receipt_durably<F>(
        &mut self,
        receipt_keys: &[TenantKey],
        receipt_bytes: &[u8],
        metadata_key: TenantKey,
        metadata: Vec<u8>,
        write: &F,
    ) -> (r: Result<(), StoreError>)
        where
            F: Fn(Vec<u8>) -> Result<(), StoreError>,
        requires
            old(self).wf(),
            forall|b: Vec<u8>| call_requires(*write, (b,)),
        ensures
            final(self).wf(),
            !receipt_record_acceptable(
                old(self).view(),
                receipt_keys@.map_values(|k: TenantKey| k@),
                receipt_bytes@,
                metadata_key@,
                metadata@,
            ) ==> (r matches Err(e) && e is Corrupt) && final(self).view() == old(self).view(),
            receipt_record_acceptable(
                old(self).view(),
                receipt_keys@.map_values(|k: TenantKey| k@),
                receipt_bytes@,
                metadata_key@,
                metadata@,
            ) ==> {
                let after = insert_all(
                    old(self).view(),
                    receipt_keys@.map_values(|k: TenantKey| k@),
                    StorageClass::CoreProducedCache,
                    Seq::new(receipt_keys@.len(), |_i: int| receipt_bytes@),
                ).insert(metadata_key@, (StorageClass::LocalOnly, metadata@));
                &&& write_outcome(*write, after, r)
                &&& r is Ok ==> final(self).view() == after
                &&& r is Err ==> final(self).view() == old(self).view()
            },
    {
        let previous = self.snapshot();
        self.record_verified_receipt(receipt_keys, receipt_bytes, metadata_key, metadata)?;
        self.persist_or_restore(previous, write)
    }
}

} // verus!
