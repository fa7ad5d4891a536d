//! The health check.

use vstd::prelude::*;
use crate::credential_store::total_credentials;
use crate::schemas::{HealthCheckData, StorageStatus};
use crate::storage::{state_of, StorageProvider, Stored};

verus! {

/// The status that a health check reports: in order where the place of the
/// credentials can be written to, degraded where it cannot.
pub open spec fn status_of(writable: bool) -> Seq<char> {
    if writable {
        "ok"@
    } else {
        "degraded"@
    }
}

/// The number that a health check reports for a store of `total` credentials.
pub open spec fn reported_count(total: nat) -> nat {
    if total <= usize::MAX {
        total
    } else {
        usize::MAX as nat
    }
}

/// What a health check reports of a store at the given place: the status and the
/// version, whether the place can be written to, the place, and the number of the
/// credentials, which is none where the store cannot be read.
pub open spec fn health_outcome(
    stored: Stored,
    location: Seq<char>,
    writable: bool,
    version: Seq<char>,
    data: HealthCheckData,
) -> bool {
    &&& data.status@ == status_of(writable)
    &&& data.version@ == version
    &&& data.storage.writable == writable
    &&& data.storage.path@ == location
    &&& data.storage.count == reported_count(total_credentials(stored.credentials)) || data.storage.count == 0
}

/// Reports on the health of the installation: whether the place of the credentials
/// can be written to, which the caller has found out, where that place is, and how
/// many credentials are stored. A store that cannot be read counts as empty.
pub fn health_check<S: StorageProvider>(storage: &S, writable: bool, version: &str) -> (data: HealthCheckData)
    ensures
        health_outcome(state_of(*storage), storage.location(), writable, version@, data),
{
    let count = match storage.load_credentials() {
        Ok(store) => store.credential_count(),
        Err(_) => 0,
    };
    let status = if writable {
        "ok"
    } else {
        "degraded"
    };
    HealthCheckData {
        status: status.to_owned(),
        version: version.to_owned(),
        storage: StorageStatus { writable, path: storage.credentials_path().to_owned(), count },
    }
}

} // verus!
