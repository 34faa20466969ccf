//! Device session admission: the decisions behind opening a compute session.
//!
//! The adapter and device handles themselves live outside the library, in
//! the unverified driver; what is verified here is the admission rule — a
//! search may only start on an adapter whose queue supports compute — and
//! which optional storage widths the chosen encoding demands of the device.

use vstd::prelude::*;

verus! {

use crate::encoding::OutputEncoding;
use crate::errors::SearchError;

/// Whether the encoding stores 8-bit values, which needs the device's
/// narrow 8-bit storage capability.
pub open spec fn spec_needs_byte_storage(enc: OutputEncoding) -> bool {
    enc == OutputEncoding::BytePerItem || enc == OutputEncoding::WidthPerItem(1u64)
}

/// Whether the encoding stores 16-bit values, which needs the device's
/// 16-bit storage capability.
pub open spec fn spec_needs_short_storage(enc: OutputEncoding) -> bool {
    enc == OutputEncoding::WidthPerItem(2u64)
}

/// The optional storage widths to request of the device for an encoding:
/// 8-bit storage, then 16-bit storage.
pub fn required_storage_widths(enc: &OutputEncoding) -> (r: (bool, bool))
    ensures
        r.0 == spec_needs_byte_storage(*enc),
        r.1 == spec_needs_short_storage(*enc),
{
    match enc {
        OutputEncoding::BitPacked => (false, false),
        OutputEncoding::BytePerItem => (true, false),
        OutputEncoding::WidthPerItem(w) => (*w == 1, *w == 2),
    }
}

/// Admit or refuse a device: a search needs a compute-capable queue, and a
/// device without one fails the whole search before any buffer is
/// allocated, with no partial or degraded mode.
pub fn check_device_capability(supports_compute: bool) -> (r: Result<(), SearchError>)
    ensures
        r is Ok <==> supports_compute,
        r matches Err(e) ==> e == SearchError::NoCompatibleDevice,
{
    if supports_compute {
        Ok(())
    } else {
        Err(SearchError::NoCompatibleDevice)
    }
}

} // verus!
