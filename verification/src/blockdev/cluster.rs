//! Reading whole clusters, with the byte count checked for overflow.

use vstd::prelude::*;
use crate::hal::block::{io_error_of, BlockDevice, BlockError};
use crate::hal::io::IoError;

verus! {

/// Read `length` clusters starting at cluster `cluster_number` with one
/// device read at byte `cluster_number * bytes_per_cluster`; a byte count
/// that does not fit in 64 bits is `InvalidInput`, a failed device read is
/// reported as the I/O error its block error converts to.
pub fn read_clusters<D: BlockDevice>(device: &mut D, cluster_number: u64, length: u64, bytes_per_cluster: u64) -> (r: Result<Vec<u8>, IoError>)
    requires
        length * bytes_per_cluster <= u64::MAX ==> length * bytes_per_cluster <= usize::MAX,
        length * bytes_per_cluster <= u64::MAX ==> cluster_number * bytes_per_cluster <= u64::MAX,
    ensures
        final(device).bytes() == old(device).bytes(),
        final(device).block_size_view() == old(device).block_size_view(),
        final(device).block_count_view() == old(device).block_count_view(),
        length * bytes_per_cluster > u64::MAX ==> r == Err::<Vec<u8>, IoError>(IoError::InvalidInput),
        r matches Ok(v) ==> v@ == old(device).bytes().subrange(
            cluster_number * bytes_per_cluster,
            cluster_number * bytes_per_cluster + length * bytes_per_cluster,
        ),
        r matches Err(e) ==> (length * bytes_per_cluster > u64::MAX && e == IoError::InvalidInput)
            || (length * bytes_per_cluster <= u64::MAX && exists|b: BlockError|
                #[trigger] old(device).read_fails_with((cluster_number * bytes_per_cluster) as u64,
                    (length * bytes_per_cluster) as nat, b) && e == io_error_of(b)),
{
    let total_bytes = match length.checked_mul(bytes_per_cluster) {
        Some(t) => t,
        None => return Err(IoError::InvalidInput),
    };
    let mut buf: Vec<u8> = vec![0u8; total_bytes as usize];
    let offset = cluster_number * bytes_per_cluster;
    match device.read_blocks(offset, buf.as_mut_slice()) {
        Ok(()) => Ok(buf),
        Err(e) => {
            let io = IoError::from(e);
            assert(io == io_error_of(e));
            assert(old(device).read_fails_with((cluster_number * bytes_per_cluster) as u64,
                (length * bytes_per_cluster) as nat, e));
            Err(io)
        },
    }
}

} // verus!
