//! The outcome of `HcsDestroyLayer` from `computestorage.dll`, the only
//! supported way to remove an HCS-managed container layer once its reparse
//! points and hardlinks are in place. The call itself is made elsewhere,
//! with the path encoded by `util::wide_nul`.

use vstd::prelude::*;

use crate::errors::DcmFreeError;

verus! {

/// The outcome of destroying the layer at `path`, given the HRESULT that
/// `HcsDestroyLayer` returned: success for a non-negative HRESULT, else
/// `HcsDestroyFailed` carrying the path and the HRESULT's bits unsigned.
pub fn destroy_layer_result(path: &str, hr: i32) -> (r: Result<(), DcmFreeError>)
    ensures
        hr >= 0 ==> r is Ok,
        hr < 0 ==> (r matches Err(DcmFreeError::HcsDestroyFailed { path: p, hresult }) && p@
            == path@ && hresult == hr + 0x1_0000_0000),
{
    if hr >= 0 {
        Ok(())
    } else {
        let hresult = hr as u32;
        assert(hr < 0 ==> hresult == hr + 0x1_0000_0000) by (bit_vector)
            requires
                hresult == hr as u32,
        ;
        Err(DcmFreeError::HcsDestroyFailed { path: path.to_owned(), hresult })
    }
}

} // verus!
