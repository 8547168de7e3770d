//! The voucher: the decryption key and initialization vector for the input.
use crate::text::{blank, fail, is_blank, prefixed, reports, with_prefix};
use vstd::prelude::*;

verus! {

#[derive(Debug, Clone, PartialEq)]
pub struct AudibleCliVoucher {
    pub content_license: ContentLicense,
}

#[derive(Debug, Clone, PartialEq)]
pub struct ContentLicense {
    pub license_response: LicenseResponse,
}

#[derive(Debug, Clone, PartialEq)]
/// The key and initialization vector, handed to the encoder as they are.
pub struct LicenseResponse {
    pub key: String,
    pub iv: String,
}

pub open spec fn license_error(l: LicenseResponse) -> Option<Seq<char>> {
    if is_blank(l.key@) {
        Some("key is empty"@)
    } else if is_blank(l.iv@) {
        Some("iv is empty"@)
    } else {
        None
    }
}

impl AudibleCliVoucher {
    /// Checks that the key and the initialization vector are present.
    pub fn validate(&self) -> (r: Result<(), String>)
        ensures
            reports(
                r,
                prefixed(
                    "content_license: license_response: "@,
                    license_error(self.content_license.license_response),
                ),
            ),
    {
        let l = &self.content_license.license_response;
        let r = if blank(l.key.as_str()) {
            fail("key is empty")
        } else if blank(l.iv.as_str()) {
            fail("iv is empty")
        } else {
            Ok(())
        };
        with_prefix("content_license: license_response: ", r)
    }
}

} // verus!
