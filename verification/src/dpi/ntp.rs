//! NTP classifier: UDP, and only on port 123.
//!
//! The first byte of a message holds a leap indicator of two bits, a version
//! of three and a mode of three (RFC 5905).

use vstd::prelude::*;

use super::{AppProtocol, Classifier, ProtocolView};

verus! {

pub struct NtpClassifier;

impl Classifier for NtpClassifier {
    open spec fn verdict(&self, payload: Seq<u8>, is_tcp: bool) -> Option<ProtocolView> {
        if !is_tcp && payload.len() > 0 {
            Some(ProtocolView::Ntp { version: payload[0] / 8 % 8, mode: payload[0] % 8 })
        } else {
            None
        }
    }

    fn classify(&self, payload: &[u8], is_tcp: bool) -> (r: Option<AppProtocol>) {
        if is_tcp || payload.len() == 0 {
            return None;
        }
        Some(AppProtocol::Ntp { version: payload[0] / 8 % 8, mode: payload[0] % 8 })
    }
}

/// Version and mode are read from the bits of the first byte, whatever the
/// leap indicator in front of them.
pub proof fn law_messages(leap: u8, version: u8, mode: u8, more: Seq<u8>)
    requires
        leap < 4,
        version < 8,
        mode < 8,
    ensures
        NtpClassifier.verdict(seq![(64 * leap + 8 * version + mode) as u8] + more, false) == Some(
            ProtocolView::Ntp { version, mode },
        ),
        NtpClassifier.verdict(Seq::<u8>::empty(), false) is None,
        NtpClassifier.verdict(more, true) is None,
{
    let b = (64 * leap + 8 * version + mode) as u8;
    assert((seq![b] + more)[0] == b);
    assert(b as int == 8 * (8 * leap + version) + mode);
    assert(b as int / 8 == 8 * leap + version);
    assert(b as int % 8 == mode);
}

} // verus!
