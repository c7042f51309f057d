//! SSDP classifier: UDP, and only on port 1900.
//!
//! A message looks like an HTTP request with the method `M-SEARCH` or
//! `NOTIFY`. What a search is for stands in its `ST:` header, what a notice
//! is about in its `NT:` header.

use vstd::prelude::*;

use super::http;
use super::{AppProtocol, Classifier, ProtocolView};
use crate::scan;

verus! {

/// What the scanned part of a UDP payload says as SSDP.
pub open spec fn ssdp_message(slice: Seq<u8>) -> Option<ProtocolView> {
    if scan::spells(slice, "M-SEARCH "@) {
        Some(
            ProtocolView::Ssdp { method: "M-SEARCH"@, target: http::header_text(slice, "ST"@) },
        )
    } else if scan::spells(slice, "NOTIFY "@) {
        Some(ProtocolView::Ssdp { method: "NOTIFY"@, target: http::header_text(slice, "NT"@) })
    } else {
        None
    }
}

pub struct SsdpClassifier;

impl Classifier for SsdpClassifier {
    open spec fn verdict(&self, payload: Seq<u8>, is_tcp: bool) -> Option<ProtocolView> {
        if is_tcp {
            None
        } else {
            ssdp_message(scan::at_most(payload, http::MAX_SCAN as int))
        }
    }

    fn classify(&self, payload: &[u8], is_tcp: bool) -> (r: Option<AppProtocol>) {
        if is_tcp {
            return None;
        }
        let slice = scan::head(payload, http::MAX_SCAN);
        if scan::begins_with(slice, "M-SEARCH ") {
            let target = http::find_header(slice, "ST");
            Some(AppProtocol::Ssdp { method: "M-SEARCH".to_string(), target })
        } else if scan::begins_with(slice, "NOTIFY ") {
            let target = http::find_header(slice, "NT");
            Some(AppProtocol::Ssdp { method: "NOTIFY".to_string(), target })
        } else {
            None
        }
    }
}

/// Searches and notices are told by their first word, over UDP, and carry the
/// text of their `ST` or `NT` header; nothing else is recognized.
pub proof fn law_messages(payload: Seq<u8>)
    ensures
        ({
            let slice = scan::at_most(payload, 2048);
            let said = SsdpClassifier.verdict(payload, false);
            &&& scan::spells(slice, "M-SEARCH "@) ==> said == Some(
                ProtocolView::Ssdp { method: "M-SEARCH"@, target: http::header_text(slice, "ST"@) },
            )
            &&& !scan::spells(slice, "M-SEARCH "@) && scan::spells(slice, "NOTIFY "@) ==> said
                == Some(
                ProtocolView::Ssdp { method: "NOTIFY"@, target: http::header_text(slice, "NT"@) },
            )
            &&& !scan::spells(slice, "M-SEARCH "@) && !scan::spells(slice, "NOTIFY "@)
                ==> said is None
        }),
        SsdpClassifier.verdict(payload, true) is None,
{
}

} // verus!
