//! LLMNR classifier: Link-Local Multicast Name Resolution (RFC 4795).
//!
//! The wire format is that of DNS, so the port (5355) tells the two apart,
//! and a DNS message is reported here as LLMNR.

use vstd::prelude::*;

use super::dns::DnsClassifier;
use super::{AppProtocol, Classifier, ProtocolView};

verus! {

pub struct LlmnrClassifier;

impl Classifier for LlmnrClassifier {
    open spec fn verdict(&self, payload: Seq<u8>, is_tcp: bool) -> Option<ProtocolView> {
        if is_tcp {
            None
        } else {
            match DnsClassifier.verdict(payload, is_tcp) {
                Some(ProtocolView::Dns { qname, qtype, rcode: _ }) => Some(
                    ProtocolView::Llmnr { qname, qtype },
                ),
                _ => None,
            }
        }
    }

    fn classify(&self, payload: &[u8], is_tcp: bool) -> (r: Option<AppProtocol>) {
        if is_tcp {
            return None;
        }
        match DnsClassifier.classify(payload, is_tcp) {
            Some(AppProtocol::Dns { qname, qtype, rcode: _ }) => Some(
                AppProtocol::Llmnr { qname, qtype },
            ),
            _ => None,
        }
    }
}

/// An LLMNR message is the DNS message with the same bytes, under its own
/// name and without a response code, and there is none over TCP.
pub proof fn law_llmnr_mirrors_dns(payload: Seq<u8>)
    ensures
        LlmnrClassifier.verdict(payload, true) is None,
        LlmnrClassifier.verdict(payload, false) is Some <==> DnsClassifier.verdict(
            payload,
            false,
        ) is Some,
        DnsClassifier.verdict(payload, false) matches Some(ProtocolView::Dns { qname, qtype, rcode })
            ==> LlmnrClassifier.verdict(payload, false) == Some(
            ProtocolView::Llmnr { qname, qtype },
        ),
{
}

} // verus!
