//! DHCP and BOOTP classifier: UDP, and only on ports 67 and 68.
//!
//! The first byte of a message is its op code.

use vstd::prelude::*;

use super::{AppProtocol, Classifier, ProtocolView};

verus! {

/// A message from a client to a server.
pub const BOOTREQUEST: u8 = 1;

/// A message from a server to a client.
pub const BOOTREPLY: u8 = 2;

pub struct DhcpClassifier;

impl Classifier for DhcpClassifier {
    open spec fn verdict(&self, payload: Seq<u8>, is_tcp: bool) -> Option<ProtocolView> {
        if !is_tcp && payload.len() > 0 && (payload[0] == BOOTREQUEST || payload[0] == BOOTREPLY) {
            Some(ProtocolView::Dhcp { op: payload[0] })
        } else {
            None
        }
    }

    fn classify(&self, payload: &[u8], is_tcp: bool) -> (r: Option<AppProtocol>) {
        if is_tcp || payload.len() == 0 {
            return None;
        }
        let op = payload[0];
        if op == BOOTREQUEST || op == BOOTREPLY {
            Some(AppProtocol::Dhcp { op })
        } else {
            None
        }
    }
}

/// A message is told by a first byte of 1 or 2, over UDP.
pub proof fn law_messages(op: u8, more: Seq<u8>)
    ensures
        op == 1 || op == 2 ==> DhcpClassifier.verdict(seq![op] + more, false) == Some(
            ProtocolView::Dhcp { op },
        ),
        op == 0 || op > 2 ==> DhcpClassifier.verdict(seq![op] + more, false) is None,
        DhcpClassifier.verdict(Seq::<u8>::empty(), false) is None,
        DhcpClassifier.verdict(seq![op] + more, true) is None,
{
    assert((seq![op] + more)[0] == op);
}

} // verus!
