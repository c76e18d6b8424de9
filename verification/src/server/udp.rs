//! The server's UDP relay: which datagrams go to the client, and as what.
//! Receiving and sending datagrams is the application's.

use super::service::ServiceEntry;
use crate::protocol::msg::{copy_service, same_service, Message, MessageView};
use vstd::prelude::*;

verus! {

broadcast use vstd::string::group_string_axioms;

/// The message that carries a datagram from `from` to the client of the
/// service registered for the port; `None` (the datagram is dropped) when
/// there is no such service or it is disabled or unhealthy.
pub fn datagram_message(entry: Option<&ServiceEntry>, from: &str, data: Vec<u8>) -> (m: Option<Message>)
    ensures
        match entry {
            Some(e) if e.enabled && e.healthy => m matches Some(msg) && {
                &&& msg.ty@ == "udp"@
                &&& msg.remote_port == Some(e.config.remote_port)
                &&& msg@.address == Some(from@)
                &&& msg@.data == Some(data@)
                &&& msg.service matches Some(s) && same_service(s, e.config)
                &&& msg@ == (MessageView {
                    remote_port: Some(e.config.remote_port),
                    address: Some(from@),
                    data: Some(data@),
                    service: msg.service,
                    ..crate::protocol::msg::blank_message("udp"@)
                })
            },
            _ => m is None,
        },
{
    match entry {
        Some(e) => {
            if e.enabled && e.healthy {
                Some(Message::new_udp(e.config.remote_port, from, data, copy_service(&e.config)))
            } else {
                None
            }
        },
        None => None,
    }
}

} // verus!
