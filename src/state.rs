//! Connection states of the socket tables.
use vstd::prelude::*;
use crate::address::or_zero;
use crate::digits::{parse_unsigned, parse_unsigned_spec};

verus! {

/// Protocols whose name starts with `UDP` are connectionless.
pub open spec fn is_udp(protocol: Seq<u8>) -> bool {
    protocol.len() >= 3 && protocol[0] == 85 && protocol[1] == 68 && protocol[2] == 80
}

/// The symbolic name of a TCP state code.
pub open spec fn state_name(code: nat) -> Seq<char> {
    if code == 1 {
        "ESTABLISHED"@
    } else if code == 2 {
        "SYN_SENT"@
    } else if code == 3 {
        "SYN_RECV"@
    } else if code == 4 {
        "FIN_WAIT1"@
    } else if code == 5 {
        "FIN_WAIT2"@
    } else if code == 6 {
        "TIME_WAIT"@
    } else if code == 7 {
        "CLOSE"@
    } else if code == 8 {
        "CLOSE_WAIT"@
    } else if code == 9 {
        "LAST_ACK"@
    } else if code == 10 {
        "LISTEN"@
    } else if code == 11 {
        "CLOSING"@
    } else {
        "UNKNOWN"@
    }
}

/// The state of a row: empty for UDP, else the name of the hex code (an unreadable
/// code counts as 0).
pub open spec fn state_spec(code: Seq<u8>, protocol: Seq<u8>) -> Seq<char> {
    if is_udp(protocol) {
        Seq::empty()
    } else {
        state_name(or_zero(parse_unsigned_spec(code, 16, 256)))
    }
}

pub fn classify_state(code: &[u8], protocol: &[u8]) -> (r: String)
    ensures
        r@ == state_spec(code@, protocol@),
{
    if protocol.len() >= 3 && protocol[0] == 85 && protocol[1] == 68 && protocol[2] == 80 {
        return String::new();
    }
    let n: u64 = match parse_unsigned(code, 16, 256) {
        Some(v) => v,
        None => 0,
    };
    let name = if n == 1 {
        "ESTABLISHED"
    } else if n == 2 {
        "SYN_SENT"
    } else if n == 3 {
        "SYN_RECV"
    } else if n == 4 {
        "FIN_WAIT1"
    } else if n == 5 {
        "FIN_WAIT2"
    } else if n == 6 {
        "TIME_WAIT"
    } else if n == 7 {
        "CLOSE"
    } else if n == 8 {
        "CLOSE_WAIT"
    } else if n == 9 {
        "LAST_ACK"
    } else if n == 10 {
        "LISTEN"
    } else if n == 11 {
        "CLOSING"
    } else {
        "UNKNOWN"
    };
    name.to_owned()
}

/// Under a protocol whose name starts with `UDP` the state is empty, whatever the code.
pub proof fn lemma_udp_state_empty(code: Seq<u8>, protocol: Seq<u8>)
    requires
        is_udp(protocol),
    ensures
        state_spec(code, protocol) == Seq::<char>::empty(),
{
}

} // verus!
