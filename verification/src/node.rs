use vstd::prelude::*;

verus! {

use vstd::utf8::encode_utf8;
use vstd::string::StrSliceExecFns;
use crate::key::{Key, sha256_of};

/// Decimal digit as an ASCII byte.
pub open spec fn digit_byte(d: nat) -> u8 {
    (48 + (d % 10)) as u8
}

/// ASCII bytes of the decimal representation of `n`.
pub open spec fn dec_bytes(n: nat) -> Seq<u8>
    decreases n,
{
    if n < 10 {
        seq![digit_byte(n)]
    } else {
        dec_bytes(n / 10).push(digit_byte(n % 10))
    }
}

/// Decimal digit as a character.
pub open spec fn digit_char(d: nat) -> char {
    let r = d % 10;
    if r == 0 {
        '0'
    } else if r == 1 {
        '1'
    } else if r == 2 {
        '2'
    } else if r == 3 {
        '3'
    } else if r == 4 {
        '4'
    } else if r == 5 {
        '5'
    } else if r == 6 {
        '6'
    } else if r == 7 {
        '7'
    } else if r == 8 {
        '8'
    } else {
        '9'
    }
}

/// Characters of the decimal representation of `n`.
pub open spec fn dec_chars(n: nat) -> Seq<char>
    decreases n,
{
    if n < 10 {
        seq![digit_char(n)]
    } else {
        dec_chars(n / 10).push(digit_char(n % 10))
    }
}

/// The bytes hashed to derive a contact's identifier: the UTF-8 bytes
/// of its host, a colon, and the decimal digits of its port.
pub open spec fn spec_address_bytes(ip: Seq<char>, port: u16) -> Seq<u8> {
    encode_utf8(ip) + seq![58u8] + dec_bytes(port as nat)
}

/// Identifier a contact at `ip:port` carries.
pub open spec fn spec_node_id(ip: Seq<char>, port: u16) -> Seq<u8> {
    sha256_of(spec_address_bytes(ip, port))
}

/// Appends the decimal digits of `n` to `out`.
fn push_decimal(out: &mut Vec<u8>, n: u16)
    ensures
        final(out)@ == old(out)@ + dec_bytes(n as nat),
    decreases n,
{
    if n < 10 {
        out.push(48 + n as u8);
    } else {
        push_decimal(out, n / 10);
        out.push(48 + (n % 10) as u8);
    }
}

/// The `host:port` characters of a contact's address.
pub open spec fn spec_address(n: Node) -> Seq<char> {
    n.ip@ + seq![':'] + dec_chars(n.port as nat)
}

/// A resolvable address paired with an identifier. Two contacts are the
/// same contact exactly when their identifiers are equal.
#[derive(Debug)]
pub struct Node {
    pub id: Key,
    pub ip: String,
    pub port: u16,
}

/// Contacts that agree in identifier, host and port.
pub open spec fn node_eq(a: Node, b: Node) -> bool {
    a.id@ == b.id@ && a.ip@ == b.ip@ && a.port == b.port
}

impl Clone for Node {
    fn clone(&self) -> (r: Self)
        ensures
            node_eq(r, *self),
    {
        Node { id: self.id, ip: self.ip.clone(), port: self.port }
    }
}

/// Relies on std string formatting: `format!("{}:{}", ip, port)` yields
/// the host characters, a colon, and the decimal digits of the port.
#[verifier::external_body]
fn format_address(ip: &str, port: u16) -> (r: String)
    ensures
        r@ == ip@ + seq![':'] + dec_chars(port as nat),
{
    format!("{}:{}", ip, port)
}

impl Node {
    /// Creates the contact at `ip:port`; its identifier is the hash of
    /// that address, so equal addresses always yield the same contact.
    pub fn new(ip: String, port: u16) -> (r: Node)
        ensures
            r.ip@ == ip@,
            r.port == port,
            r.id@ == spec_node_id(ip@, port),
            r.id@.len() == 32,
    {
        let mut bytes: Vec<u8> = ip.as_str().as_bytes_vec();
        bytes.push(58);
        push_decimal(&mut bytes, port);
        proof {
            assert(bytes@ =~= spec_address_bytes(ip@, port));
        }
        let id = Key::from_data(&bytes);
        Node { id, ip, port }
    }

    /// The `host:port` form of this contact's address.
    pub fn get_address(&self) -> (r: String)
        ensures
            r@ == spec_address(*self),
    {
        format_address(self.ip.as_str(), self.port)
    }
}

} // verus!
