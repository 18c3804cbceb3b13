use vstd::prelude::*;
use crate::table::TableKey;

verus! {

/// An IPv4 network prefix: an address (as the big-endian `u32` of its four
/// octets) and a prefix length.
///
/// The address is kept as it was given, not truncated to the network.
#[derive(Clone, Copy, PartialEq, Eq, Structural, Debug, Hash)]
pub struct Prefix {
    pub addr: u32,
    pub len: u8,
}

/// Why a string was not taken as an IPv4 prefix.
#[derive(Clone, Copy, PartialEq, Eq, Structural, Debug)]
pub enum PrefixParseError {
    /// The text is not of the form `a.b.c.d/len` with `len <= 32`.
    Malformed,
}

#[verifier::external_type_specification]
#[verifier::external_body]
pub struct ExAddrParseError(ipnet::AddrParseError);

/// What `<ipnet::Ipv4Net as FromStr>::from_str` returns for a string, given
/// as the address (big-endian `u32`) and prefix length of the network it
/// reads, or `None` where it refuses the text.
pub uninterp spec fn ipv4_net_from_str(s: Seq<char>) -> Option<(u32, u8)>;

/// Calls `<ipnet::Ipv4Net as FromStr>::from_str` and hands back the address
/// and prefix length of the network read.
///
/// Claimed of it: the result is `ipv4_net_from_str` of the text, and a
/// network that it reads has a prefix length of at most 32 (the parser reads
/// the length as a number below 33 and then builds the net with
/// `Ipv4Net::new`, which refuses a longer one).
#[verifier::external_body]
fn parse_ipv4_net(s: &str) -> (r: Result<(u32, u8), ipnet::AddrParseError>)
    ensures
        r is Ok <==> ipv4_net_from_str(s@) is Some,
        r matches Ok(v) ==> ipv4_net_from_str(s@) == Some(v) && v.1 <= 32,
{
    match s.parse::<ipnet::Ipv4Net>() {
        Ok(net) => Ok((u32::from(net.addr()), net.prefix_len())),
        Err(e) => Err(e),
    }
}

impl TableKey for Prefix {
    fn same_key(&self, other: &Self) -> (b: bool) {
        self.addr == other.addr && self.len == other.len
    }
}

impl Prefix {
    /// Reads a prefix written as `a.b.c.d/len`, the way `ipnet::Ipv4Net`
    /// reads it.
    pub fn parse(s: &str) -> (r: Result<Prefix, PrefixParseError>)
        ensures
            match ipv4_net_from_str(s@) {
                Some(v) => r == Ok::<Prefix, PrefixParseError>(Prefix { addr: v.0, len: v.1 }),
                None => r == Err::<Prefix, PrefixParseError>(PrefixParseError::Malformed),
            },
            r matches Ok(p) ==> p.len <= 32,
    {
        match parse_ipv4_net(s) {
            Ok(v) => Ok(Prefix { addr: v.0, len: v.1 }),
            Err(_) => Err(PrefixParseError::Malformed),
        }
    }
}

} // verus!
