use vstd::prelude::*;

verus! {

/// The highest TCP port number.
pub const MAX_PORT: u16 = 65535;

/// Accepts a starting port only when it is above zero.
pub fn start_port_guard(input: &u16) -> (r: bool)
    ensures
        r == (*input > 0),
{
    *input > 0
}

/// Accepts an ending port only when it is at least `MAX_PORT`.
pub fn end_port_guard(input: &u16) -> (r: bool)
    ensures
        r == (*input >= MAX_PORT),
{
    *input >= MAX_PORT
}

/// A target address: the four octets of an IPv4 address or the eight
/// segments of an IPv6 address.
#[derive(Clone, Copy, Debug)]
pub enum IpAddress {
    V4([u8; 4]),
    V6([u16; 8]),
}

impl IpAddress {
    /// The address scanned when none is given: `127.0.0.1`.
    pub fn fallback() -> (r: IpAddress)
        ensures
            r matches IpAddress::V4(o) && o@ == seq![127u8, 0u8, 0u8, 1u8],
    {
        let r = IpAddress::V4([127, 0, 0, 1]);
        proof {
            assert(r->V4_0@ =~= seq![127u8, 0u8, 0u8, 1u8]);
        }
        r
    }
}

/// The ports `start, start + 1, ..., end - 1`, in that order; empty when
/// `start >= end`.
pub open spec fn port_range(start: u16, end: u16) -> Seq<u16> {
    if start < end {
        Seq::new((end - start) as nat, |i: int| (start + i) as u16)
    } else {
        Seq::empty()
    }
}

/// What one scan is asked to do: attempt every port of `[start_port, end_port)`
/// on `address`.
#[derive(Clone, Copy, Debug)]
pub struct ScanRequest {
    pub address: IpAddress,
    pub start_port: u16,
    pub end_port: u16,
}

impl ScanRequest {
    /// A request is well formed when its starting port is above zero.
    pub open spec fn wf(&self) -> bool {
        self.start_port > 0
    }

    /// Builds a request; `None` exactly when `start_port` is zero.
    pub fn new(address: IpAddress, start_port: u16, end_port: u16) -> (r: Option<ScanRequest>)
        ensures
            r is None <==> start_port == 0,
            r matches Some(q) ==> q.wf() && q.address == address && q.start_port == start_port
                && q.end_port == end_port,
    {
        if start_port_guard(&start_port) {
            Some(ScanRequest { address, start_port, end_port })
        } else {
            None
        }
    }

    /// The ports to attempt, one connection attempt each, in ascending order.
    pub fn ports(&self) -> (r: Vec<u16>)
        ensures
            r@ == port_range(self.start_port, self.end_port),
    {
        let mut r: Vec<u16> = Vec::new();
        if self.start_port < self.end_port {
            let mut p: u16 = self.start_port;
            proof {
                assert(r@ =~= port_range(self.start_port, p));
            }
            while p < self.end_port
                invariant
                    self.start_port <= p <= self.end_port,
                    r@ == port_range(self.start_port, p),
                decreases self.end_port - p,
            {
                r.push(p);
                p = p + 1;
                proof {
                    assert(r@ =~= port_range(self.start_port, p));
                }
            }
            proof {
                assert(r@ =~= port_range(self.start_port, self.end_port));
            }
        }
        r
    }
}

/// Every port of `[start, end)` is attempted exactly once, and no port
/// outside that range is attempted.
pub proof fn lemma_each_port_attempted_once(start: u16, end: u16, p: u16)
    ensures
        port_range(start, end).contains(p) <==> start <= p < end,
        port_range(start, end).no_duplicates(),
{
    let s = port_range(start, end);
    if start <= p < end {
        assert(s[p - start] == p);
    }
}

} // verus!
