use vstd::prelude::*;
use crate::address::{Address, dotted};
use crate::scan::{Host, ScanOutcome};

verus! {

/// The /24 network that holds `gw`: its last octet set to zero.
pub open spec fn network_of(gw: Address) -> Address {
    Address { a: gw.a, b: gw.b, c: gw.c, d: 0 }
}

/// The scan target for a gateway, such as "192.168.1.0/24".
pub open spec fn subnet_of(gw: Address) -> Seq<char> {
    dotted(network_of(gw)) + seq!['/', '2', '4']
}

/// The scan target for a gateway, in address/prefix-length notation.
pub fn subnet_text(gw: Address) -> (r: String)
    ensures
        r@ == subnet_of(gw),
{
    let net = Address { a: gw.a, b: gw.b, c: gw.c, d: 0 };
    let mut r = net.to_text();
    proof {
        reveal_strlit("/24");
    }
    r.append("/24");
    assert(r@ =~= subnet_of(gw));
    r
}

/// The consumer's side of scanning: the gateway found at startup, whether a
/// scan runs, and what the last finished scan delivered. At most one scan
/// runs at a time; its result handle is held beside this state exactly while
/// `running` is set.
pub struct ScanSession {
    pub gateway: Option<Address>,
    pub running: bool,
    pub hosts: Vec<Host>,
    pub raw_output: String,
}

impl ScanSession {
    /// An idle session with nothing delivered yet.
    pub fn new(gateway: Option<Address>) -> (r: Self)
        ensures
            r.gateway == gateway,
            !r.running,
            r.hosts@.len() == 0,
            r.raw_output@.len() == 0,
    {
        ScanSession { gateway, running: false, hosts: Vec::new(), raw_output: String::new() }
    }

    /// A scan may start: the gateway is known and no scan runs.
    pub open spec fn may_start(&self) -> bool {
        self.gateway is Some && !self.running
    }

    pub fn can_scan(&self) -> (r: bool)
        ensures
            r == self.may_start(),
    {
        self.gateway.is_some() && !self.running
    }

    /// Starts a scan where one may start: marks the session running, clears
    /// what the last scan delivered, and returns the subnet to scan. Otherwise
    /// returns `None` and changes nothing.
    pub fn start_scan(&mut self) -> (r: Option<String>)
        ensures
            old(self).may_start() ==> {
                &&& r is Some
                &&& r->0@ == subnet_of(old(self).gateway->0)
                &&& final(self).running
                &&& final(self).gateway == old(self).gateway
                &&& final(self).hosts@.len() == 0
                &&& final(self).raw_output@.len() == 0
            },
            !old(self).may_start() ==> r is None && *final(self) == *old(self),
    {
        if self.running {
            return None;
        }
        match self.gateway {
            Some(gw) => {
                let subnet = subnet_text(gw);
                self.running = true;
                self.hosts = Vec::new();
                self.raw_output = String::new();
                Some(subnet)
            },
            None => None,
        }
    }

    /// Takes a delivered outcome, if the running scan has sent one: the
    /// session becomes idle and shows it. With nothing delivered, or no scan
    /// running, nothing changes.
    pub fn poll(&mut self, delivered: Option<ScanOutcome>) -> (r: bool)
        ensures
            r == (old(self).running && delivered is Some),
            r ==> {
                &&& !final(self).running
                &&& final(self).gateway == old(self).gateway
                &&& final(self).hosts == delivered->0.hosts
                &&& final(self).raw_output == delivered->0.raw_text
            },
            !r ==> *final(self) == *old(self),
    {
        if !self.running {
            return false;
        }
        match delivered {
            Some(outcome) => {
                self.hosts = outcome.hosts;
                self.raw_output = outcome.raw_text;
                self.running = false;
                true
            },
            None => false,
        }
    }
}

} // verus!
