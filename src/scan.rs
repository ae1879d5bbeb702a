use vstd::prelude::*;
use crate::address::{Address, parse_address, parse_address_spec};
use crate::text::chars_of;

verus! {

/// One address element of a host record: its text and its type tag.
#[derive(Clone, Debug)]
pub struct AddressRecord {
    pub addr: String,
    pub addrtype: String,
}

/// One host element of a decoded scan document.
#[derive(Clone, Debug)]
pub struct HostRecord {
    /// The `state` attribute of the host's status.
    pub state: String,
    pub addresses: Vec<AddressRecord>,
    /// The names of the hostnames container, where the record has one.
    pub hostnames: Option<Vec<String>>,
}

/// A decoded scan document: its host records in document order.
#[derive(Clone, Debug)]
pub struct ScanDocument {
    pub hosts: Vec<HostRecord>,
}

/// One discovered, reachable device.
#[derive(Clone, Debug)]
pub struct Host {
    pub address: Address,
    pub hostname: Option<String>,
}

/// What one scan produced: diagnostic text and the live hosts.
#[derive(Clone, Debug)]
pub struct ScanOutcome {
    pub raw_text: String,
    pub hosts: Vec<Host>,
}

pub open spec fn up_word() -> Seq<char> {
    seq!['u', 'p']
}

pub open spec fn ipv4_word() -> Seq<char> {
    seq!['i', 'p', 'v', '4']
}

/// The first address record, from `i` on, whose type tag is "ipv4".
pub open spec fn first_ipv4_from(addrs: Seq<AddressRecord>, i: int) -> Option<AddressRecord>
    decreases addrs.len() - i,
{
    if i < 0 || i >= addrs.len() {
        None
    } else if addrs[i].addrtype@ == ipv4_word() {
        Some(addrs[i])
    } else {
        first_ipv4_from(addrs, i + 1)
    }
}

pub open spec fn first_ipv4(addrs: Seq<AddressRecord>) -> Option<AddressRecord> {
    first_ipv4_from(addrs, 0)
}

/// The first name of a non-empty hostnames container, where that name is
/// not empty itself.
pub open spec fn first_name(names: Option<Vec<String>>) -> Option<String> {
    match names {
        Some(v) => if v@.len() > 0 && v@[0]@.len() > 0 {
            Some(v@[0])
        } else {
            None
        },
        None => None,
    }
}

/// The host that a record stands for: only an "up" record whose first ipv4
/// address parses gives one.
pub open spec fn host_of_record(rec: HostRecord) -> Option<Host> {
    if rec.state@ != up_word() {
        None
    } else {
        match first_ipv4(rec.addresses@) {
            Some(ar) => match parse_address_spec(ar.addr@) {
                Some(a) => Some(Host { address: a, hostname: first_name(rec.hostnames) }),
                None => None,
            },
            None => None,
        }
    }
}

/// The hosts of a sequence of records, in record order.
pub open spec fn hosts_of(recs: Seq<HostRecord>) -> Seq<Host>
    decreases recs.len(),
{
    if recs.len() == 0 {
        Seq::empty()
    } else {
        match host_of_record(recs.last()) {
            Some(h) => hosts_of(recs.drop_last()).push(h),
            None => hosts_of(recs.drop_last()),
        }
    }
}

fn str_equals(s: &str, lit: &str) -> (r: bool)
    ensures
        r == (s@ == lit@),
{
    let n = s.unicode_len();
    if n != lit.unicode_len() {
        return false;
    }
    let mut i: usize = 0;
    while i < n
        invariant
            n == s@.len(),
            n == lit@.len(),
            i <= n,
            forall|k: int| 0 <= k < i ==> s@[k] == lit@[k],
        decreases n - i,
    {
        if s.get_char(i) != lit.get_char(i) {
            return false;
        }
        i = i + 1;
    }
    assert(s@ =~= lit@);
    true
}

fn find_ipv4(addrs: &Vec<AddressRecord>) -> (r: Option<usize>)
    ensures
        match r {
            Some(i) => i < addrs@.len() && first_ipv4(addrs@) == Some(addrs@[i as int]),
            None => first_ipv4(addrs@) is None,
        },
{
    let n = addrs.len();
    let mut i: usize = 0;
    proof {
        reveal_strlit("ipv4");
        assert("ipv4"@ =~= ipv4_word());
    }
    while i < n
        invariant
            n == addrs@.len(),
            i <= n,
            first_ipv4(addrs@) == first_ipv4_from(addrs@, i as int),
            "ipv4"@ == ipv4_word(),
        decreases n - i,
    {
        if str_equals(addrs[i].addrtype.as_str(), "ipv4") {
            return Some(i);
        }
        i = i + 1;
    }
    None
}

fn first_name_of(names: &Option<Vec<String>>) -> (r: Option<String>)
    ensures
        r == first_name(*names),
{
    match names {
        Some(v) => if v.len() > 0 && !v[0].as_str().is_empty() {
            Some(v[0].clone())
        } else {
            None
        },
        None => None,
    }
}

/// The host a record stands for, as `host_of_record` states it.
pub fn record_host(rec: &HostRecord) -> (r: Option<Host>)
    ensures
        r == host_of_record(*rec),
{
    proof {
        reveal_strlit("up");
        assert("up"@ =~= up_word());
    }
    if !str_equals(rec.state.as_str(), "up") {
        return None;
    }
    match find_ipv4(&rec.addresses) {
        Some(i) => {
            let text = chars_of(rec.addresses[i].addr.as_str());
            match parse_address(text.as_slice()) {
                Some(a) => Some(Host { address: a, hostname: first_name_of(&rec.hostnames) }),
                None => None,
            }
        },
        None => None,
    }
}

/// The live hosts of a decoded scan document, in document order.
pub fn select_hosts(doc: &ScanDocument) -> (r: Vec<Host>)
    ensures
        r@ == hosts_of(doc.hosts@),
{
    let n = doc.hosts.len();
    let mut out: Vec<Host> = Vec::new();
    let mut i: usize = 0;
    while i < n
        invariant
            n == doc.hosts@.len(),
            i <= n,
            out@ == hosts_of(doc.hosts@.take(i as int)),
        decreases n - i,
    {
        proof {
            assert(doc.hosts@.take(i + 1).drop_last() =~= doc.hosts@.take(i as int));
        }
        match record_host(&doc.hosts[i]) {
            Some(h) => out.push(h),
            None => {},
        }
        i = i + 1;
    }
    assert(doc.hosts@.take(n as int) =~= doc.hosts@);
    out
}

pub open spec fn failure_prefix() -> Seq<char> {
    "Failed to start nmap: "@
}

pub open spec fn raw_text_of(stdout: Seq<char>, stderr: Seq<char>) -> Seq<char> {
    "STDOUT:\n"@ + stdout + "\n\nSTDERR:\n"@ + stderr
}

/// The outcome of a scan whose tool could not be started: no hosts, and the
/// reason in the diagnostic text.
pub fn spawn_failure_outcome(reason: &str) -> (r: ScanOutcome)
    ensures
        r.raw_text@ == failure_prefix() + reason@,
        r.hosts@.len() == 0,
{
    let mut raw_text = String::from_str("Failed to start nmap: ");
    raw_text.append(reason);
    ScanOutcome { raw_text, hosts: Vec::new() }
}

/// The outcome of a scan whose tool ran: both output streams in the
/// diagnostic text, and the live hosts of the decoded document, or none where
/// the output did not decode.
pub fn completed_outcome(stdout: &str, stderr: &str, decoded: Option<ScanDocument>) -> (r:
    ScanOutcome)
    ensures
        r.raw_text@ == raw_text_of(stdout@, stderr@),
        r.hosts@ == match decoded {
            Some(doc) => hosts_of(doc.hosts@),
            None => Seq::<Host>::empty(),
        },
{
    let mut raw_text = String::from_str("STDOUT:\n");
    raw_text.append(stdout);
    raw_text.append("\n\nSTDERR:\n");
    raw_text.append(stderr);
    let hosts = match decoded {
        Some(doc) => select_hosts(&doc),
        None => Vec::new(),
    };
    ScanOutcome { raw_text, hosts }
}

/// What a selected host owes to the record it came from: the record is
/// "up", its first ipv4 address spells the host's address, and the host's
/// name is the record's first name.
pub open spec fn selected_from(h: Host, rec: HostRecord) -> bool {
    &&& rec.state@ == up_word()
    &&& first_ipv4(rec.addresses@) is Some
    &&& parse_address_spec(first_ipv4(rec.addresses@)->0.addr@) == Some(h.address)
    &&& h.hostname == first_name(rec.hostnames)
}

proof fn lemma_host_origin(recs: Seq<HostRecord>, k: int)
    requires
        0 <= k < hosts_of(recs).len(),
    ensures
        exists|j: int| 0 <= j < recs.len() && selected_from(hosts_of(recs)[k], #[trigger] recs[j]),
    decreases recs.len(),
{
    let prev = hosts_of(recs.drop_last());
    if k < prev.len() {
        lemma_host_origin(recs.drop_last(), k);
        let j = choose|j: int|
            0 <= j < recs.drop_last().len() && selected_from(prev[k], #[trigger] recs.drop_last()[j]);
        assert(recs[j] == recs.drop_last()[j]);
        assert(hosts_of(recs)[k] == prev[k]);
    } else {
        let j = recs.len() - 1;
        assert(selected_from(hosts_of(recs)[k], recs[j]));
    }
}

/// Every selected host comes from a record that is "up" and whose first
/// ipv4 address spells the host's address, and a host's name, where it has
/// one, is not empty.
pub proof fn lemma_selected_hosts_are_live(recs: Seq<HostRecord>)
    ensures
        forall|k: int|
            0 <= k < hosts_of(recs).len() ==> exists|j: int|
                0 <= j < recs.len() && selected_from(#[trigger] hosts_of(recs)[k], recs[j]),
        forall|k: int|
            0 <= k < hosts_of(recs).len() && (#[trigger] hosts_of(recs)[k]).hostname is Some
                ==> hosts_of(recs)[k].hostname->0@.len() > 0,
{
    assert forall|k: int| 0 <= k < hosts_of(recs).len() implies exists|j: int|
        0 <= j < recs.len() && selected_from(#[trigger] hosts_of(recs)[k], recs[j]) by {
        lemma_host_origin(recs, k);
    }
    assert forall|k: int|
        0 <= k < hosts_of(recs).len() && (#[trigger] hosts_of(recs)[k]).hostname is Some
        implies hosts_of(recs)[k].hostname->0@.len() > 0 by {
        lemma_host_origin(recs, k);
    }
}

proof fn lemma_hosts_of_append(a: Seq<HostRecord>, b: Seq<HostRecord>)
    ensures
        hosts_of(a + b) == hosts_of(a) + hosts_of(b),
    decreases b.len(),
{
    if b.len() == 0 {
        assert(a + b =~= a);
        assert(hosts_of(a) + hosts_of(b) =~= hosts_of(a));
    } else {
        lemma_hosts_of_append(a, b.drop_last());
        assert((a + b).drop_last() =~= a + b.drop_last());
        assert((a + b).last() == b.last());
        match host_of_record(b.last()) {
            Some(h) => {
                assert(hosts_of(a) + hosts_of(b.drop_last()).push(h) =~= (hosts_of(a) + hosts_of(
                    b.drop_last(),
                )).push(h));
            },
            None => {},
        }
    }
}

/// A record with no ipv4 address contributes nothing: removing it leaves the
/// selected hosts as they are.
pub proof fn lemma_record_without_ipv4_dropped(recs: Seq<HostRecord>, k: int)
    requires
        0 <= k < recs.len(),
        first_ipv4(recs[k].addresses@) is None,
    ensures
        hosts_of(recs) == hosts_of(recs.remove(k)),
{
    let front = recs.take(k);
    let back = recs.skip(k + 1);
    let one = seq![recs[k]];
    assert(recs =~= front + one + back);
    assert(recs.remove(k) =~= front + back);
    assert(one.drop_last() =~= Seq::<HostRecord>::empty());
    assert(one.last() == recs[k]);
    assert(host_of_record(recs[k]) is None);
    assert(hosts_of(one.drop_last()) =~= Seq::<Host>::empty());
    assert(hosts_of(one) == hosts_of(one.drop_last()));
    lemma_hosts_of_append(front + one, back);
    lemma_hosts_of_append(front, one);
    lemma_hosts_of_append(front, back);
    assert(hosts_of(front) + hosts_of(one) =~= hosts_of(front));
}

/// Two outcomes made from the same tool output and the same decoded document
/// are the same: same diagnostic text, same hosts in the same order.
pub proof fn lemma_outcome_deterministic(
    stdout: Seq<char>,
    stderr: Seq<char>,
    decoded: Option<ScanDocument>,
    r1: ScanOutcome,
    r2: ScanOutcome,
)
    requires
        r1.raw_text@ == raw_text_of(stdout, stderr),
        r2.raw_text@ == raw_text_of(stdout, stderr),
        r1.hosts@ == match decoded {
            Some(doc) => hosts_of(doc.hosts@),
            None => Seq::<Host>::empty(),
        },
        r2.hosts@ == match decoded {
            Some(doc) => hosts_of(doc.hosts@),
            None => Seq::<Host>::empty(),
        },
    ensures
        r1.raw_text@ == r2.raw_text@,
        r1.hosts@ == r2.hosts@,
{
}

} // verus!
