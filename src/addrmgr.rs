//! Address manager: the known peer addresses, where they came from, and
//! which one to try next.
//!
//! Addresses are IPv4 endpoints; an address is held as its four octets in
//! network order, as one `u32`.
use crate::fsm::PeerId;
use crate::time::LocalTime;
use vstd::prelude::*;

verus! {

/// An IPv4 endpoint.
#[derive(Clone, Copy, Debug, PartialEq, Eq, Structural)]
pub struct Endpoint {
    /// The address, octets in network order.
    pub ip: u32,
    /// The port.
    pub port: u16,
}

/// Where an address was learned.
#[derive(Clone, Copy, Debug, PartialEq, Eq, Structural)]
pub enum Source {
    /// A DNS seed.
    Dns,
    /// An `addr` message of a peer.
    Peer(PeerId),
    /// The user.
    User,
    /// An address file.
    Imported,
}

/// A known address.
#[derive(Clone, Copy, Debug, PartialEq, Eq, Structural)]
pub struct KnownAddress {
    /// The endpoint.
    pub endpoint: Endpoint,
    /// Services it advertised.
    pub services: u64,
    /// Where it was learned.
    pub source: Source,
    /// Last successful connection.
    pub last_success: Option<LocalTime>,
    /// Last connection attempt.
    pub last_attempt: Option<LocalTime>,
}

/// Whether `ip` is refused: unspecified or "this network" (0/8), private
/// (10/8, 172.16/12, 192.168/16), shared (100.64/10), loopback (127/8),
/// link-local (169.254/16), documentation (192.0.2/24, 198.51.100/24,
/// 203.0.113/24), benchmarking (198.18/15), multicast (224/4) or reserved
/// and broadcast (240/4).
pub open spec fn unroutable(ip: u32) -> bool {
    ||| ip / 0x1000000 == 0
    ||| ip / 0x1000000 == 10
    ||| ip / 0x100000 == 0xAC1
    ||| ip / 0x10000 == 0xC0A8
    ||| ip / 0x400000 == 0x191
    ||| ip / 0x1000000 == 127
    ||| ip / 0x10000 == 0xA9FE
    ||| ip / 0x100 == 0xC00002
    ||| ip / 0x100 == 0xC63364
    ||| ip / 0x100 == 0xCB0071
    ||| ip / 0x20000 == 0x6309
    ||| ip / 0x10000000 == 0xE
    ||| ip / 0x10000000 == 0xF
}

/// Whether `ip` is refused.
pub fn is_unroutable(ip: u32) -> (r: bool)
    ensures
        r == unroutable(ip),
{
    ip / 0x1000000 == 0 || ip / 0x1000000 == 10 || ip / 0x100000 == 0xAC1 || ip / 0x10000
        == 0xC0A8 || ip / 0x400000 == 0x191 || ip / 0x1000000 == 127 || ip / 0x10000 == 0xA9FE
        || ip / 0x100 == 0xC00002 || ip / 0x100 == 0xC63364 || ip / 0x100 == 0xCB0071 || ip
        / 0x20000 == 0x6309 || ip / 0x10000000 == 0xE || ip / 0x10000000 == 0xF
}

/// Whether some entry of `addrs` is for `e`.
pub open spec fn knows(addrs: Seq<KnownAddress>, e: Endpoint) -> bool {
    exists|i: int| 0 <= i < addrs.len() && #[trigger] addrs[i].endpoint == e
}

/// Position of the entry for `e`.
pub open spec fn entry_of(addrs: Seq<KnownAddress>, e: Endpoint) -> int {
    choose|i: int| 0 <= i < addrs.len() && #[trigger] addrs[i].endpoint == e
}

/// Whether `a` is to be preferred to `b` when sampling for `services`: it
/// offers all of them and `b` does not; or both or neither do, and it was
/// attempted earlier, never counting as earliest.
pub open spec fn preferred(a: KnownAddress, b: KnownAddress, services: u64) -> bool {
    let fa = a.services & services == services;
    let fb = b.services & services == services;
    if fa != fb {
        fa
    } else {
        match (a.last_attempt, b.last_attempt) {
            (None, Some(_)) => true,
            (Some(x), Some(y)) => x < y,
            _ => false,
        }
    }
}

/// Position of the entry to try among the first `n` of `addrs`, skipping
/// `connected` ones: the most preferred, the first among equals.
pub open spec fn sample_choice(
    addrs: Seq<KnownAddress>,
    connected: Seq<Endpoint>,
    services: u64,
    n: int,
) -> Option<int>
    decreases n,
{
    if n <= 0 {
        None
    } else {
        let best = sample_choice(addrs, connected, services, n - 1);
        let a = addrs[n - 1];
        if connected.contains(a.endpoint) {
            best
        } else {
            match best {
                Some(b) => if preferred(a, addrs[b], services) {
                    Some(n - 1)
                } else {
                    Some(b)
                },
                None => Some(n - 1),
            }
        }
    }
}

/// The known addresses.
pub struct AddressManager {
    addrs: Vec<KnownAddress>,
}

impl View for AddressManager {
    type V = Seq<KnownAddress>;

    closed spec fn view(&self) -> Seq<KnownAddress> {
        self.addrs@
    }
}

/// No two entries share an endpoint.
pub open spec fn endpoints_unique(addrs: Seq<KnownAddress>) -> bool {
    forall|i: int, j: int|
        #![trigger addrs[i].endpoint, addrs[j].endpoint]
        0 <= i < addrs.len() && 0 <= j < addrs.len() && addrs[i].endpoint == addrs[j].endpoint
            ==> i == j
}

impl AddressManager {
    /// A manager that knows no address.
    pub fn new() -> (r: Self)
        ensures
            r@ == Seq::<KnownAddress>::empty(),
    {
        AddressManager { addrs: Vec::new() }
    }

    /// Position of the entry for `e`, if any.
    fn position(&self, e: Endpoint) -> (r: Option<usize>)
        requires
            endpoints_unique(self@),
        ensures
            r is Some <==> knows(self@, e),
            r is Some ==> r->0 == entry_of(self@, e),
    {
        let mut i: usize = 0;
        while i < self.addrs.len()
            invariant
                0 <= i <= self@.len(),
                self@ == self.addrs@,
                endpoints_unique(self@),
                forall|k: int| 0 <= k < i ==> #[trigger] self@[k].endpoint != e,
            decreases self@.len() - i,
        {
            if self.addrs[i].endpoint == e {
                proof {
                    let j = entry_of(self@, e);
                    assert(self@[i as int].endpoint == e);
                    assert(knows(self@, e));
                    assert(self@[j].endpoint == self@[i as int].endpoint);
                }
                return Some(i);
            }
            i += 1;
        }
        None
    }

    /// Learn endpoint `e`, advertising `services`, from `source`. A refused
    /// address or one known already changes nothing; `true` says it was added.
    pub fn insert(&mut self, e: Endpoint, source: Source, services: u64) -> (r: bool)
        requires
            endpoints_unique(old(self)@),
        ensures
            endpoints_unique(final(self)@),
            r == (!unroutable(e.ip) && !knows(old(self)@, e)),
            r ==> final(self)@ == old(self)@.push(
                KnownAddress {
                    endpoint: e,
                    services,
                    source,
                    last_success: None,
                    last_attempt: None,
                },
            ),
            !r ==> final(self)@ == old(self)@,
    {
        if is_unroutable(e.ip) || self.position(e).is_some() {
            return false;
        }
        let ghost olds = self@;
        self.addrs.push(
            KnownAddress { endpoint: e, services, source, last_success: None, last_attempt: None },
        );
        proof {
            let news = self@;
            assert forall|a: int, b: int|
                #![trigger news[a].endpoint, news[b].endpoint]
                0 <= a < news.len() && 0 <= b < news.len() && news[a].endpoint == news[b].endpoint
                    implies a == b by {
                if a < olds.len() && b < olds.len() {
                    assert(olds[a].endpoint == olds[b].endpoint);
                } else if a < olds.len() {
                    assert(olds[a].endpoint == e);
                } else if b < olds.len() {
                    assert(olds[b].endpoint == e);
                }
            }
        }
        true
    }

    /// Set the entry at `i` to `k`, of the same endpoint.
    fn replace(&mut self, i: usize, k: KnownAddress)
        requires
            endpoints_unique(old(self)@),
            i < old(self)@.len(),
            k.endpoint == old(self)@[i as int].endpoint,
        ensures
            endpoints_unique(final(self)@),
            final(self)@ == old(self)@.update(i as int, k),
    {
        let ghost olds = self@;
        self.addrs.set(i, k);
        proof {
            let news = self@;
            assert forall|a: int, b: int|
                #![trigger news[a].endpoint, news[b].endpoint]
                0 <= a < news.len() && 0 <= b < news.len() && news[a].endpoint == news[b].endpoint
                    implies a == b by {
                assert(news[a].endpoint == olds[a].endpoint);
                assert(news[b].endpoint == olds[b].endpoint);
            }
        }
    }

    /// Record a connection attempt to `e` at `now`, if `e` is known.
    pub fn record_attempt(&mut self, e: Endpoint, now: LocalTime)
        requires
            endpoints_unique(old(self)@),
        ensures
            endpoints_unique(final(self)@),
            final(self)@ == if knows(old(self)@, e) {
                old(self)@.update(
                    entry_of(old(self)@, e),
                    KnownAddress { last_attempt: Some(now), ..old(self)@[entry_of(old(self)@, e)] },
                )
            } else {
                old(self)@
            },
    {
        if let Some(i) = self.position(e) {
            let k = self.addrs[i];
            self.replace(i, KnownAddress { last_attempt: Some(now), ..k });
        }
    }

    /// Record a successful connection to `e` at `now`, if `e` is known.
    pub fn record_success(&mut self, e: Endpoint, now: LocalTime)
        requires
            endpoints_unique(old(self)@),
        ensures
            endpoints_unique(final(self)@),
            final(self)@ == if knows(old(self)@, e) {
                old(self)@.update(
                    entry_of(old(self)@, e),
                    KnownAddress { last_success: Some(now), ..old(self)@[entry_of(old(self)@, e)] },
                )
            } else {
                old(self)@
            },
    {
        if let Some(i) = self.position(e) {
            let k = self.addrs[i];
            self.replace(i, KnownAddress { last_success: Some(now), ..k });
        }
    }

    /// An address to try, other than the `connected` ones: one that offers
    /// all of `services` if any does, then the one attempted longest ago,
    /// never-attempted ones first; the first learned among equals.
    pub fn sample(&self, services: u64, connected: &Vec<Endpoint>) -> (r: Option<Endpoint>)
        ensures
            r == match sample_choice(self@, connected@, services, self@.len() as int) {
                Some(i) => Some(self@[i].endpoint),
                None => None::<Endpoint>,
            },
    {
        let mut best: Option<usize> = None;
        let mut i: usize = 0;
        while i < self.addrs.len()
            invariant
                0 <= i <= self@.len(),
                self@ == self.addrs@,
                best == match sample_choice(self@, connected@, services, i as int) {
                    Some(b) => Some(b as usize),
                    None => None::<usize>,
                },
                forall|b: int|
                    sample_choice(self@, connected@, services, i as int) == Some(b) ==> 0 <= b
                        < i,
            decreases self@.len() - i,
        {
            let a = self.addrs[i];
            if !contains_endpoint(connected, a.endpoint) {
                match best {
                    Some(b) => {
                        if prefers(&a, &self.addrs[b], services) {
                            best = Some(i);
                        }
                    },
                    None => {
                        best = Some(i);
                    },
                }
            }
            i += 1;
        }
        match best {
            Some(b) => Some(self.addrs[b].endpoint),
            None => None,
        }
    }
}

/// Whether `list` holds `e`.
fn contains_endpoint(list: &Vec<Endpoint>, e: Endpoint) -> (r: bool)
    ensures
        r == list@.contains(e),
{
    let mut i: usize = 0;
    while i < list.len()
        invariant
            0 <= i <= list@.len(),
            forall|k: int| 0 <= k < i ==> #[trigger] list@[k] != e,
        decreases list@.len() - i,
    {
        if list[i] == e {
            assert(list@[i as int] == e);
            return true;
        }
        i += 1;
    }
    false
}

/// Whether `a` is to be preferred to `b` when sampling for `services`.
fn prefers(a: &KnownAddress, b: &KnownAddress, services: u64) -> (r: bool)
    ensures
        r == preferred(*a, *b, services),
{
    let fa = a.services & services == services;
    let fb = b.services & services == services;
    if fa != fb {
        return fa;
    }
    match (a.last_attempt, b.last_attempt) {
        (None, Some(_)) => true,
        (Some(x), Some(y)) => x < y,
        _ => false,
    }
}

} // verus!
