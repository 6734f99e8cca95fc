//! Counters and per-domain request logs kept by the proxy.

use vstd::prelude::*;
use crate::config::opt_text;
use crate::keyed::StringMap;
use std::time::Instant;

verus! {

/// A client address, by its numeric parts.
#[derive(Clone, Copy, Debug, PartialEq, Eq)]
pub enum IpAddress {
    V4([u8; 4]),
    V6([u16; 8]),
}

/// One logged request.
#[derive(Clone, Debug)]
pub struct LogEntry {
    pub domain: String,
    pub ip: IpAddress,
    pub path: Option<String>,
    pub event: &'static str,
    pub time: String,
}

/// What the proxy has seen of one domain.
#[derive(Clone)]
pub struct ProxyDomainStats {
    pub total_connections: usize,
    pub log: Vec<LogEntry>,
    pub last_active: String,
}

impl Default for ProxyDomainStats {
    fn default() -> (r: Self)
        ensures
            r.total_connections == 0,
            r.log@.len() == 0,
            r.last_active@.len() == 0,
    {
        ProxyDomainStats { total_connections: 0, log: Vec::new(), last_active: String::new() }
    }
}

/// Firewall counters and lists.
#[derive(Clone)]
pub struct FirewallStats {
    pub blocked: usize,
    pub whitelisted: Vec<String>,
    pub blacklisted: Vec<String>,
}

impl Default for FirewallStats {
    fn default() -> (r: Self)
        ensures
            r.blocked == 0,
            r.whitelisted@.len() == 0,
            r.blacklisted@.len() == 0,
    {
        FirewallStats { blocked: 0, whitelisted: Vec::new(), blacklisted: Vec::new() }
    }
}

/// System-wide statistics.
#[derive(Clone)]
pub struct SystemStats {
    pub firewall: FirewallStats,
}

impl Default for SystemStats {
    fn default() -> (r: Self)
        ensures
            r.firewall.blocked == 0,
            r.firewall.whitelisted@.len() == 0,
            r.firewall.blacklisted@.len() == 0,
    {
        SystemStats { firewall: FirewallStats::default() }
    }
}

/// Denial-of-service counters.
#[derive(Clone)]
pub struct DDoSStats {
    pub blocked: usize,
}

impl Default for DDoSStats {
    fn default() -> (r: Self)
        ensures
            r.blocked == 0,
    {
        DDoSStats { blocked: 0 }
    }
}

/// Bytes moved in each direction.
#[derive(Clone)]
pub struct DataUsage {
    pub upload: usize,
    pub download: usize,
}

impl Default for DataUsage {
    fn default() -> (r: Self)
        ensures
            r.upload == 0,
            r.download == 0,
    {
        DataUsage { upload: 0, download: 0 }
    }
}

/// All statistics of the proxy, with one record per proxied domain.
pub struct ProxyStatistics {
    pub system: SystemStats,
    pub ddos_attacks: DDoSStats,
    pub data_usage: DataUsage,
    pub proxies: StringMap<ProxyDomainStats>,
}

impl Default for ProxyStatistics {
    fn default() -> (r: Self)
        ensures
            r.system.firewall.blocked == 0,
            r.system.firewall.whitelisted@.len() == 0,
            r.system.firewall.blacklisted@.len() == 0,
            r.ddos_attacks.blocked == 0,
            r.data_usage.upload == 0,
            r.data_usage.download == 0,
            r.proxies.wf(),
            r.proxies@ == Map::<Seq<char>, ProxyDomainStats>::empty(),
    {
        ProxyStatistics {
            system: SystemStats::default(),
            ddos_attacks: DDoSStats::default(),
            data_usage: DataUsage::default(),
            proxies: StringMap::new(),
        }
    }
}

/// `stats` after one more request logged as `entry`, with `active` as the
/// time of last activity.
pub open spec fn logged(stats: ProxyDomainStats, after: ProxyDomainStats, entry_domain: Seq<char>,
    ip: IpAddress, path: Option<Seq<char>>, event: &'static str) -> bool {
    let n = stats.log@.len();
    &&& after.total_connections == stats.total_connections
    &&& after.log@.len() == n + 1
    &&& after.log@.subrange(0, n as int) == stats.log@
    &&& after.log@[n as int].domain@ == entry_domain
    &&& after.log@[n as int].ip == ip
    &&& opt_text(after.log@[n as int].path) == path
    &&& after.log@[n as int].event == event
}

/// The number of requests counted for `domain` (none for an unknown domain).
pub open spec fn connections_of(stats: Map<Seq<char>, ProxyDomainStats>, domain: Seq<char>) -> int {
    if stats.dom().contains(domain) {
        stats[domain].total_connections as int
    } else {
        0
    }
}

impl ProxyStatistics {
    /// The number of requests counted for `domain`.
    pub fn connections(&self, domain: &str) -> (r: usize)
        requires
            self.proxies.wf(),
        ensures
            r == connections_of(self.proxies@, domain@),
    {
        match self.proxies.get(domain) {
            Some(s) => s.total_connections,
            None => 0,
        }
    }

    /// Counts one forwarded request for `domain` and logs it, creating the
    /// domain's record when it has none.
    pub fn record_connection(
        &mut self,
        domain: &str,
        ip: IpAddress,
        path: String,
        event: &'static str,
        start_time: Instant,
    )
        requires
            old(self).proxies.wf(),
            connections_of(old(self).proxies@, domain@) < usize::MAX,
        ensures
            final(self).proxies.wf(),
            final(self).proxies@.dom() == old(self).proxies@.dom().insert(domain@),
            forall|d: Seq<char>| d != domain@ && #[trigger] old(self).proxies@.dom().contains(d)
                ==> final(self).proxies@[d] == old(self).proxies@[d],
            connections_of(final(self).proxies@, domain@) == connections_of(old(self).proxies@, domain@) + 1,
            ({
                let before = if old(self).proxies@.dom().contains(domain@) {
                    old(self).proxies@[domain@].log@
                } else {
                    Seq::empty()
                };
                let after = final(self).proxies@[domain@].log@;
                &&& after.len() == before.len() + 1
                &&& after.subrange(0, before.len() as int) == before
                &&& after[before.len() as int].domain@ == domain@
                &&& after[before.len() as int].ip == ip
                &&& after[before.len() as int].path == Some(path)
                &&& after[before.len() as int].event == event
                &&& exists|ms: u128, date: Seq<char>|
                    crate::global::is_date_text(date) && after[before.len() as int].time@
                        == #[trigger] crate::global::log_time(ms, date)
            }),
            crate::global::is_date_text(final(self).proxies@[domain@].last_active@),
    {
        let mut stats = match self.proxies.remove(domain) {
            Some(s) => s,
            None => ProxyDomainStats::default(),
        };
        crate::global::logger(domain, ip, Some(path), event, &mut stats, start_time);
        stats.total_connections = stats.total_connections + 1;
        let key = crate::text::string_of(&crate::text::chars_of(domain));
        self.proxies.insert(key, stats);
        proof {
            assert(final(self).proxies@.dom() =~= old(self).proxies@.dom().insert(domain@));
        }
    }
}

} // verus!
