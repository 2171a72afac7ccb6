//! A network endpoint reference: either a numeric IPv4 address or a domain
//! name. Textual conversion is total: text that is no strict dotted quad is
//! accepted verbatim as a domain, since domain validity is the resolver's
//! concern, not this layer's.

use crate::error::Error;
use crate::ipv4::{ipv4_text, ipv4_valid, ipv4_value, lemma_ipv4_round_trip, Ipv4};
use vstd::prelude::*;

verus! {

/// Spec-level value of a `Host`.
pub enum HostModel {
    Ip(Seq<u8>),
    Domain(Seq<char>),
}

#[derive(Debug, Clone, PartialEq, Eq)]
pub enum Host {
    Ip(Ipv4),
    Domain(String),
}

impl View for Host {
    type V = HostModel;

    open spec fn view(&self) -> HostModel {
        match self {
            Host::Ip(ip) => HostModel::Ip(ip@),
            Host::Domain(d) => HostModel::Domain(d@),
        }
    }
}

/// How host text is classified: a strict dotted quad is an address, any
/// other text is a domain, verbatim.
pub open spec fn host_of(s: Seq<char>) -> HostModel {
    if ipv4_valid(s) {
        HostModel::Ip(ipv4_value(s))
    } else {
        HostModel::Domain(s)
    }
}

/// The canonical text of a host: the numeric or domain text itself.
pub open spec fn host_text(m: HostModel) -> Seq<char> {
    match m {
        HostModel::Ip(o) => ipv4_text(o),
        HostModel::Domain(d) => d,
    }
}

impl Host {
    /// Classifies text as an address or a domain; total.
    pub fn classify(s: &str) -> (h: Host)
        ensures
            h@ == host_of(s@),
    {
        match Ipv4::parse(s) {
            Some(ip) => Host::Ip(ip),
            None => Host::Domain(s.to_owned()),
        }
    }

    /// Total conversion from text; never fails.
    pub fn from_str(s: &str) -> (r: Result<Host, Error>)
        ensures
            r matches Ok(h) && h@ == host_of(s@),
    {
        Ok(Host::classify(s))
    }

    /// Canonical display of the host.
    pub fn to_text(&self) -> (t: String)
        ensures
            t@ == host_text(self@),
    {
        match self {
            Host::Ip(ip) => ip.to_text(),
            Host::Domain(d) => d.clone(),
        }
    }
}

impl core::str::FromStr for Host {
    type Err = Error;

    fn from_str(s: &str) -> Result<Host, Error> {
        Host::from_str(s)
    }
}

/// Round trip: the canonical text of a host classifies back to the same
/// host. A domain whose text happens to be a strict dotted quad is the one
/// value the classification maps elsewhere, so it is left out.
pub proof fn lemma_host_round_trip(m: HostModel)
    requires
        m matches HostModel::Ip(o) ==> o.len() == 4,
        m matches HostModel::Domain(d) ==> !ipv4_valid(d),
    ensures
        host_of(host_text(m)) == m,
{
    match m {
        HostModel::Ip(o) => {
            lemma_ipv4_round_trip(o);
        },
        HostModel::Domain(d) => {
        },
    }
}

} // verus!
