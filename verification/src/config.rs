//! The configuration document model: a strict decode of a structured
//! document into named networks and named servers. Top-level keys other
//! than `network` and `server` are rejected; within each collection a
//! duplicate name is a hard failure; `server` must appear (an empty list
//! under it is legal and distinct from absence); every leaf failure abandons
//! the whole document.

use crate::error::{mac_error_matches, mac_parse_error_message, MacErrorModel, MacParseError};
use crate::hardware_address::{mac_spec, HardwareAddress};
use crate::host::{host_of, Host, HostModel};
use crate::ipv4::{ipv4_valid, ipv4_value, Ipv4};
use crate::text::str_eq;
use crate::wol::{password_of, Password, PasswordModel};
use vstd::prelude::*;

verus! {

// ---------------------------------------------------------------------------
// The document values handed in by the I/O collaborator
// ---------------------------------------------------------------------------

/// A plain structured document value: key/value tables, sequences, text,
/// integers and booleans, in document order.
#[derive(Debug, PartialEq, Eq)]
pub enum DocValue {
    Text(String),
    Int(i64),
    Bool(bool),
    List(Vec<DocValue>),
    Table(Vec<DocEntry>),
}

/// One key/value pair of a document table, in document order.
#[derive(Debug, PartialEq, Eq)]
pub struct DocEntry {
    pub key: String,
    pub value: DocValue,
}

// ---------------------------------------------------------------------------
// The decoded configuration and its spec-level model
// ---------------------------------------------------------------------------

/// WoL settings of a network: the broadcast address to send wake packets to.
#[derive(Debug, Clone, PartialEq, Eq)]
pub struct NetworkWol {
    pub broadcast: Ipv4,
}

/// A named network: its DNS server and optional domain suffixes and WoL
/// broadcast configuration.
#[derive(Debug, Clone, PartialEq, Eq)]
pub struct Network {
    pub name: String,
    pub dns: Ipv4,
    pub domains: Option<Vec<String>>,
    pub wol: Option<NetworkWol>,
}

/// Per-server WoL overrides.
#[derive(Debug, Clone, PartialEq, Eq)]
pub struct ServerWol {
    pub broadcast: Option<Ipv4>,
    pub password: Option<Password>,
}

/// A named server: where it is, its hardware address, and optional network
/// reference and WoL overrides. The network reference is a bare name,
/// deliberately unchecked against the networks mapping.
#[derive(Debug, Clone, PartialEq, Eq)]
pub struct Server {
    pub name: String,
    pub host: Host,
    pub mac: HardwareAddress,
    pub network: Option<String>,
    pub wol: Option<ServerWol>,
}

/// The aggregate root: networks keyed by unique name (absent if the
/// document never named the key), servers keyed by unique name.
#[derive(Debug, Clone, PartialEq, Eq)]
pub struct Config {
    pub networks: Option<Vec<Network>>,
    pub servers: Vec<Server>,
}

pub struct NetworkModel {
    pub name: Seq<char>,
    pub dns: Seq<u8>,
    pub domains: Option<Seq<Seq<char>>>,
    pub wol_broadcast: Option<Seq<u8>>,
}

pub struct ServerWolModel {
    pub broadcast: Option<Seq<u8>>,
    pub password: Option<PasswordModel>,
}

pub struct ServerModel {
    pub name: Seq<char>,
    pub host: HostModel,
    pub mac: Seq<u8>,
    pub network: Option<Seq<char>>,
    pub wol: Option<ServerWolModel>,
}

pub struct ConfigModel {
    pub networks: Option<Seq<NetworkModel>>,
    pub servers: Seq<ServerModel>,
}

/// The views of a sequence's items.
pub open spec fn views_of<T: View>(s: Seq<T>) -> Seq<T::V> {
    s.map_values(|x: T| x@)
}

/// The view of an optional value.
pub open spec fn opt_view<T: View>(o: Option<T>) -> Option<T::V> {
    match o {
        Some(x) => Some(x@),
        None => None,
    }
}

/// The item views of an optional vector.
pub open spec fn opt_views<T: View>(o: Option<Vec<T>>) -> Option<Seq<T::V>> {
    match o {
        Some(v) => Some(views_of(v@)),
        None => None,
    }
}

impl View for NetworkWol {
    type V = Seq<u8>;

    open spec fn view(&self) -> Seq<u8> {
        self.broadcast@
    }
}

impl View for Network {
    type V = NetworkModel;

    open spec fn view(&self) -> NetworkModel {
        NetworkModel {
            name: self.name@,
            dns: self.dns@,
            domains: opt_views(self.domains),
            wol_broadcast: opt_view(self.wol),
        }
    }
}

impl View for ServerWol {
    type V = ServerWolModel;

    open spec fn view(&self) -> ServerWolModel {
        ServerWolModel { broadcast: opt_view(self.broadcast), password: opt_view(self.password) }
    }
}

impl View for Server {
    type V = ServerModel;

    open spec fn view(&self) -> ServerModel {
        ServerModel {
            name: self.name@,
            host: self.host@,
            mac: self.mac@,
            network: opt_view(self.network),
            wol: opt_view(self.wol),
        }
    }
}

impl View for Config {
    type V = ConfigModel;

    open spec fn view(&self) -> ConfigModel {
        ConfigModel { networks: opt_views(self.networks), servers: views_of(self.servers@) }
    }
}

// ---------------------------------------------------------------------------
// Decode failures
// ---------------------------------------------------------------------------

/// A structural decode failure; every one is terminal for the whole
/// document.
#[derive(Debug, Clone, PartialEq, Eq)]
pub enum DecodeError {
    /// A top-level key other than `network` and `server`.
    UnknownField(String),
    /// A name or field that appeared twice; carries the kind of name.
    DuplicateField(String),
    /// A required field that never appeared; carries the field name.
    MissingField(String),
    /// A field whose value has the wrong shape; carries the field name.
    WrongType(String),
    /// A field that should hold a dotted-quad address; carries the text.
    InvalidIpv4(String),
    /// A `mac` field that is no hardware address.
    Mac(MacParseError),
    /// A `wol.password` field of neither accepted shape.
    WolPasswordParse,
}

/// Spec-level value of a `DecodeError`.
pub enum DecodeErrorModel {
    UnknownField(Seq<char>),
    DuplicateField(Seq<char>),
    MissingField(Seq<char>),
    WrongType(Seq<char>),
    InvalidIpv4(Seq<char>),
    Mac(MacErrorModel),
    WolPasswordParse,
}

/// Whether the executable error `d` carries exactly the value the model `m`
/// prescribes.
pub open spec fn decode_error_matches(d: DecodeError, m: DecodeErrorModel) -> bool {
    match (d, m) {
        (DecodeError::UnknownField(a), DecodeErrorModel::UnknownField(b)) => a@ == b,
        (DecodeError::DuplicateField(a), DecodeErrorModel::DuplicateField(b)) => a@ == b,
        (DecodeError::MissingField(a), DecodeErrorModel::MissingField(b)) => a@ == b,
        (DecodeError::WrongType(a), DecodeErrorModel::WrongType(b)) => a@ == b,
        (DecodeError::InvalidIpv4(a), DecodeErrorModel::InvalidIpv4(b)) => a@ == b,
        (DecodeError::Mac(a), DecodeErrorModel::Mac(b)) => mac_error_matches(a, b),
        (DecodeError::WolPasswordParse, DecodeErrorModel::WolPasswordParse) => true,
        _ => false,
    }
}

/// The displayable message of a decode failure, in the decode framework's
/// phrasing.
pub open spec fn decode_error_message(d: DecodeError) -> Seq<char> {
    match d {
        DecodeError::UnknownField(f) => "unknown field `"@ + f@ + "`"@,
        DecodeError::DuplicateField(f) => "duplicate field `"@ + f@ + "`"@,
        DecodeError::MissingField(f) => "missing field `"@ + f@ + "`"@,
        DecodeError::WrongType(f) => "invalid type for field `"@ + f@ + "`"@,
        DecodeError::InvalidIpv4(t) => "invalid IPv4 address: \""@ + t@ + "\""@,
        DecodeError::Mac(e) => mac_parse_error_message(e),
        DecodeError::WolPasswordParse => "wol password was not in 4 byte or 6 byte format"@,
    }
}

impl DecodeError {
    /// The displayable message of the failure.
    pub fn message(&self) -> (s: String)
        ensures
            s@ == decode_error_message(*self),
    {
        match self {
            DecodeError::UnknownField(f) => {
                let mut s = String::from_str("unknown field `");
                s.append(f.as_str());
                s.append("`");
                s
            },
            DecodeError::DuplicateField(f) => {
                let mut s = String::from_str("duplicate field `");
                s.append(f.as_str());
                s.append("`");
                s
            },
            DecodeError::MissingField(f) => {
                let mut s = String::from_str("missing field `");
                s.append(f.as_str());
                s.append("`");
                s
            },
            DecodeError::WrongType(f) => {
                let mut s = String::from_str("invalid type for field `");
                s.append(f.as_str());
                s.append("`");
                s
            },
            DecodeError::InvalidIpv4(t) => {
                let mut s = String::from_str("invalid IPv4 address: \"");
                s.append(t.as_str());
                s.append("\"");
                s
            },
            DecodeError::Mac(e) => e.message(),
            DecodeError::WolPasswordParse => String::from_str(
                "wol password was not in 4 byte or 6 byte format",
            ),
        }
    }
}

// ---------------------------------------------------------------------------
// The spec-level decoder
// ---------------------------------------------------------------------------

/// All items of a list read as text.
pub open spec fn text_items(vs: Seq<DocValue>) -> Option<Seq<Seq<char>>>
    decreases vs.len(),
{
    if vs.len() == 0 {
        Some(Seq::<Seq<char>>::empty())
    } else {
        match vs[0] {
            DocValue::Text(t) => match text_items(vs.drop_first()) {
                Some(rest) => Some(seq![t@] + rest),
                None => None,
            },
            _ => None,
        }
    }
}

/// Walking a network's `wol` table: `broadcast` is required, unknown keys
/// are ignored.
pub open spec fn network_wol_walk(
    pairs: Seq<DocEntry>,
    broadcast: Option<Seq<u8>>,
) -> Result<Seq<u8>, DecodeErrorModel>
    decreases pairs.len(),
{
    if pairs.len() == 0 {
        match broadcast {
            Some(b) => Ok(b),
            None => Err(DecodeErrorModel::MissingField("broadcast"@)),
        }
    } else {
        let k = pairs[0].key@;
        let v = pairs[0].value;
        let rest = pairs.drop_first();
        if k == "broadcast"@ {
            if broadcast is Some {
                Err(DecodeErrorModel::DuplicateField("broadcast"@))
            } else {
                match v {
                    DocValue::Text(t) => if ipv4_valid(t@) {
                        network_wol_walk(rest, Some(ipv4_value(t@)))
                    } else {
                        Err(DecodeErrorModel::InvalidIpv4(t@))
                    },
                    _ => Err(DecodeErrorModel::WrongType("broadcast"@)),
                }
            }
        } else {
            network_wol_walk(rest, broadcast)
        }
    }
}

pub open spec fn network_wol_entry(v: DocValue) -> Result<Seq<u8>, DecodeErrorModel> {
    match v {
        DocValue::Table(ps) => network_wol_walk(ps@, None),
        _ => Err(DecodeErrorModel::WrongType("wol"@)),
    }
}

/// Walking one network entry's table: `name` and `dns` are required,
/// `domains` and `wol` optional, unknown keys ignored, any known key seen
/// twice a duplicate failure.
pub open spec fn network_walk(
    pairs: Seq<DocEntry>,
    name: Option<Seq<char>>,
    dns: Option<Seq<u8>>,
    domains: Option<Seq<Seq<char>>>,
    wol: Option<Seq<u8>>,
) -> Result<NetworkModel, DecodeErrorModel>
    decreases pairs.len(),
{
    if pairs.len() == 0 {
        match (name, dns) {
            (Some(nm), Some(d)) => Ok(
                NetworkModel { name: nm, dns: d, domains, wol_broadcast: wol },
            ),
            (None, _) => Err(DecodeErrorModel::MissingField("name"@)),
            (Some(_), None) => Err(DecodeErrorModel::MissingField("dns"@)),
        }
    } else {
        let k = pairs[0].key@;
        let v = pairs[0].value;
        let rest = pairs.drop_first();
        if k == "name"@ {
            if name is Some {
                Err(DecodeErrorModel::DuplicateField("name"@))
            } else {
                match v {
                    DocValue::Text(t) => network_walk(rest, Some(t@), dns, domains, wol),
                    _ => Err(DecodeErrorModel::WrongType("name"@)),
                }
            }
        } else if k == "dns"@ {
            if dns is Some {
                Err(DecodeErrorModel::DuplicateField("dns"@))
            } else {
                match v {
                    DocValue::Text(t) => if ipv4_valid(t@) {
                        network_walk(rest, name, Some(ipv4_value(t@)), domains, wol)
                    } else {
                        Err(DecodeErrorModel::InvalidIpv4(t@))
                    },
                    _ => Err(DecodeErrorModel::WrongType("dns"@)),
                }
            }
        } else if k == "domains"@ {
            if domains is Some {
                Err(DecodeErrorModel::DuplicateField("domains"@))
            } else {
                match v {
                    DocValue::List(vs) => match text_items(vs@) {
                        Some(ts) => network_walk(rest, name, dns, Some(ts), wol),
                        None => Err(DecodeErrorModel::WrongType("domains"@)),
                    },
                    _ => Err(DecodeErrorModel::WrongType("domains"@)),
                }
            }
        } else if k == "wol"@ {
            if wol is Some {
                Err(DecodeErrorModel::DuplicateField("wol"@))
            } else {
                match network_wol_entry(v) {
                    Ok(b) => network_walk(rest, name, dns, domains, Some(b)),
                    Err(e) => Err(e),
                }
            }
        } else {
            network_walk(rest, name, dns, domains, wol)
        }
    }
}

pub open spec fn network_entry(v: DocValue) -> Result<NetworkModel, DecodeErrorModel> {
    match v {
        DocValue::Table(ps) => network_walk(ps@, None, None, None, None),
        _ => Err(DecodeErrorModel::WrongType("network"@)),
    }
}

/// All entries of a `network` list, first failure wins.
pub open spec fn network_items(vs: Seq<DocValue>) -> Result<Seq<NetworkModel>, DecodeErrorModel>
    decreases vs.len(),
{
    if vs.len() == 0 {
        Ok(Seq::<NetworkModel>::empty())
    } else {
        match network_entry(vs[0]) {
            Ok(n) => match network_items(vs.drop_first()) {
                Ok(rest) => Ok(seq![n] + rest),
                Err(e) => Err(e),
            },
            Err(e) => Err(e),
        }
    }
}

/// Walking a server's `wol` table: both fields optional, unknown keys
/// ignored.
pub open spec fn server_wol_walk(
    pairs: Seq<DocEntry>,
    broadcast: Option<Seq<u8>>,
    password: Option<PasswordModel>,
) -> Result<ServerWolModel, DecodeErrorModel>
    decreases pairs.len(),
{
    if pairs.len() == 0 {
        Ok(ServerWolModel { broadcast, password })
    } else {
        let k = pairs[0].key@;
        let v = pairs[0].value;
        let rest = pairs.drop_first();
        if k == "broadcast"@ {
            if broadcast is Some {
                Err(DecodeErrorModel::DuplicateField("broadcast"@))
            } else {
                match v {
                    DocValue::Text(t) => if ipv4_valid(t@) {
                        server_wol_walk(rest, Some(ipv4_value(t@)), password)
                    } else {
                        Err(DecodeErrorModel::InvalidIpv4(t@))
                    },
                    _ => Err(DecodeErrorModel::WrongType("broadcast"@)),
                }
            }
        } else if k == "password"@ {
            if password is Some {
                Err(DecodeErrorModel::DuplicateField("password"@))
            } else {
                match v {
                    DocValue::Text(t) => match password_of(t@) {
                        Some(p) => server_wol_walk(rest, broadcast, Some(p)),
                        None => Err(DecodeErrorModel::WolPasswordParse),
                    },
                    _ => Err(DecodeErrorModel::WrongType("password"@)),
                }
            }
        } else {
            server_wol_walk(rest, broadcast, password)
        }
    }
}

pub open spec fn server_wol_entry(v: DocValue) -> Result<ServerWolModel, DecodeErrorModel> {
    match v {
        DocValue::Table(ps) => server_wol_walk(ps@, None, None),
        _ => Err(DecodeErrorModel::WrongType("wol"@)),
    }
}

/// Walking one server entry's table: `name`, `host` and `mac` are required,
/// `network` and `wol` optional, unknown keys ignored.
pub open spec fn server_walk(
    pairs: Seq<DocEntry>,
    name: Option<Seq<char>>,
    host: Option<HostModel>,
    mac: Option<Seq<u8>>,
    network: Option<Seq<char>>,
    wol: Option<ServerWolModel>,
) -> Result<ServerModel, DecodeErrorModel>
    decreases pairs.len(),
{
    if pairs.len() == 0 {
        match (name, host, mac) {
            (Some(nm), Some(h), Some(m)) => Ok(
                ServerModel { name: nm, host: h, mac: m, network, wol },
            ),
            (None, _, _) => Err(DecodeErrorModel::MissingField("name"@)),
            (Some(_), None, _) => Err(DecodeErrorModel::MissingField("host"@)),
            (Some(_), Some(_), None) => Err(DecodeErrorModel::MissingField("mac"@)),
        }
    } else {
        let k = pairs[0].key@;
        let v = pairs[0].value;
        let rest = pairs.drop_first();
        if k == "name"@ {
            if name is Some {
                Err(DecodeErrorModel::DuplicateField("name"@))
            } else {
                match v {
                    DocValue::Text(t) => server_walk(rest, Some(t@), host, mac, network, wol),
                    _ => Err(DecodeErrorModel::WrongType("name"@)),
                }
            }
        } else if k == "host"@ {
            if host is Some {
                Err(DecodeErrorModel::DuplicateField("host"@))
            } else {
                match v {
                    DocValue::Text(t) => server_walk(
                        rest,
                        name,
                        Some(host_of(t@)),
                        mac,
                        network,
                        wol,
                    ),
                    _ => Err(DecodeErrorModel::WrongType("host"@)),
                }
            }
        } else if k == "mac"@ {
            if mac is Some {
                Err(DecodeErrorModel::DuplicateField("mac"@))
            } else {
                match v {
                    DocValue::Text(t) => match mac_spec(t@) {
                        Ok(o) => server_walk(rest, name, host, Some(o), network, wol),
                        Err(m) => Err(DecodeErrorModel::Mac(m)),
                    },
                    _ => Err(DecodeErrorModel::WrongType("mac"@)),
                }
            }
        } else if k == "network"@ {
            if network is Some {
                Err(DecodeErrorModel::DuplicateField("network"@))
            } else {
                match v {
                    DocValue::Text(t) => server_walk(rest, name, host, mac, Some(t@), wol),
                    _ => Err(DecodeErrorModel::WrongType("network"@)),
                }
            }
        } else if k == "wol"@ {
            if wol is Some {
                Err(DecodeErrorModel::DuplicateField("wol"@))
            } else {
                match server_wol_entry(v) {
                    Ok(w) => server_walk(rest, name, host, mac, network, Some(w)),
                    Err(e) => Err(e),
                }
            }
        } else {
            server_walk(rest, name, host, mac, network, wol)
        }
    }
}

pub open spec fn server_entry(v: DocValue) -> Result<ServerModel, DecodeErrorModel> {
    match v {
        DocValue::Table(ps) => server_walk(ps@, None, None, None, None, None),
        _ => Err(DecodeErrorModel::WrongType("server"@)),
    }
}

/// All entries of a `server` list, first failure wins.
pub open spec fn server_items(vs: Seq<DocValue>) -> Result<Seq<ServerModel>, DecodeErrorModel>
    decreases vs.len(),
{
    if vs.len() == 0 {
        Ok(Seq::<ServerModel>::empty())
    } else {
        match server_entry(vs[0]) {
            Ok(s) => match server_items(vs.drop_first()) {
                Ok(rest) => Ok(seq![s] + rest),
                Err(e) => Err(e),
            },
            Err(e) => Err(e),
        }
    }
}

pub open spec fn network_names(ns: Seq<NetworkModel>) -> Seq<Seq<char>> {
    ns.map_values(|n: NetworkModel| n.name)
}

pub open spec fn server_names(ss: Seq<ServerModel>) -> Seq<Seq<char>> {
    ss.map_values(|s: ServerModel| s.name)
}

/// Folding decoded networks into the mapping built so far, one at a time in
/// entry order; a name already present is a hard duplicate failure.
pub open spec fn merge_networks(acc: Seq<NetworkModel>, ns: Seq<NetworkModel>) -> Result<
    Seq<NetworkModel>,
    DecodeErrorModel,
>
    decreases ns.len(),
{
    if ns.len() == 0 {
        Ok(acc)
    } else if network_names(acc).contains(ns[0].name) {
        Err(DecodeErrorModel::DuplicateField("network name"@))
    } else {
        merge_networks(acc.push(ns[0]), ns.drop_first())
    }
}

/// Folding decoded servers, as for networks.
pub open spec fn merge_servers(acc: Seq<ServerModel>, ss: Seq<ServerModel>) -> Result<
    Seq<ServerModel>,
    DecodeErrorModel,
>
    decreases ss.len(),
{
    if ss.len() == 0 {
        Ok(acc)
    } else if server_names(acc).contains(ss[0].name) {
        Err(DecodeErrorModel::DuplicateField("server name"@))
    } else {
        merge_servers(acc.push(ss[0]), ss.drop_first())
    }
}

pub open spec fn opt_networks_seq(o: Option<Seq<NetworkModel>>) -> Seq<NetworkModel> {
    match o {
        Some(s) => s,
        None => Seq::<NetworkModel>::empty(),
    }
}

pub open spec fn opt_servers_seq(o: Option<Seq<ServerModel>>) -> Seq<ServerModel> {
    match o {
        Some(s) => s,
        None => Seq::<ServerModel>::empty(),
    }
}

/// Walking the top-level table in document order: repeated `network` or
/// `server` keys extend the respective mapping, any other key is a hard
/// failure, and `server` must have appeared by the end.
pub open spec fn config_walk(
    pairs: Seq<DocEntry>,
    networks: Option<Seq<NetworkModel>>,
    servers: Option<Seq<ServerModel>>,
) -> Result<ConfigModel, DecodeErrorModel>
    decreases pairs.len(),
{
    if pairs.len() == 0 {
        match servers {
            Some(ss) => Ok(ConfigModel { networks, servers: ss }),
            None => Err(DecodeErrorModel::MissingField("server"@)),
        }
    } else {
        let k = pairs[0].key@;
        let v = pairs[0].value;
        let rest = pairs.drop_first();
        if k == "network"@ {
            match v {
                DocValue::List(vs) => match network_items(vs@) {
                    Ok(ns) => match merge_networks(opt_networks_seq(networks), ns) {
                        Ok(m) => config_walk(rest, Some(m), servers),
                        Err(e) => Err(e),
                    },
                    Err(e) => Err(e),
                },
                _ => Err(DecodeErrorModel::WrongType("network"@)),
            }
        } else if k == "server"@ {
            match v {
                DocValue::List(vs) => match server_items(vs@) {
                    Ok(ss) => match merge_servers(opt_servers_seq(servers), ss) {
                        Ok(m) => config_walk(rest, networks, Some(m)),
                        Err(e) => Err(e),
                    },
                    Err(e) => Err(e),
                },
                _ => Err(DecodeErrorModel::WrongType("server"@)),
            }
        } else {
            Err(DecodeErrorModel::UnknownField(k))
        }
    }
}

/// What decoding a whole document yields.
pub open spec fn config_of_doc(doc: DocValue) -> Result<ConfigModel, DecodeErrorModel> {
    match doc {
        DocValue::Table(ps) => config_walk(ps@, None, None),
        _ => Err(DecodeErrorModel::WrongType("config"@)),
    }
}

// ---------------------------------------------------------------------------
// Laws
// ---------------------------------------------------------------------------

/// No two of the names are equal.
pub open spec fn distinct_names(names: Seq<Seq<char>>) -> bool {
    forall|i: int, j: int| 0 <= i < j < names.len() ==> names[i] != names[j]
}

/// Folding server entries with pairwise-distinct names (also against the
/// mapping built so far) succeeds and appends them in order: the mapping has
/// exactly one entry per name.
pub proof fn lemma_merge_servers_ok(acc: Seq<ServerModel>, ss: Seq<ServerModel>)
    requires
        distinct_names(server_names(acc + ss)),
    ensures
        merge_servers(acc, ss) == Ok::<Seq<ServerModel>, DecodeErrorModel>(acc + ss),
    decreases ss.len(),
{
    if ss.len() == 0 {
        assert(acc + ss =~= acc);
    } else {
        let names = server_names(acc + ss);
        if server_names(acc).contains(ss[0].name) {
            let j = choose|j: int|
                0 <= j < server_names(acc).len() && server_names(acc)[j] == ss[0].name;
            assert(names[j] == (acc + ss)[j].name);
            assert(names[acc.len() as int] == ss[0].name);
            assert(false);
        }
        assert(acc.push(ss[0]) + ss.drop_first() =~= acc + ss);
        lemma_merge_servers_ok(acc.push(ss[0]), ss.drop_first());
    }
}

/// Two server entries sharing one name make the fold fail with the
/// duplicate-name error.
pub proof fn lemma_merge_servers_dup(acc: Seq<ServerModel>, ss: Seq<ServerModel>)
    requires
        distinct_names(server_names(acc)),
        !distinct_names(server_names(acc + ss)),
    ensures
        merge_servers(acc, ss) == Err::<Seq<ServerModel>, DecodeErrorModel>(
            DecodeErrorModel::DuplicateField("server name"@),
        ),
    decreases ss.len(),
{
    if ss.len() == 0 {
        assert(acc + ss =~= acc);
        assert(server_names(acc + ss) == server_names(acc));
        assert(false);
    } else {
        if !server_names(acc).contains(ss[0].name) {
            let acc2 = acc.push(ss[0]);
            assert(server_names(acc2) =~= server_names(acc).push(ss[0].name));
            assert forall|i: int, j: int|
                0 <= i < j < server_names(acc2).len() implies server_names(acc2)[i]
                != server_names(acc2)[j] by {
                if j == acc.len() {
                    assert(!server_names(acc).contains(ss[0].name));
                    assert(server_names(acc)[i] != ss[0].name);
                }
            }
            assert(acc2 + ss.drop_first() =~= acc + ss);
            lemma_merge_servers_dup(acc2, ss.drop_first());
        }
    }
}

/// The network fold obeys the same two laws.
pub proof fn lemma_merge_networks_ok(acc: Seq<NetworkModel>, ns: Seq<NetworkModel>)
    requires
        distinct_names(network_names(acc + ns)),
    ensures
        merge_networks(acc, ns) == Ok::<Seq<NetworkModel>, DecodeErrorModel>(acc + ns),
    decreases ns.len(),
{
    if ns.len() == 0 {
        assert(acc + ns =~= acc);
    } else {
        let names = network_names(acc + ns);
        if network_names(acc).contains(ns[0].name) {
            let j = choose|j: int|
                0 <= j < network_names(acc).len() && network_names(acc)[j] == ns[0].name;
            assert(names[j] == (acc + ns)[j].name);
            assert(names[acc.len() as int] == ns[0].name);
            assert(false);
        }
        assert(acc.push(ns[0]) + ns.drop_first() =~= acc + ns);
        lemma_merge_networks_ok(acc.push(ns[0]), ns.drop_first());
    }
}

pub proof fn lemma_merge_networks_dup(acc: Seq<NetworkModel>, ns: Seq<NetworkModel>)
    requires
        distinct_names(network_names(acc)),
        !distinct_names(network_names(acc + ns)),
    ensures
        merge_networks(acc, ns) == Err::<Seq<NetworkModel>, DecodeErrorModel>(
            DecodeErrorModel::DuplicateField("network name"@),
        ),
    decreases ns.len(),
{
    if ns.len() == 0 {
        assert(acc + ns =~= acc);
        assert(network_names(acc + ns) == network_names(acc));
        assert(false);
    } else {
        if !network_names(acc).contains(ns[0].name) {
            let acc2 = acc.push(ns[0]);
            assert(network_names(acc2) =~= network_names(acc).push(ns[0].name));
            assert forall|i: int, j: int|
                0 <= i < j < network_names(acc2).len() implies network_names(acc2)[i]
                != network_names(acc2)[j] by {
                if j == acc.len() {
                    assert(!network_names(acc).contains(ns[0].name));
                    assert(network_names(acc)[i] != ns[0].name);
                }
            }
            assert(acc2 + ns.drop_first() =~= acc + ns);
            lemma_merge_networks_dup(acc2, ns.drop_first());
        }
    }
}

proof fn lemma_config_walk_distinct(
    pairs: Seq<DocEntry>,
    networks: Option<Seq<NetworkModel>>,
    servers: Option<Seq<ServerModel>>,
)
    requires
        distinct_names(network_names(opt_networks_seq(networks))),
        distinct_names(server_names(opt_servers_seq(servers))),
    ensures
        config_walk(pairs, networks, servers) matches Ok(m) ==> distinct_names(
            server_names(m.servers),
        ) && distinct_names(network_names(opt_networks_seq(m.networks))),
    decreases pairs.len(),
{
    if pairs.len() > 0 {
        let k = pairs[0].key@;
        let v = pairs[0].value;
        let rest = pairs.drop_first();
        if k == "network"@ {
            match v {
                DocValue::List(vs) => match network_items(vs@) {
                    Ok(ns) => {
                        let acc = opt_networks_seq(networks);
                        if distinct_names(network_names(acc + ns)) {
                            lemma_merge_networks_ok(acc, ns);
                            lemma_config_walk_distinct(rest, Some(acc + ns), servers);
                        } else {
                            lemma_merge_networks_dup(acc, ns);
                        }
                    },
                    Err(_) => {},
                },
                _ => {},
            }
        } else if k == "server"@ {
            match v {
                DocValue::List(vs) => match server_items(vs@) {
                    Ok(ss) => {
                        let acc = opt_servers_seq(servers);
                        if distinct_names(server_names(acc + ss)) {
                            lemma_merge_servers_ok(acc, ss);
                            lemma_config_walk_distinct(rest, networks, Some(acc + ss));
                        } else {
                            lemma_merge_servers_dup(acc, ss);
                        }
                    },
                    Err(_) => {},
                },
                _ => {},
            }
        }
    }
}

/// Within each decoded mapping, names are unique: duplicate insertion never
/// survives a successful decode.
pub proof fn lemma_config_unique_names(doc: DocValue)
    ensures
        config_of_doc(doc) matches Ok(m) ==> distinct_names(server_names(m.servers))
            && distinct_names(network_names(opt_networks_seq(m.networks))),
{
    match doc {
        DocValue::Table(ps) => {
            lemma_config_walk_distinct(ps@, None, None);
        },
        _ => {},
    }
}

proof fn lemma_config_walk_needs_server(pairs: Seq<DocEntry>, networks: Option<Seq<NetworkModel>>)
    ensures
        config_walk(pairs, networks, None) is Ok ==> exists|i: int|
            0 <= i < pairs.len() && #[trigger] pairs[i].key@ == "server"@,
    decreases pairs.len(),
{
    if pairs.len() > 0 {
        let k = pairs[0].key@;
        let v = pairs[0].value;
        let rest = pairs.drop_first();
        if k == "server"@ {
            if config_walk(pairs, networks, None) is Ok {
                assert(pairs[0].key@ == "server"@);
            }
        } else if k == "network"@ {
            match v {
                DocValue::List(vs) => match network_items(vs@) {
                    Ok(ns) => match merge_networks(opt_networks_seq(networks), ns) {
                        Ok(m) => {
                            lemma_config_walk_needs_server(rest, Some(m));
                            if config_walk(rest, Some(m), None) is Ok {
                                let i = choose|i: int|
                                    0 <= i < rest.len() && #[trigger] rest[i].key@ == "server"@;
                                assert(pairs[i + 1].key@ == "server"@);
                            }
                        },
                        Err(_) => {},
                    },
                    Err(_) => {},
                },
                _ => {},
            }
        }
    }
}

/// A document lacking the `server` key entirely cannot decode: a successful
/// decode exhibits that key at the top level.
pub proof fn lemma_config_requires_server_key(doc: DocValue)
    requires
        config_of_doc(doc) is Ok,
    ensures
        doc matches DocValue::Table(ps) && exists|i: int|
            0 <= i < ps@.len() && #[trigger] ps@[i].key@ == "server"@,
{
    match doc {
        DocValue::Table(ps) => {
            lemma_config_walk_needs_server(ps@, None);
        },
        _ => {},
    }
}

// ---------------------------------------------------------------------------
// The executable decoder
// ---------------------------------------------------------------------------

fn key_is(k: &String, lit: &str) -> (r: bool)
    ensures
        r == (k@ == lit@),
{
    str_eq(k.as_str(), lit)
}

fn decode_text_items(vs: &Vec<DocValue>) -> (r: Option<Vec<String>>)
    ensures
        (match text_items(vs@) {
            Some(ts) => r matches Some(out) && views_of(out@) == ts,
            None => r is None,
        }),
{
    let mut out: Vec<String> = Vec::new();
    let n = vs.len();
    proof {
        assert(vs@.skip(0) =~= vs@);
    }
    for i in 0..n
        invariant
            n == vs@.len(),
            (match text_items(vs@.skip(i as int)) {
                Some(rest) => text_items(vs@) matches Some(all) && all == views_of(out@) + rest,
                None => text_items(vs@) is None,
            }),
    {
        proof {
            assert(vs@.skip(i as int)[0] == vs@[i as int]);
            assert(vs@.skip(i as int).drop_first() =~= vs@.skip(i + 1));
        }
        let ghost out0 = out@;
        match &vs[i] {
            DocValue::Text(t) => {
                out.push(t.clone());
                proof {
                    assert(views_of(out@) =~= views_of(out0).push(t@));
                    let ghost ti = text_items(vs@.skip(i + 1));
                    if ti is Some {
                        assert(views_of(out0) + (seq![t@] + ti->Some_0) =~= views_of(out@)
                            + ti->Some_0);
                    }
                }
            },
            _ => {
                return None;
            },
        }
    }
    proof {
        assert(vs@.skip(n as int) =~= Seq::<DocValue>::empty());
        assert(views_of(out@) + Seq::<Seq<char>>::empty() =~= views_of(out@));
    }
    Some(out)
}

fn decode_network_wol(v: &DocValue) -> (r: Result<NetworkWol, DecodeError>)
    ensures
        (match network_wol_entry(*v) {
            Ok(b) => r matches Ok(w) && w@ == b,
            Err(e) => r matches Err(d) && decode_error_matches(d, e),
        }),
{
    let pairs = match v {
        DocValue::Table(ps) => ps,
        _ => {
            return Err(DecodeError::WrongType("wol".to_owned()));
        },
    };
    let mut broadcast: Option<Ipv4> = None;
    let n = pairs.len();
    proof {
        assert(pairs@.skip(0) =~= pairs@);
    }
    for i in 0..n
        invariant
            n == pairs@.len(),
            network_wol_entry(*v) == network_wol_walk(pairs@.skip(i as int), opt_view(broadcast)),
    {
        proof {
            assert(pairs@.skip(i as int)[0] == pairs@[i as int]);
            assert(pairs@.skip(i as int).drop_first() =~= pairs@.skip(i + 1));
        }
        let e = &pairs[i];
        if key_is(&e.key, "broadcast") {
            if broadcast.is_some() {
                return Err(DecodeError::DuplicateField("broadcast".to_owned()));
            }
            match &e.value {
                DocValue::Text(t) => {
                    match Ipv4::parse(t.as_str()) {
                        Some(ip) => {
                            broadcast = Some(ip);
                        },
                        None => {
                            return Err(DecodeError::InvalidIpv4(t.clone()));
                        },
                    }
                },
                _ => {
                    return Err(DecodeError::WrongType("broadcast".to_owned()));
                },
            }
        }
    }
    proof {
        assert(pairs@.skip(n as int) =~= Seq::<DocEntry>::empty());
    }
    match broadcast {
        Some(ip) => Ok(NetworkWol { broadcast: ip }),
        None => Err(DecodeError::MissingField("broadcast".to_owned())),
    }
}

fn decode_network(v: &DocValue) -> (r: Result<Network, DecodeError>)
    ensures
        (match network_entry(*v) {
            Ok(m) => r matches Ok(x) && x@ == m,
            Err(e) => r matches Err(d) && decode_error_matches(d, e),
        }),
{
    let pairs = match v {
        DocValue::Table(ps) => ps,
        _ => {
            return Err(DecodeError::WrongType("network".to_owned()));
        },
    };
    let mut name: Option<String> = None;
    let mut dns: Option<Ipv4> = None;
    let mut domains: Option<Vec<String>> = None;
    let mut wol: Option<NetworkWol> = None;
    let n = pairs.len();
    proof {
        assert(pairs@.skip(0) =~= pairs@);
    }
    for i in 0..n
        invariant
            n == pairs@.len(),
            network_entry(*v) == network_walk(
                pairs@.skip(i as int),
                opt_view(name),
                opt_view(dns),
                opt_views(domains),
                opt_view(wol),
            ),
    {
        proof {
            assert(pairs@.skip(i as int)[0] == pairs@[i as int]);
            assert(pairs@.skip(i as int).drop_first() =~= pairs@.skip(i + 1));
        }
        let e = &pairs[i];
        if key_is(&e.key, "name") {
            if name.is_some() {
                return Err(DecodeError::DuplicateField("name".to_owned()));
            }
            match &e.value {
                DocValue::Text(t) => {
                    name = Some(t.clone());
                },
                _ => {
                    return Err(DecodeError::WrongType("name".to_owned()));
                },
            }
        } else if key_is(&e.key, "dns") {
            if dns.is_some() {
                return Err(DecodeError::DuplicateField("dns".to_owned()));
            }
            match &e.value {
                DocValue::Text(t) => {
                    match Ipv4::parse(t.as_str()) {
                        Some(ip) => {
                            dns = Some(ip);
                        },
                        None => {
                            return Err(DecodeError::InvalidIpv4(t.clone()));
                        },
                    }
                },
                _ => {
                    return Err(DecodeError::WrongType("dns".to_owned()));
                },
            }
        } else if key_is(&e.key, "domains") {
            if domains.is_some() {
                return Err(DecodeError::DuplicateField("domains".to_owned()));
            }
            match &e.value {
                DocValue::List(vs) => {
                    match decode_text_items(vs) {
                        Some(ts) => {
                            domains = Some(ts);
                        },
                        None => {
                            return Err(DecodeError::WrongType("domains".to_owned()));
                        },
                    }
                },
                _ => {
                    return Err(DecodeError::WrongType("domains".to_owned()));
                },
            }
        } else if key_is(&e.key, "wol") {
            if wol.is_some() {
                return Err(DecodeError::DuplicateField("wol".to_owned()));
            }
            match decode_network_wol(&e.value) {
                Ok(w) => {
                    wol = Some(w);
                },
                Err(d) => {
                    return Err(d);
                },
            }
        }
    }
    proof {
        assert(pairs@.skip(n as int) =~= Seq::<DocEntry>::empty());
    }
    let nm = match name {
        Some(nm) => nm,
        None => {
            return Err(DecodeError::MissingField("name".to_owned()));
        },
    };
    let d = match dns {
        Some(d) => d,
        None => {
            return Err(DecodeError::MissingField("dns".to_owned()));
        },
    };
    Ok(Network { name: nm, dns: d, domains, wol })
}

fn decode_networks(vs: &Vec<DocValue>) -> (r: Result<Vec<Network>, DecodeError>)
    ensures
        (match network_items(vs@) {
            Ok(ms) => r matches Ok(out) && views_of(out@) == ms,
            Err(e) => r matches Err(d) && decode_error_matches(d, e),
        }),
{
    let mut out: Vec<Network> = Vec::new();
    let n = vs.len();
    proof {
        assert(vs@.skip(0) =~= vs@);
    }
    for i in 0..n
        invariant
            n == vs@.len(),
            (match network_items(vs@.skip(i as int)) {
                Ok(rest) => network_items(vs@) matches Ok(all) && all == views_of(out@) + rest,
                Err(e) => network_items(vs@) == Err::<Seq<NetworkModel>, DecodeErrorModel>(e),
            }),
    {
        proof {
            assert(vs@.skip(i as int)[0] == vs@[i as int]);
            assert(vs@.skip(i as int).drop_first() =~= vs@.skip(i + 1));
        }
        let ghost out0 = out@;
        match decode_network(&vs[i]) {
            Ok(x) => {
                out.push(x);
                proof {
                    assert(views_of(out@) =~= views_of(out0).push(x@));
                    let ghost ni = network_items(vs@.skip(i + 1));
                    if ni is Ok {
                        assert(views_of(out0) + (seq![x@] + ni->Ok_0) =~= views_of(out@)
                            + ni->Ok_0);
                    }
                }
            },
            Err(d) => {
                return Err(d);
            },
        }
    }
    proof {
        assert(vs@.skip(n as int) =~= Seq::<DocValue>::empty());
        assert(views_of(out@) + Seq::<NetworkModel>::empty() =~= views_of(out@));
    }
    Ok(out)
}

fn decode_server_wol(v: &DocValue) -> (r: Result<ServerWol, DecodeError>)
    ensures
        (match server_wol_entry(*v) {
            Ok(m) => r matches Ok(w) && w@ == m,
            Err(e) => r matches Err(d) && decode_error_matches(d, e),
        }),
{
    let pairs = match v {
        DocValue::Table(ps) => ps,
        _ => {
            return Err(DecodeError::WrongType("wol".to_owned()));
        },
    };
    let mut broadcast: Option<Ipv4> = None;
    let mut password: Option<Password> = None;
    let n = pairs.len();
    proof {
        assert(pairs@.skip(0) =~= pairs@);
    }
    for i in 0..n
        invariant
            n == pairs@.len(),
            server_wol_entry(*v) == server_wol_walk(
                pairs@.skip(i as int),
                opt_view(broadcast),
                opt_view(password),
            ),
    {
        proof {
            assert(pairs@.skip(i as int)[0] == pairs@[i as int]);
            assert(pairs@.skip(i as int).drop_first() =~= pairs@.skip(i + 1));
        }
        let e = &pairs[i];
        if key_is(&e.key, "broadcast") {
            if broadcast.is_some() {
                return Err(DecodeError::DuplicateField("broadcast".to_owned()));
            }
            match &e.value {
                DocValue::Text(t) => {
                    match Ipv4::parse(t.as_str()) {
                        Some(ip) => {
                            broadcast = Some(ip);
                        },
                        None => {
                            return Err(DecodeError::InvalidIpv4(t.clone()));
                        },
                    }
                },
                _ => {
                    return Err(DecodeError::WrongType("broadcast".to_owned()));
                },
            }
        } else if key_is(&e.key, "password") {
            if password.is_some() {
                return Err(DecodeError::DuplicateField("password".to_owned()));
            }
            match &e.value {
                DocValue::Text(t) => {
                    match Password::from_str(t.as_str()) {
                        Ok(p) => {
                            password = Some(p);
                        },
                        Err(_) => {
                            return Err(DecodeError::WolPasswordParse);
                        },
                    }
                },
                _ => {
                    return Err(DecodeError::WrongType("password".to_owned()));
                },
            }
        }
    }
    proof {
        assert(pairs@.skip(n as int) =~= Seq::<DocEntry>::empty());
    }
    Ok(ServerWol { broadcast, password })
}

fn decode_server(v: &DocValue) -> (r: Result<Server, DecodeError>)
    ensures
        (match server_entry(*v) {
            Ok(m) => r matches Ok(x) && x@ == m,
            Err(e) => r matches Err(d) && decode_error_matches(d, e),
        }),
{
    let pairs = match v {
        DocValue::Table(ps) => ps,
        _ => {
            return Err(DecodeError::WrongType("server".to_owned()));
        },
    };
    let mut name: Option<String> = None;
    let mut host: Option<Host> = None;
    let mut mac: Option<HardwareAddress> = None;
    let mut network: Option<String> = None;
    let mut wol: Option<ServerWol> = None;
    let n = pairs.len();
    proof {
        assert(pairs@.skip(0) =~= pairs@);
    }
    for i in 0..n
        invariant
            n == pairs@.len(),
            server_entry(*v) == server_walk(
                pairs@.skip(i as int),
                opt_view(name),
                opt_view(host),
                opt_view(mac),
                opt_view(network),
                opt_view(wol),
            ),
    {
        proof {
            assert(pairs@.skip(i as int)[0] == pairs@[i as int]);
            assert(pairs@.skip(i as int).drop_first() =~= pairs@.skip(i + 1));
        }
        let e = &pairs[i];
        if key_is(&e.key, "name") {
            if name.is_some() {
                return Err(DecodeError::DuplicateField("name".to_owned()));
            }
            match &e.value {
                DocValue::Text(t) => {
                    name = Some(t.clone());
                },
                _ => {
                    return Err(DecodeError::WrongType("name".to_owned()));
                },
            }
        } else if key_is(&e.key, "host") {
            if host.is_some() {
                return Err(DecodeError::DuplicateField("host".to_owned()));
            }
            match &e.value {
                DocValue::Text(t) => {
                    host = Some(Host::classify(t.as_str()));
                },
                _ => {
                    return Err(DecodeError::WrongType("host".to_owned()));
                },
            }
        } else if key_is(&e.key, "mac") {
            if mac.is_some() {
                return Err(DecodeError::DuplicateField("mac".to_owned()));
            }
            match &e.value {
                DocValue::Text(t) => {
                    match HardwareAddress::from_str(t.as_str()) {
                        Ok(hw) => {
                            mac = Some(hw);
                        },
                        Err(me) => {
                            return Err(DecodeError::Mac(me));
                        },
                    }
                },
                _ => {
                    return Err(DecodeError::WrongType("mac".to_owned()));
                },
            }
        } else if key_is(&e.key, "network") {
            if network.is_some() {
                return Err(DecodeError::DuplicateField("network".to_owned()));
            }
            match &e.value {
                DocValue::Text(t) => {
                    network = Some(t.clone());
                },
                _ => {
                    return Err(DecodeError::WrongType("network".to_owned()));
                },
            }
        } else if key_is(&e.key, "wol") {
            if wol.is_some() {
                return Err(DecodeError::DuplicateField("wol".to_owned()));
            }
            match decode_server_wol(&e.value) {
                Ok(w) => {
                    wol = Some(w);
                },
                Err(d) => {
                    return Err(d);
                },
            }
        }
    }
    proof {
        assert(pairs@.skip(n as int) =~= Seq::<DocEntry>::empty());
    }
    let nm = match name {
        Some(nm) => nm,
        None => {
            return Err(DecodeError::MissingField("name".to_owned()));
        },
    };
    let h = match host {
        Some(h) => h,
        None => {
            return Err(DecodeError::MissingField("host".to_owned()));
        },
    };
    let m = match mac {
        Some(m) => m,
        None => {
            return Err(DecodeError::MissingField("mac".to_owned()));
        },
    };
    Ok(Server { name: nm, host: h, mac: m, network, wol })
}

fn decode_servers(vs: &Vec<DocValue>) -> (r: Result<Vec<Server>, DecodeError>)
    ensures
        (match server_items(vs@) {
            Ok(ms) => r matches Ok(out) && views_of(out@) == ms,
            Err(e) => r matches Err(d) && decode_error_matches(d, e),
        }),
{
    let mut out: Vec<Server> = Vec::new();
    let n = vs.len();
    proof {
        assert(vs@.skip(0) =~= vs@);
    }
    for i in 0..n
        invariant
            n == vs@.len(),
            (match server_items(vs@.skip(i as int)) {
                Ok(rest) => server_items(vs@) matches Ok(all) && all == views_of(out@) + rest,
                Err(e) => server_items(vs@) == Err::<Seq<ServerModel>, DecodeErrorModel>(e),
            }),
    {
        proof {
            assert(vs@.skip(i as int)[0] == vs@[i as int]);
            assert(vs@.skip(i as int).drop_first() =~= vs@.skip(i + 1));
        }
        let ghost out0 = out@;
        match decode_server(&vs[i]) {
            Ok(x) => {
                out.push(x);
                proof {
                    assert(views_of(out@) =~= views_of(out0).push(x@));
                    let ghost si = server_items(vs@.skip(i + 1));
                    if si is Ok {
                        assert(views_of(out0) + (seq![x@] + si->Ok_0) =~= views_of(out@)
                            + si->Ok_0);
                    }
                }
            },
            Err(d) => {
                return Err(d);
            },
        }
    }
    proof {
        assert(vs@.skip(n as int) =~= Seq::<DocValue>::empty());
        assert(views_of(out@) + Seq::<ServerModel>::empty() =~= views_of(out@));
    }
    Ok(out)
}

fn networks_contain_name(v: &Vec<Network>, name: &String) -> (r: bool)
    ensures
        r == network_names(views_of(v@)).contains(name@),
{
    let n = v.len();
    for i in 0..n
        invariant
            n == v@.len(),
            forall|j: int| 0 <= j < i ==> views_of(v@)[j].name != name@,
    {
        if str_eq(v[i].name.as_str(), name.as_str()) {
            proof {
                assert(views_of(v@)[i as int] == v@[i as int]@);
                assert(network_names(views_of(v@)).contains(name@)) by {
                    assert(network_names(views_of(v@))[i as int] == name@);
                }
            }
            return true;
        }
        proof {
            assert(views_of(v@)[i as int] == v@[i as int]@);
        }
    }
    proof {
        if network_names(views_of(v@)).contains(name@) {
            let j = choose|j: int|
                0 <= j < network_names(views_of(v@)).len() && network_names(views_of(v@))[j]
                    == name@;
            assert(views_of(v@)[j].name == name@);
            assert(false);
        }
    }
    false
}

fn servers_contain_name(v: &Vec<Server>, name: &String) -> (r: bool)
    ensures
        r == server_names(views_of(v@)).contains(name@),
{
    let n = v.len();
    for i in 0..n
        invariant
            n == v@.len(),
            forall|j: int| 0 <= j < i ==> views_of(v@)[j].name != name@,
    {
        if str_eq(v[i].name.as_str(), name.as_str()) {
            proof {
                assert(views_of(v@)[i as int] == v@[i as int]@);
                assert(server_names(views_of(v@)).contains(name@)) by {
                    assert(server_names(views_of(v@))[i as int] == name@);
                }
            }
            return true;
        }
        proof {
            assert(views_of(v@)[i as int] == v@[i as int]@);
        }
    }
    proof {
        if server_names(views_of(v@)).contains(name@) {
            let j = choose|j: int|
                0 <= j < server_names(views_of(v@)).len() && server_names(views_of(v@))[j]
                    == name@;
            assert(views_of(v@)[j].name == name@);
            assert(false);
        }
    }
    false
}

impl Config {
    /// Decodes a structured document into a validated configuration: the
    /// result is exactly what the document walk prescribes, or the first
    /// violation in document order.
    #[verifier::loop_isolation(false)]
    pub fn decode(doc: &DocValue) -> (r: Result<Config, DecodeError>)
        ensures
            (match config_of_doc(*doc) {
                Ok(m) => r matches Ok(c) && c@ == m,
                Err(e) => r matches Err(d) && decode_error_matches(d, e),
            }),
    {
        let pairs = match doc {
            DocValue::Table(ps) => ps,
            _ => {
                return Err(DecodeError::WrongType("config".to_owned()));
            },
        };
        let mut networks: Option<Vec<Network>> = None;
        let mut servers: Option<Vec<Server>> = None;
        let n = pairs.len();
        proof {
            assert(pairs@.skip(0) =~= pairs@);
        }
        for i in 0..n
            invariant
                n == pairs@.len(),
                config_of_doc(*doc) == config_walk(
                    pairs@.skip(i as int),
                    opt_views(networks),
                    opt_views(servers),
                ),
        {
            proof {
                assert(pairs@.skip(i as int)[0] == pairs@[i as int]);
                assert(pairs@.skip(i as int).drop_first() =~= pairs@.skip(i + 1));
            }
            let e = &pairs[i];
            if key_is(&e.key, "network") {
                match &e.value {
                    DocValue::List(vs) => {
                        match decode_networks(vs) {
                            Ok(mut ns) => {
                                let ghost nets0 = opt_views(networks);
                                let ghost ns_views = views_of(ns@);
                                let mut cur: Vec<Network> = match networks {
                                    Some(c) => c,
                                    None => Vec::new(),
                                };
                                proof {
                                    assert(views_of(cur@) =~= opt_networks_seq(nets0));
                                }
                                let ghost target = merge_networks(opt_networks_seq(nets0), ns_views);
                                while ns.len() > 0
                                    invariant
                                        merge_networks(views_of(cur@), views_of(ns@)) == target,
                                    decreases ns@.len(),
                                {
                                    let ghost ns0 = ns@;
                                    let ghost cur0 = cur@;
                                    let x = ns.remove(0);
                                    proof {
                                        assert(views_of(ns0)[0] == x@);
                                        assert(views_of(ns0).drop_first() =~= views_of(ns@));
                                    }
                                    if networks_contain_name(&cur, &x.name) {
                                        proof {
                                            assert(views_of(ns0)[0].name == x.name@);
                                            assert(merge_networks(views_of(cur@), views_of(ns0))
                                                == Err::<Seq<NetworkModel>, DecodeErrorModel>(
                                                DecodeErrorModel::DuplicateField("network name"@),
                                            ));
                                        }
                                        return Err(
                                            DecodeError::DuplicateField("network name".to_owned()),
                                        );
                                    }
                                    cur.push(x);
                                    proof {
                                        assert(views_of(cur@) =~= views_of(cur0).push(x@));
                                    }
                                }
                                proof {
                                    assert(views_of(ns@) =~= Seq::<NetworkModel>::empty());
                                }
                                networks = Some(cur);
                            },
                            Err(d) => {
                                return Err(d);
                            },
                        }
                    },
                    _ => {
                        return Err(DecodeError::WrongType("network".to_owned()));
                    },
                }
            } else if key_is(&e.key, "server") {
                match &e.value {
                    DocValue::List(vs) => {
                        match decode_servers(vs) {
                            Ok(mut ss) => {
                                let ghost srvs0 = opt_views(servers);
                                let ghost ss_views = views_of(ss@);
                                let mut cur: Vec<Server> = match servers {
                                    Some(c) => c,
                                    None => Vec::new(),
                                };
                                proof {
                                    assert(views_of(cur@) =~= opt_servers_seq(srvs0));
                                }
                                let ghost target = merge_servers(opt_servers_seq(srvs0), ss_views);
                                while ss.len() > 0
                                    invariant
                                        merge_servers(views_of(cur@), views_of(ss@)) == target,
                                    decreases ss@.len(),
                                {
                                    let ghost ss0 = ss@;
                                    let ghost cur0 = cur@;
                                    let x = ss.remove(0);
                                    proof {
                                        assert(views_of(ss0)[0] == x@);
                                        assert(views_of(ss0).drop_first() =~= views_of(ss@));
                                    }
                                    if servers_contain_name(&cur, &x.name) {
                                        proof {
                                            assert(views_of(ss0)[0].name == x.name@);
                                            assert(merge_servers(views_of(cur@), views_of(ss0))
                                                == Err::<Seq<ServerModel>, DecodeErrorModel>(
                                                DecodeErrorModel::DuplicateField("server name"@),
                                            ));
                                        }
                                        return Err(
                                            DecodeError::DuplicateField("server name".to_owned()),
                                        );
                                    }
                                    cur.push(x);
                                    proof {
                                        assert(views_of(cur@) =~= views_of(cur0).push(x@));
                                    }
                                }
                                proof {
                                    assert(views_of(ss@) =~= Seq::<ServerModel>::empty());
                                }
                                servers = Some(cur);
                            },
                            Err(d) => {
                                return Err(d);
                            },
                        }
                    },
                    _ => {
                        return Err(DecodeError::WrongType("server".to_owned()));
                    },
                }
            } else {
                return Err(DecodeError::UnknownField(e.key.clone()));
            }
        }
        proof {
            assert(pairs@.skip(n as int) =~= Seq::<DocEntry>::empty());
        }
        let ss = match servers {
            Some(s) => s,
            None => {
                return Err(DecodeError::MissingField("server".to_owned()));
            },
        };
        Ok(Config { networks, servers: ss })
    }
}

} // verus!
