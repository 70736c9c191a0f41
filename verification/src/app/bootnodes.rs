//! Bootnodes from node records.

use vstd::prelude::*;
use vstd::string::StringExecFns;

use crate::app::yaml;
use crate::app::yaml::EnrRecord;
use crate::networking::discovery;
use crate::networking::peer_manager;
use crate::text;

verus! {

/// The port that two bytes write, the high byte first.
pub open spec fn port_of(raw: Seq<u8>) -> Option<u16> {
    if raw.len() == 2 {
        Some((raw[0] * 256 + raw[1]) as u16)
    } else {
        None
    }
}

/// Reads a port of two bytes, the high byte first.
pub fn decode_quic_port(raw: &[u8]) -> (r: Option<u16>)
    ensures
        r == port_of(raw@),
{
    if raw.len() == 2 {
        Some(raw[0] as u16 * 256 + raw[1] as u16)
    } else {
        None
    }
}

/// Address and port of a record: the port of its `quic` entry, else its UDP port.
/// A record without an IPv4 address or without a port has none.
pub open spec fn endpoint_of(
    record: (Option<Seq<u8>>, Option<Seq<u8>>, Option<u16>, Seq<u8>),
) -> Option<(Seq<u8>, u16)> {
    match record.0 {
        None => None,
        Some(ip) => {
            let quic = match record.1 {
                Some(raw) => port_of(raw),
                None => None,
            };
            match quic {
                Some(p) => Some((ip, p)),
                None => match record.2 {
                    Some(p) => Some((ip, p)),
                    None => None,
                },
            }
        },
    }
}

/// Finds address and port of a record.
pub fn record_endpoint(record: &EnrRecord) -> (r: Option<([u8; 4], u16)>)
    ensures
        match r {
            Some(e) => endpoint_of(record@) == Some((e.0@, e.1)),
            None => endpoint_of(record@) is None,
        },
{
    let ip = match record.ip4 {
        Some(ip) => ip,
        None => {
            return None;
        },
    };
    if let Some(raw) = &record.quic {
        if let Some(port) = decode_quic_port(raw.as_slice()) {
            return Some((ip, port));
        }
    }
    match record.udp4 {
        Some(port) => Some((ip, port)),
        None => None,
    }
}

/// The address of a peer that listens with QUIC.
pub open spec fn peer_address(ip: Seq<u8>, port: u16, peer: Seq<char>) -> Seq<char> {
    "/ip4/"@ + text::decimal(ip[0] as nat) + "."@ + text::decimal(ip[1] as nat) + "."@
        + text::decimal(ip[2] as nat) + "."@ + text::decimal(ip[3] as nat) + "/udp/"@
        + text::decimal(port as nat) + "/quic-v1/p2p/"@ + peer
}

/// Writes the address of a peer that listens with QUIC.
pub fn write_peer_address(ip: &[u8; 4], port: u16, peer: &str) -> (r: String)
    ensures
        r@ == peer_address(ip@, port, peer@),
{
    let mut s: String = "/ip4/".to_string();
    s.append(text::decimal_string(ip[0] as u64).as_str());
    s.append(".");
    s.append(text::decimal_string(ip[1] as u64).as_str());
    s.append(".");
    s.append(text::decimal_string(ip[2] as u64).as_str());
    s.append(".");
    s.append(text::decimal_string(ip[3] as u64).as_str());
    s.append("/udp/");
    s.append(text::decimal_string(port as u64).as_str());
    s.append("/quic-v1/p2p/");
    s.append(peer);
    s
}

/// A message about entry `n` of a bootnodes file.
pub open spec fn entry_message(
    before: Seq<char>,
    n: nat,
    between: Seq<char>,
    path: Seq<char>,
    reason: Seq<char>,
) -> Seq<char> {
    before + text::decimal(n) + between + path + reason
}

fn entry_message_string(before: &str, n: u64, between: &str, path: &str, reason: &str) -> (r:
    String)
    ensures
        r@ == entry_message(before@, n as nat, between@, path@, reason@),
{
    let mut s: String = before.to_string();
    s.append(text::decimal_string(n).as_str());
    s.append(between);
    s.append(path);
    s.append(reason);
    s
}

/// A message about a record in entry `n` of a bootnodes file.
pub open spec fn record_message(
    before: Seq<char>,
    path: Seq<char>,
    n: nat,
    reason: Seq<char>,
) -> Seq<char> {
    before + path + " entry "@ + text::decimal(n) + ": "@ + reason
}

fn record_message_string(before: &str, path: &str, n: u64, reason: &str) -> (r: String)
    ensures
        r@ == record_message(before@, path@, n as nat, reason@),
{
    let mut s: String = before.to_string();
    s.append(path);
    s.append(" entry ");
    s.append(text::decimal_string(n).as_str());
    s.append(": ");
    s.append(reason);
    s
}

/// The address that a record gives: none where it names no endpoint.
pub open spec fn address_of_record(
    path: Seq<char>,
    n: nat,
    record: (Option<Seq<u8>>, Option<Seq<u8>>, Option<u16>, Seq<u8>),
    peer: Result<Seq<char>, Seq<char>>,
) -> Result<Option<Seq<char>>, Seq<char>> {
    match endpoint_of(record) {
        None => Ok(None),
        Some((ip, port)) => match peer {
            Err(e) => Err(record_message("Invalid secp256k1 public key in "@, path, n, e)),
            Ok(p) => Ok(Some(peer_address(ip, port, p))),
        },
    }
}

/// The address that an item gives.
pub open spec fn address_of_item(path: Seq<char>, n: nat, item: Option<Option<Seq<char>>>) -> Result<
    Option<Seq<char>>,
    Seq<char>,
> {
    match item {
        None => Err(
            entry_message(
                "Invalid bootnode entry "@,
                n,
                " in "@,
                path,
                ": expected string or mapping"@,
            ),
        ),
        Some(None) => Err(
            entry_message("Invalid bootnode entry "@, n, " in "@, path, ": expected `enr` string"@),
        ),
        Some(Some(t)) => match yaml::enr_record(t) {
            Err(e) => Err(record_message("Invalid ENR at "@, path, n, e)),
            Ok(record) => address_of_record(path, n, record, yaml::peer_text(record.3)),
        },
    }
}

/// Finds the address that a record gives.
pub fn read_record(path: &str, n: u64, record: &EnrRecord, peer: Result<String, String>) -> (r:
    Result<Option<String>, String>)
    ensures
        match r {
            Ok(a) => address_of_record(
                path@,
                n as nat,
                record@,
                crate::ssz::view_outcome(peer),
            ) == Ok::<Option<Seq<char>>, Seq<char>>(discovery::option_text(a)),
            Err(e) => address_of_record(
                path@,
                n as nat,
                record@,
                crate::ssz::view_outcome(peer),
            ) == Err::<Option<Seq<char>>, Seq<char>>(e@),
        },
{
    match record_endpoint(record) {
        None => Ok(None),
        Some((ip, port)) => match peer {
            Err(e) => Err(
                record_message_string("Invalid secp256k1 public key in ", path, n, e.as_str()),
            ),
            Ok(p) => Ok(Some(write_peer_address(&ip, port, p.as_str()))),
        },
    }
}

/// Finds the address that an item gives.
pub fn read_item(path: &str, n: u64, item: &Option<Option<String>>) -> (r: Result<
    Option<String>,
    String,
>)
    ensures
        match r {
            Ok(a) => address_of_item(path@, n as nat, yaml::item_view(*item)) == Ok::<
                Option<Seq<char>>,
                Seq<char>,
            >(discovery::option_text(a)),
            Err(e) => address_of_item(path@, n as nat, yaml::item_view(*item)) == Err::<
                Option<Seq<char>>,
                Seq<char>,
            >(e@),
        },
{
    match item {
        None => Err(
            entry_message_string(
                "Invalid bootnode entry ",
                n,
                " in ",
                path,
                ": expected string or mapping",
            ),
        ),
        Some(None) => Err(
            entry_message_string(
                "Invalid bootnode entry ",
                n,
                " in ",
                path,
                ": expected `enr` string",
            ),
        ),
        Some(Some(t)) => match yaml::read_enr(t.as_str()) {
            Err(e) => Err(record_message_string("Invalid ENR at ", path, n, e.as_str())),
            Ok(record) => {
                let peer = yaml::read_peer(record.public_key.as_slice());
                read_record(path, n, &record, peer)
            },
        },
    }
}

/// The addresses of the first `k` items, or the first fault.
pub open spec fn addresses_of(path: Seq<char>, items: Seq<Option<Option<Seq<char>>>>, k: nat) -> Result<
    Seq<Seq<char>>,
    Seq<char>,
>
    decreases k,
{
    if k == 0 {
        Ok(Seq::empty())
    } else {
        match addresses_of(path, items, (k - 1) as nat) {
            Err(e) => Err(e),
            Ok(before) => match address_of_item(path, k, items[k - 1]) {
                Err(e) => Err(e),
                Ok(None) => Ok(before),
                Ok(Some(a)) => Ok(before.push(a)),
            },
        }
    }
}

proof fn lemma_address_fault_stays(
    path: Seq<char>,
    items: Seq<Option<Option<Seq<char>>>>,
    j: nat,
    k: nat,
)
    requires
        j <= k,
        addresses_of(path, items, j) is Err,
    ensures
        addresses_of(path, items, k) == addresses_of(path, items, j),
    decreases k,
{
    if j < k {
        lemma_address_fault_stays(path, items, j, (k - 1) as nat);
    }
}

/// Finds the addresses that the items of a bootnodes file give.
pub fn read_items(path: &str, items: &Vec<Option<Option<String>>>) -> (r: Result<
    Vec<String>,
    String,
>)
    ensures
        match r {
            Ok(v) => addresses_of(path@, yaml::item_views(items@), items@.len()) == Ok::<
                Seq<Seq<char>>,
                Seq<char>,
            >(peer_manager::names(v@)),
            Err(e) => addresses_of(path@, yaml::item_views(items@), items@.len()) == Err::<
                Seq<Seq<char>>,
                Seq<char>,
            >(e@),
        },
{
    let ghost all = yaml::item_views(items@);
    let mut out: Vec<String> = Vec::new();
    assert(peer_manager::names(out@) =~= Seq::empty());
    let mut i: usize = 0;
    while i < items.len()
        invariant
            i <= items@.len(),
            all == yaml::item_views(items@),
            addresses_of(path@, all, i as nat) == Ok::<Seq<Seq<char>>, Seq<char>>(
                peer_manager::names(out@),
            ),
        decreases items@.len() - i,
    {
        assert(all[i as int] == yaml::item_view(items@[i as int]));
        let n: u64 = i as u64 + 1;
        match read_item(path, n, &items[i]) {
            Err(e) => {
                proof {
                    lemma_address_fault_stays(path@, all, (i + 1) as nat, items@.len());
                }
                return Err(e);
            },
            Ok(None) => {},
            Ok(Some(a)) => {
                let ghost before = peer_manager::names(out@);
                out.push(a);
                assert(peer_manager::names(out@) =~= before.push(a@));
            },
        }
        i = i + 1;
    }
    Ok(out)
}

/// The addresses that a bootnodes file gives.
pub open spec fn bootnodes_of(path: Seq<char>, s: Seq<char>) -> Result<Seq<Seq<char>>, Seq<char>> {
    match yaml::yaml_fault(s) {
        Some(e) => Err("Failed to parse bootnodes file "@ + path + ": "@ + e),
        None => match yaml::yaml_items(s, "enr"@) {
            None => Err(
                "Failed to parse bootnodes file "@ + path + ": "@ + "expected a YAML sequence"@,
            ),
            Some(items) => addresses_of(path, items, items.len()),
        },
    }
}

fn file_fault_string(path: &str, reason: &str) -> (r: String)
    ensures
        r@ == "Failed to parse bootnodes file "@ + path@ + ": "@ + reason@,
{
    let mut s: String = "Failed to parse bootnodes file ".to_string();
    s.append(path);
    s.append(": ");
    s.append(reason);
    s
}

/// Reads the bootnodes from the text of a bootnodes file: a YAML sequence of node
/// records. Records without an endpoint are left out.
pub fn load_bootnodes_from_enr_file(path: &str, s: &str) -> (r: Result<Vec<String>, String>)
    ensures
        match r {
            Ok(v) => bootnodes_of(path@, s@) == Ok::<Seq<Seq<char>>, Seq<char>>(
                peer_manager::names(v@),
            ),
            Err(e) => bootnodes_of(path@, s@) == Err::<Seq<Seq<char>>, Seq<char>>(e@),
        },
{
    if let Some(e) = yaml::read_yaml_fault(s) {
        return Err(file_fault_string(path, e.as_str()));
    }
    match yaml::read_yaml_items(s, "enr") {
        None => Err(file_fault_string(path, "expected a YAML sequence")),
        Some(items) => read_items(path, &items),
    }
}

} // verus!
