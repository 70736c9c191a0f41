//! The texts of the files of a development network.

use vstd::prelude::*;
use vstd::string::StringExecFns;

use crate::app::yaml;
use crate::networking::hex;
use crate::networking::peer_manager;
use crate::registry;
use crate::text;

verus! {

/// Keys of a validator, as the files name them.
#[derive(Clone, Debug)]
pub struct ValidatorMaterial {
    /// Attestation key in hexadecimal.
    pub attestation_pubkey: String,
    /// Proposal key in hexadecimal.
    pub proposal_pubkey: String,
    /// File with the secret attestation key.
    pub attestation_privkey_file: String,
    /// File with the secret proposal key.
    pub proposal_privkey_file: String,
}

/// The value of a [`ValidatorMaterial`].
#[verifier::ext_equal]
pub struct MaterialModel {
    pub attestation_pubkey: Seq<char>,
    pub proposal_pubkey: Seq<char>,
    pub attestation_privkey_file: Seq<char>,
    pub proposal_privkey_file: Seq<char>,
}

impl View for ValidatorMaterial {
    type V = MaterialModel;

    open spec fn view(&self) -> MaterialModel {
        MaterialModel {
            attestation_pubkey: self.attestation_pubkey@,
            proposal_pubkey: self.proposal_pubkey@,
            attestation_privkey_file: self.attestation_privkey_file@,
            proposal_privkey_file: self.proposal_privkey_file@,
        }
    }
}

/// The values of materials.
pub open spec fn material_models(v: Seq<ValidatorMaterial>) -> Seq<MaterialModel> {
    v.map_values(|m: ValidatorMaterial| m@)
}

/// The name of a validator's key file.
pub open spec fn key_file(index: nat, suffix: Seq<char>) -> Seq<char> {
    "validator_"@ + text::decimal(index) + suffix
}

/// Writes the name of a validator's key file.
pub fn key_file_name(index: u64, suffix: &str) -> (r: String)
    ensures
        r@ == key_file(index as nat, suffix@),
{
    let mut s: String = "validator_".to_string();
    s.append(text::decimal_string(index).as_str());
    s.append(suffix);
    s
}

/// The keys of a validator, as the files name them.
pub open spec fn material_of(index: nat, attestation: Seq<u8>, proposal: Seq<u8>) -> MaterialModel {
    MaterialModel {
        attestation_pubkey: hex::hex_text(attestation, attestation.len()),
        proposal_pubkey: hex::hex_text(proposal, proposal.len()),
        attestation_privkey_file: key_file(index, "_attestation_sk.ssz"@),
        proposal_privkey_file: key_file(index, "_proposal_sk.ssz"@),
    }
}

/// Names the keys of a validator.
pub fn validator_material(index: u64, attestation: &[u8], proposal: &[u8]) -> (r: ValidatorMaterial)
    ensures
        r@ == material_of(index as nat, attestation@, proposal@),
{
    ValidatorMaterial {
        attestation_pubkey: hex::to_hex(attestation),
        proposal_pubkey: hex::to_hex(proposal),
        attestation_privkey_file: key_file_name(index, "_attestation_sk.ssz"),
        proposal_privkey_file: key_file_name(index, "_proposal_sk.ssz"),
    }
}

/// The first `k` lines, separated by line feeds.
pub open spec fn joined(lines: Seq<Seq<char>>, k: nat) -> Seq<char>
    decreases k,
{
    if k == 0 {
        Seq::empty()
    } else if k == 1 {
        lines[0]
    } else {
        joined(lines, (k - 1) as nat) + "\n"@ + lines[k - 1]
    }
}

/// The text of a file with given lines: the last line ends with a line feed too.
pub open spec fn file_of(lines: Seq<Seq<char>>) -> Seq<char> {
    joined(lines, lines.len()) + "\n"@
}

/// Writes the text of a file with given lines.
pub fn file_text(lines: &Vec<String>) -> (r: String)
    ensures
        r@ == file_of(peer_manager::names(lines@)),
{
    let ghost all = peer_manager::names(lines@);
    let mut s: String = String::new();
    assert(s@ =~= Seq::empty());
    let mut i: usize = 0;
    while i < lines.len()
        invariant
            i <= lines@.len(),
            all == peer_manager::names(lines@),
            s@ == joined(all, i as nat),
        decreases lines@.len() - i,
    {
        assert(all[i as int] == lines@[i as int]@);
        if i == 0 {
            s = lines[0].clone();
        } else {
            s.append("\n");
            s.append(lines[i].as_str());
        }
        i = i + 1;
    }
    s.append("\n");
    s
}

fn put_line(lines: &mut Vec<String>, before: &str, value: &str, after: &str)
    ensures
        peer_manager::names(final(lines)@) == peer_manager::names(old(lines)@).push(
            before@ + value@ + after@,
        ),
{
    let ghost was = peer_manager::names(lines@);
    let mut s: String = before.to_string();
    s.append(value);
    s.append(after);
    lines.push(s);
    assert(peer_manager::names(lines@) =~= was.push(s@));
}

/// A line with a value in it.
pub open spec fn line(before: Seq<char>, value: Seq<char>, after: Seq<char>) -> Seq<char> {
    before + value + after
}

/// The first lines of the key manifest.
pub open spec fn manifest_head(count: nat) -> Seq<Seq<char>> {
    seq![
        line("key_scheme: "@, "SIGTopLevelTargetSumLifetime32Dim64Base8"@, ""@),
        line("hash_function: "@, "Poseidon2"@, ""@),
        line("encoding: "@, "TargetSum"@, ""@),
        line("lifetime: "@, "4294967296"@, ""@),
        line("log_num_active_epochs: "@, "18"@, ""@),
        line("num_active_epochs: "@, "262144"@, ""@),
        line("num_validators: "@, text::decimal(count), ""@),
        line("validators:"@, ""@, ""@),
    ]
}

/// The key manifest with the first `k` validators.
pub open spec fn manifest_lines(v: Seq<MaterialModel>, k: nat) -> Seq<Seq<char>>
    decreases k,
{
    if k == 0 {
        manifest_head(v.len())
    } else {
        let m = v[k - 1];
        manifest_lines(v, (k - 1) as nat).push(
            line("- index: "@, text::decimal((k - 1) as nat), ""@),
        ).push(line("  attestation_pubkey_hex: 0x"@, m.attestation_pubkey, ""@)).push(
            line("  proposal_pubkey_hex: 0x"@, m.proposal_pubkey, ""@),
        ).push(line("  attestation_privkey_file: "@, m.attestation_privkey_file, ""@)).push(
            line("  proposal_privkey_file: "@, m.proposal_privkey_file, ""@),
        )
    }
}

fn start_manifest(count: u64) -> (r: Vec<String>)
    ensures
        peer_manager::names(r@) == manifest_head(count as nat),
{
    let mut lines: Vec<String> = Vec::new();
    assert(peer_manager::names(lines@) =~= Seq::empty());
    put_line(&mut lines, "key_scheme: ", "SIGTopLevelTargetSumLifetime32Dim64Base8", "");
    put_line(&mut lines, "hash_function: ", "Poseidon2", "");
    put_line(&mut lines, "encoding: ", "TargetSum", "");
    put_line(&mut lines, "lifetime: ", "4294967296", "");
    put_line(&mut lines, "log_num_active_epochs: ", "18", "");
    put_line(&mut lines, "num_active_epochs: ", "262144", "");
    put_line(&mut lines, "num_validators: ", text::decimal_string(count).as_str(), "");
    put_line(&mut lines, "validators:", "", "");
    assert(peer_manager::names(lines@) =~= manifest_head(count as nat));
    lines
}

/// Writes the lines of the key manifest.
pub fn manifest(materials: &Vec<ValidatorMaterial>) -> (r: Vec<String>)
    ensures
        peer_manager::names(r@) == manifest_lines(
            material_models(materials@),
            materials@.len(),
        ),
{
    let ghost all = material_models(materials@);
    let mut lines = start_manifest(materials.len() as u64);
    let mut i: usize = 0;
    while i < materials.len()
        invariant
            i <= materials@.len(),
            all == material_models(materials@),
            peer_manager::names(lines@) == manifest_lines(all, i as nat),
        decreases materials@.len() - i,
    {
        let m = &materials[i];
        assert(all[i as int] == m@);
        put_line(&mut lines, "- index: ", text::decimal_string(i as u64).as_str(), "");
        put_line(&mut lines, "  attestation_pubkey_hex: 0x", m.attestation_pubkey.as_str(), "");
        put_line(&mut lines, "  proposal_pubkey_hex: 0x", m.proposal_pubkey.as_str(), "");
        put_line(&mut lines, "  attestation_privkey_file: ", m.attestation_privkey_file.as_str(), "");
        put_line(&mut lines, "  proposal_privkey_file: ", m.proposal_privkey_file.as_str(), "");
        i = i + 1;
    }
    lines
}

/// The chain configuration with the first `k` validators.
pub open spec fn config_lines(time: nat, v: Seq<MaterialModel>, k: nat) -> Seq<Seq<char>>
    decreases k,
{
    if k == 0 {
        seq![
            line("GENESIS_TIME: "@, text::decimal(time), ""@),
            line("NUM_VALIDATORS: "@, text::decimal(v.len()), ""@),
            line("GENESIS_VALIDATORS:"@, ""@, ""@),
        ]
    } else {
        let m = v[k - 1];
        config_lines(time, v, (k - 1) as nat).push(
            line("- attestation_pubkey: \"0x"@, m.attestation_pubkey, "\""@),
        ).push(line("  proposal_pubkey: \"0x"@, m.proposal_pubkey, "\""@))
    }
}

/// Writes the lines of the chain configuration.
pub fn chain_config(genesis_time: u64, materials: &Vec<ValidatorMaterial>) -> (r: Vec<String>)
    ensures
        peer_manager::names(r@) == config_lines(
            genesis_time as nat,
            material_models(materials@),
            materials@.len(),
        ),
{
    let ghost all = material_models(materials@);
    let mut lines: Vec<String> = Vec::new();
    assert(peer_manager::names(lines@) =~= Seq::empty());
    put_line(&mut lines, "GENESIS_TIME: ", text::decimal_string(genesis_time).as_str(), "");
    put_line(
        &mut lines,
        "NUM_VALIDATORS: ",
        text::decimal_string(materials.len() as u64).as_str(),
        "",
    );
    put_line(&mut lines, "GENESIS_VALIDATORS:", "", "");
    assert(peer_manager::names(lines@) =~= config_lines(genesis_time as nat, all, 0));
    let mut i: usize = 0;
    while i < materials.len()
        invariant
            i <= materials@.len(),
            all == material_models(materials@),
            peer_manager::names(lines@) == config_lines(genesis_time as nat, all, i as nat),
        decreases materials@.len() - i,
    {
        let m = &materials[i];
        assert(all[i as int] == m@);
        put_line(&mut lines, "- attestation_pubkey: \"0x", m.attestation_pubkey.as_str(), "\"");
        put_line(&mut lines, "  proposal_pubkey: \"0x", m.proposal_pubkey.as_str(), "\"");
        i = i + 1;
    }
    lines
}

/// The first `k` indexes of a node, one line each.
pub open spec fn index_lines(v: Seq<u64>, k: nat) -> Seq<Seq<char>>
    decreases k,
{
    if k == 0 {
        Seq::empty()
    } else {
        index_lines(v, (k - 1) as nat).push(line("- "@, text::decimal(v[k - 1] as nat), ""@))
    }
}

/// The validators of the first `k` nodes.
pub open spec fn assignment_lines(map: Seq<(Seq<char>, Seq<u64>)>, k: nat) -> Seq<Seq<char>>
    decreases k,
{
    if k == 0 {
        Seq::empty()
    } else {
        let list = registry::ascending(map[k - 1].1, map[k - 1].1.len());
        assignment_lines(map, (k - 1) as nat).push(line(""@, map[k - 1].0, ":"@)) + index_lines(
            list,
            list.len(),
        )
    }
}

fn put_indexes(lines: &mut Vec<String>, list: &Vec<u64>)
    ensures
        peer_manager::names(final(lines)@) == peer_manager::names(old(lines)@) + index_lines(
            list@,
            list@.len(),
        ),
{
    let ghost start = peer_manager::names(lines@);
    let mut i: usize = 0;
    assert(start + index_lines(list@, 0) =~= start);
    while i < list.len()
        invariant
            i <= list@.len(),
            peer_manager::names(lines@) == start + index_lines(list@, i as nat),
        decreases list@.len() - i,
    {
        put_line(lines, "- ", text::decimal_string(list[i]).as_str(), "");
        assert(peer_manager::names(lines@) =~= start + index_lines(list@, (i + 1) as nat));
        i = i + 1;
    }
}

/// Writes the lines that assign validators to nodes.
pub fn assignment(map: &Vec<(String, Vec<u64>)>) -> (r: Vec<String>)
    ensures
        peer_manager::names(r@) == assignment_lines(yaml::list_views(map@), map@.len()),
{
    let ghost all = yaml::list_views(map@);
    let mut lines: Vec<String> = Vec::new();
    assert(peer_manager::names(lines@) =~= Seq::empty());
    let mut i: usize = 0;
    while i < map.len()
        invariant
            i <= map@.len(),
            all == yaml::list_views(map@),
            peer_manager::names(lines@) == assignment_lines(all, i as nat),
        decreases map@.len() - i,
    {
        assert(all[i as int] == (map@[i as int].0@, map@[i as int].1@));
        put_line(&mut lines, "", map[i].0.as_str(), ":");
        let list = registry::sorted_indexes(&map[i].1);
        put_indexes(&mut lines, &list);
        i = i + 1;
    }
    lines
}

/// The first `k` indexes of a node with their keys.
pub open spec fn annotated_index_lines(list: Seq<u64>, v: Seq<MaterialModel>, k: nat) -> Seq<
    Seq<char>,
>
    decreases k,
{
    if k == 0 {
        Seq::empty()
    } else {
        let m = v[list[k - 1] as int];
        annotated_index_lines(list, v, (k - 1) as nat).push(
            line("  - index: "@, text::decimal(list[k - 1] as nat), ""@),
        ).push(line("    attestation_pubkey_hex: "@, m.attestation_pubkey, ""@)).push(
            line("    proposal_pubkey_hex: "@, m.proposal_pubkey, ""@),
        ).push(line("    attestation_privkey_file: "@, m.attestation_privkey_file, ""@)).push(
            line("    proposal_privkey_file: "@, m.proposal_privkey_file, ""@),
        )
    }
}

/// The validators of the first `k` nodes with their keys.
pub open spec fn annotated_lines(
    map: Seq<(Seq<char>, Seq<u64>)>,
    v: Seq<MaterialModel>,
    k: nat,
) -> Seq<Seq<char>>
    decreases k,
{
    if k == 0 {
        Seq::empty()
    } else {
        let list = registry::ascending(map[k - 1].1, map[k - 1].1.len());
        annotated_lines(map, v, (k - 1) as nat).push(line(""@, map[k - 1].0, ":"@))
            + annotated_index_lines(list, v, list.len())
    }
}

fn put_annotated(lines: &mut Vec<String>, list: &Vec<u64>, materials: &Vec<ValidatorMaterial>)
    requires
        forall|i: int| 0 <= i < list@.len() ==> #[trigger] list@[i] < materials@.len(),
    ensures
        peer_manager::names(final(lines)@) == peer_manager::names(old(lines)@)
            + annotated_index_lines(list@, material_models(materials@), list@.len()),
{
    let ghost all = material_models(materials@);
    let ghost start = peer_manager::names(lines@);
    let count: usize = materials.len();
    let mut i: usize = 0;
    assert(start + annotated_index_lines(list@, all, 0) =~= start);
    while i < list.len()
        invariant
            i <= list@.len(),
            count == materials@.len(),
            all == material_models(materials@),
            forall|i: int| 0 <= i < list@.len() ==> #[trigger] list@[i] < materials@.len(),
            peer_manager::names(lines@) == start + annotated_index_lines(list@, all, i as nat),
        decreases list@.len() - i,
    {
        let index: u64 = list[i];
        assert(list@[i as int] < count);
        let m = &materials[index as usize];
        assert(all[index as int] == m@);
        put_line(lines, "  - index: ", text::decimal_string(index).as_str(), "");
        put_line(lines, "    attestation_pubkey_hex: ", m.attestation_pubkey.as_str(), "");
        put_line(lines, "    proposal_pubkey_hex: ", m.proposal_pubkey.as_str(), "");
        put_line(lines, "    attestation_privkey_file: ", m.attestation_privkey_file.as_str(), "");
        put_line(lines, "    proposal_privkey_file: ", m.proposal_privkey_file.as_str(), "");
        assert(peer_manager::names(lines@) =~= start + annotated_index_lines(
            list@,
            all,
            (i + 1) as nat,
        ));
        i = i + 1;
    }
}

/// Sorting an in-range list leaves it in range.
proof fn lemma_sorted_in_range(v: Seq<u64>, count: nat)
    requires
        forall|i: int| 0 <= i < v.len() ==> #[trigger] v[i] < count,
    ensures
        forall|i: int|
            0 <= i < registry::ascending(v, v.len()).len() ==> #[trigger] registry::ascending(
                v,
                v.len(),
            )[i] < count,
{
    broadcast use vstd::seq_lib::group_to_multiset_ensures;

    registry::law_sorting_keeps_numbers(v, v.len());
    assert(v.take(v.len() as int) =~= v);
    let s = registry::ascending(v, v.len());
    assert forall|i: int| 0 <= i < s.len() implies #[trigger] s[i] < count by {
        assert(s.contains(s[i]));
        assert(s.to_multiset().count(s[i]) > 0);
        assert(v.contains(s[i]));
        let j = choose|j: int| 0 <= j < v.len() && v[j] == s[i];
        assert(v[j] < count);
    }
}

/// Writes the lines that assign validators to nodes, with the validators' keys.
pub fn annotated(map: &Vec<(String, Vec<u64>)>, materials: &Vec<ValidatorMaterial>) -> (r: Vec<
    String,
>)
    requires
        registry::map_in_range(yaml::list_views(map@), materials@.len() as u64),
    ensures
        peer_manager::names(r@) == annotated_lines(
            yaml::list_views(map@),
            material_models(materials@),
            map@.len(),
        ),
{
    let ghost all = yaml::list_views(map@);
    let ghost keys = material_models(materials@);
    let n: usize = materials.len();
    let mut lines: Vec<String> = Vec::new();
    assert(peer_manager::names(lines@) =~= Seq::empty());
    let mut i: usize = 0;
    while i < map.len()
        invariant
            i <= map@.len(),
            n == materials@.len(),
            all == yaml::list_views(map@),
            keys == material_models(materials@),
            registry::map_in_range(all, n as u64),
            peer_manager::names(lines@) == annotated_lines(all, keys, i as nat),
        decreases map@.len() - i,
    {
        assert(all[i as int] == (map@[i as int].0@, map@[i as int].1@));
        put_line(&mut lines, "", map[i].0.as_str(), ":");
        let list = registry::sorted_indexes(&map[i].1);
        proof {
            let v = map@[i as int].1@;
            assert forall|j: int| 0 <= j < v.len() implies #[trigger] v[j] < n as nat by {
                assert(!registry::out_of_range(all, n as u64, i as int, j));
            }
            lemma_sorted_in_range(v, n as nat);
        }
        put_annotated(&mut lines, &list, materials);
        i = i + 1;
    }
    lines
}

/// The 64 hexadecimal digits of a number, the first `k` of them.
pub open spec fn padded_digits(n: u64, k: nat) -> Seq<char>
    decreases k,
{
    if k == 0 {
        Seq::empty()
    } else {
        padded_digits(n, (k - 1) as nat).push(hex::hex_char(digit_at(n, (64 - k) as nat)))
    }
}

/// Hexadecimal digit `place` of a number, counted from the last.
pub open spec fn digit_at(n: u64, place: nat) -> nat
    decreases place,
{
    if place == 0 {
        (n % 16) as nat
    } else {
        digit_at(n / 16, (place - 1) as nat)
    }
}

fn read_digit_at(n: u64, place: usize) -> (r: u8)
    ensures
        r == digit_at(n, place as nat),
        r < 16,
{
    let mut m: u64 = n;
    let mut p: usize = place;
    while p > 0
        invariant
            p <= place,
            digit_at(m, p as nat) == digit_at(n, place as nat),
        decreases p,
    {
        m = m / 16;
        p = p - 1;
    }
    (m % 16) as u8
}

/// Writes the placeholder key of a node: its number, counted from 1, in 64
/// hexadecimal digits.
pub fn synthetic_node_privkey_hex(node_index: u64) -> (r: String)
    requires
        node_index < u64::MAX,
    ensures
        r@ == padded_digits((node_index + 1) as u64, 64),
{
    let n: u64 = node_index + 1;
    let mut s: String = String::new();
    assert(s@ =~= Seq::empty());
    let mut k: usize = 0;
    while k < 64
        invariant
            k <= 64,
            s@ == padded_digits(n, k as nat),
        decreases 64 - k,
    {
        let d: u8 = read_digit_at(n, 63 - k);
        let c: char = if d < 10 {
            (48 + d) as char
        } else {
            (87 + d) as char
        };
        s.push(c);
        k = k + 1;
    }
    s
}

/// `true` or `false`.
pub open spec fn truth(b: bool) -> Seq<char> {
    if b {
        "true"@
    } else {
        "false"@
    }
}

/// The validator configuration of the first `k` nodes.
pub open spec fn node_lines(map: Seq<(Seq<char>, Seq<u64>)>, subnets: u64, k: nat) -> Seq<Seq<char>>
    decreases k,
{
    if k == 0 {
        seq![line("validators:"@, ""@, ""@)]
    } else {
        let aggregates = registry::node_aggregates(map, k - 1, subnets);
        node_lines(map, subnets, (k - 1) as nat).push(line("  - name: \""@, map[k - 1].0, "\""@)).push(
            line("    privkey: \""@, padded_digits(k as u64, 64), "\""@),
        ).push(line("    is_aggregator: "@, truth(aggregates), ""@)).push(
            line("    enrFields:"@, ""@, ""@),
        ).push(line("      is_aggregator: "@, truth(aggregates), ""@))
    }
}

/// Writes the lines of the validator configuration.
pub fn node_config(map: &Vec<(String, Vec<u64>)>, subnets: u64) -> (r: Vec<String>)
    requires
        subnets > 0,
    ensures
        peer_manager::names(r@) == node_lines(yaml::list_views(map@), subnets, map@.len()),
{
    let ghost all = yaml::list_views(map@);
    let mut lines: Vec<String> = Vec::new();
    assert(peer_manager::names(lines@) =~= Seq::empty());
    put_line(&mut lines, "validators:", "", "");
    assert(peer_manager::names(lines@) =~= node_lines(all, subnets, 0));
    let mut i: usize = 0;
    while i < map.len()
        invariant
            i <= map@.len(),
            subnets > 0,
            all == yaml::list_views(map@),
            peer_manager::names(lines@) == node_lines(all, subnets, i as nat),
        decreases map@.len() - i,
    {
        assert(all[i as int] == (map@[i as int].0@, map@[i as int].1@));
        let aggregates = registry::is_aggregator_node(map, i, subnets);
        let word: &str = if aggregates {
            "true"
        } else {
            "false"
        };
        put_line(&mut lines, "  - name: \"", map[i].0.as_str(), "\"");
        put_line(
            &mut lines,
            "    privkey: \"",
            synthetic_node_privkey_hex(i as u64).as_str(),
            "\"",
        );
        put_line(&mut lines, "    is_aggregator: ", word, "");
        put_line(&mut lines, "    enrFields:", "", "");
        put_line(&mut lines, "      is_aggregator: ", word, "");
        i = i + 1;
    }
    lines
}

} // verus!
