//! What the files of a new network hold.

use crate::networking::hex;
use crate::registry;
use crate::registry_files;
use crate::registry_files::MaterialModel;
use crate::text;
use vstd::prelude::*;

verus! {

/// One more line of a file stands behind the others and ends with a line feed.
pub proof fn law_files_grow_by_lines(lines: Seq<Seq<char>>, last: Seq<char>)
    ensures
        registry_files::file_of(seq![last]) == last + "\n"@,
        lines.len() > 0 ==> registry_files::file_of(lines.push(last)) == registry_files::file_of(
            lines,
        ) + last + "\n"@,
{
    let all = lines.push(last);
    lemma_joined(lines, all, lines.len());
    assert(all[lines.len() as int] == last);
}

proof fn lemma_joined(a: Seq<Seq<char>>, b: Seq<Seq<char>>, k: nat)
    requires
        k <= a.len(),
        k <= b.len(),
        forall|i: int| 0 <= i < k ==> #[trigger] a[i] == b[i],
    ensures
        registry_files::joined(a, k) == registry_files::joined(b, k),
    decreases k,
{
    if k > 0 {
        lemma_joined(a, b, (k - 1) as nat);
        assert(a[k - 1] == b[k - 1]);
        assert(a[0] == b[0]);
    }
}

proof fn lemma_manifest(v: Seq<MaterialModel>, k: nat, i: int)
    requires
        k <= v.len(),
        0 <= i < k,
    ensures
        ({
            let l = registry_files::manifest_lines(v, k);
            &&& l.len() == 8 + 5 * k
            &&& l[6] == "num_validators: "@ + text::decimal(v.len())
            &&& l[8 + 5 * i] == "- index: "@ + text::decimal(i as nat)
            &&& l[9 + 5 * i] == "  attestation_pubkey_hex: 0x"@ + v[i].attestation_pubkey
            &&& l[10 + 5 * i] == "  proposal_pubkey_hex: 0x"@ + v[i].proposal_pubkey
            &&& l[11 + 5 * i] == "  attestation_privkey_file: "@ + v[i].attestation_privkey_file
            &&& l[12 + 5 * i] == "  proposal_privkey_file: "@ + v[i].proposal_privkey_file
        }),
    decreases k,
{
    lemma_blank();
    if i < k - 1 {
        lemma_manifest(v, (k - 1) as nat, i);
    } else if k > 1 {
        lemma_manifest(v, (k - 1) as nat, k - 2);
    } else {
        assert(registry_files::manifest_lines(v, 0).len() == 8);
    }
}

proof fn lemma_blank()
    ensures
        forall|a: Seq<char>| #[trigger] (a + ""@) == a,
        forall|a: Seq<char>| #[trigger] (""@ + a) == a,
{
    reveal_strlit("");
    assert forall|a: Seq<char>| #[trigger] (a + ""@) == a by {
        assert(a + ""@ =~= a);
    }
    assert forall|a: Seq<char>| #[trigger] (""@ + a) == a by {
        assert(""@ + a =~= a);
    }
}

/// The key manifest tells the number of validators, and of each in its turn five lines: its index,
/// its two keys and the files of its two secrets.
pub proof fn law_manifest(v: Seq<MaterialModel>, i: int)
    requires
        0 <= i < v.len(),
    ensures
        ({
            let l = registry_files::manifest_lines(v, v.len());
            &&& l.len() == 8 + 5 * v.len()
            &&& l[6] == "num_validators: "@ + text::decimal(v.len())
            &&& l[8 + 5 * i] == "- index: "@ + text::decimal(i as nat)
            &&& l[9 + 5 * i] == "  attestation_pubkey_hex: 0x"@ + v[i].attestation_pubkey
            &&& l[10 + 5 * i] == "  proposal_pubkey_hex: 0x"@ + v[i].proposal_pubkey
            &&& l[11 + 5 * i] == "  attestation_privkey_file: "@ + v[i].attestation_privkey_file
            &&& l[12 + 5 * i] == "  proposal_privkey_file: "@ + v[i].proposal_privkey_file
        }),
{
    lemma_manifest(v, v.len(), i);
}

proof fn lemma_config(time: nat, v: Seq<MaterialModel>, k: nat, i: int)
    requires
        k <= v.len(),
        0 <= i < k,
    ensures
        ({
            let l = registry_files::config_lines(time, v, k);
            &&& l.len() == 3 + 2 * k
            &&& l[0] == "GENESIS_TIME: "@ + text::decimal(time)
            &&& l[1] == "NUM_VALIDATORS: "@ + text::decimal(v.len())
            &&& l[3 + 2 * i] == "- attestation_pubkey: \"0x"@ + v[i].attestation_pubkey + "\""@
            &&& l[4 + 2 * i] == "  proposal_pubkey: \"0x"@ + v[i].proposal_pubkey + "\""@
        }),
    decreases k,
{
    lemma_blank();
    if i < k - 1 {
        lemma_config(time, v, (k - 1) as nat, i);
    } else if k > 1 {
        lemma_config(time, v, (k - 1) as nat, k - 2);
    } else {
        assert(registry_files::config_lines(time, v, 0).len() == 3);
    }
}

/// The chain configuration tells the genesis time and the number of validators, and of each in
/// its turn its two keys.
pub proof fn law_chain_configuration(time: nat, v: Seq<MaterialModel>, i: int)
    requires
        0 <= i < v.len(),
    ensures
        ({
            let l = registry_files::config_lines(time, v, v.len());
            &&& l.len() == 3 + 2 * v.len()
            &&& l[0] == "GENESIS_TIME: "@ + text::decimal(time)
            &&& l[1] == "NUM_VALIDATORS: "@ + text::decimal(v.len())
            &&& l[3 + 2 * i] == "- attestation_pubkey: \"0x"@ + v[i].attestation_pubkey + "\""@
            &&& l[4 + 2 * i] == "  proposal_pubkey: \"0x"@ + v[i].proposal_pubkey + "\""@
        }),
{
    lemma_config(time, v, v.len(), i);
}

proof fn lemma_nodes(map: Seq<(Seq<char>, Seq<u64>)>, subnets: u64, k: nat, i: int)
    requires
        k <= map.len() <= u64::MAX,
        0 <= i < k,
    ensures
        ({
            let l = registry_files::node_lines(map, subnets, k);
            let told = if registry::node_aggregates(map, i, subnets) {
                "true"@
            } else {
                "false"@
            };
            &&& l.len() == 1 + 5 * k
            &&& l[1 + 5 * i] == "  - name: \""@ + map[i].0 + "\""@
            &&& l[2 + 5 * i] == "    privkey: \""@ + registry_files::padded_digits(
                (i + 1) as u64,
                64,
            ) + "\""@
            &&& l[3 + 5 * i] == "    is_aggregator: "@ + told
            &&& l[5 + 5 * i] == "      is_aggregator: "@ + told
        }),
    decreases k,
{
    lemma_blank();
    if i < k - 1 {
        lemma_nodes(map, subnets, (k - 1) as nat, i);
    } else if k > 1 {
        lemma_nodes(map, subnets, (k - 1) as nat, k - 2);
    } else {
        assert(registry_files::node_lines(map, subnets, 0).len() == 1);
    }
}

/// The validator configuration tells of each node in its turn its name, its key, which is the
/// number of the node counted from 1, and whether it aggregates.
pub proof fn law_node_configuration(map: Seq<(Seq<char>, Seq<u64>)>, subnets: u64, i: int)
    requires
        map.len() <= u64::MAX,
        0 <= i < map.len(),
    ensures
        ({
            let l = registry_files::node_lines(map, subnets, map.len());
            let told = if registry::node_aggregates(map, i, subnets) {
                "true"@
            } else {
                "false"@
            };
            &&& l.len() == 1 + 5 * map.len()
            &&& l[1 + 5 * i] == "  - name: \""@ + map[i].0 + "\""@
            &&& l[2 + 5 * i] == "    privkey: \""@ + registry_files::padded_digits(
                (i + 1) as u64,
                64,
            ) + "\""@
            &&& l[3 + 5 * i] == "    is_aggregator: "@ + told
            &&& l[5 + 5 * i] == "      is_aggregator: "@ + told
        }),
{
    lemma_nodes(map, subnets, map.len(), i);
}

proof fn lemma_padded(n: u64, k: nat, i: int)
    requires
        k <= 64,
    ensures
        registry_files::padded_digits(n, k).len() == k,
        0 <= i < k ==> registry_files::padded_digits(n, k)[i] == hex::hex_char(
            registry_files::digit_at(n, (63 - i) as nat),
        ),
    decreases k,
{
    if k > 0 {
        lemma_padded(n, (k - 1) as nat, i);
        lemma_padded(n, (k - 1) as nat, 0);
    }
}

/// A key of 64 digits ends with the number's last hexadecimal digit, and before it stand those of
/// what remains of the number without it.
pub proof fn law_padded_digits(n: u64, i: int)
    requires
        0 <= i < 63,
    ensures
        registry_files::padded_digits(n, 64).len() == 64,
        registry_files::padded_digits(n, 64)[63] == hex::hex_char((n % 16) as nat),
        registry_files::padded_digits(n, 64)[i] == registry_files::padded_digits(
            (n / 16) as u64,
            64,
        )[i + 1],
{
    lemma_padded(n, 64, 63);
    lemma_padded(n, 64, i);
    lemma_padded((n / 16) as u64, 64, i + 1);
}

proof fn lemma_indexes(v: Seq<u64>, k: nat, i: int)
    requires
        k <= v.len(),
    ensures
        registry_files::index_lines(v, k).len() == k,
        0 <= i < k ==> registry_files::index_lines(v, k)[i] == "- "@ + text::decimal(v[i] as nat),
    decreases k,
{
    lemma_blank();
    if k > 0 {
        lemma_indexes(v, (k - 1) as nat, i);
        lemma_indexes(v, (k - 1) as nat, 0);
    }
}

/// The assignment tells of each node in its turn its name and, in ascending order, the indexes of
/// its validators.
pub proof fn law_assignment(map: Seq<(Seq<char>, Seq<u64>)>, k: nat, i: int)
    requires
        0 < k <= map.len(),
    ensures
        ({
            let before = registry_files::assignment_lines(map, (k - 1) as nat);
            let l = registry_files::assignment_lines(map, k);
            let list = registry::ascending(map[k - 1].1, map[k - 1].1.len());
            let n = before.len() as int;
            &&& l.len() == n + 1 + list.len()
            &&& l.take(n) == before
            &&& l[n] == map[k - 1].0 + ":"@
            &&& 0 <= i < list.len() ==> l[n + 1 + i] == "- "@ + text::decimal(list[i] as nat)
        }),
{
    lemma_blank();
    let before = registry_files::assignment_lines(map, (k - 1) as nat);
    let list = registry::ascending(map[k - 1].1, map[k - 1].1.len());
    let l = registry_files::assignment_lines(map, k);
    lemma_indexes(list, list.len(), i);
    lemma_indexes(list, list.len(), 0);
    assert(l.take(before.len() as int) =~= before);
}

/// A validator's files are named after its index, and its keys are written in hexadecimal.
pub proof fn law_material(index: nat, attestation: Seq<u8>, proposal: Seq<u8>)
    ensures
        ({
            let m = registry_files::material_of(index, attestation, proposal);
            &&& m.attestation_pubkey == hex::hex_text(attestation, attestation.len())
            &&& m.proposal_pubkey == hex::hex_text(proposal, proposal.len())
            &&& m.attestation_privkey_file == "validator_"@ + text::decimal(index)
                + "_attestation_sk.ssz"@
            &&& m.proposal_privkey_file == "validator_"@ + text::decimal(index)
                + "_proposal_sk.ssz"@
        }),
{
}

} // verus!
