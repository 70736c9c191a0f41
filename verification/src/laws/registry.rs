//! How validators are assigned to nodes and how a node finds its validator and its name.

use crate::app::identity;
use crate::app::identity::EntryModel;
use crate::numbers;
use crate::registry;
use crate::text;
use vstd::prelude::*;

verus! {

/// A pair names a node and an index, separated by the first colon; white space around both is
/// dropped. A blank pair names nothing. Without a colon, without a name or without a number the
/// pair is refused.
pub proof fn law_pairs(pair: Seq<char>)
    ensures
        text::trimmed(pair).len() == 0 ==> registry::node_pair(pair) == Ok::<
            Option<(Seq<char>, u64)>,
            Seq<char>,
        >(None),
        text::trimmed(pair).len() > 0 && !pair.contains(':') ==> registry::node_pair(pair) is Err,
        text::trimmed(pair).len() > 0 ==> forall|name: Seq<char>, index: Seq<char>|
            !name.contains(':') && #[trigger] (name.push(':') + index) == pair ==> {
                let number = numbers::unsigned_read(text::trimmed(index), usize::MAX as nat);
                &&& text::trimmed(name).len() > 0 && number is Ok ==> registry::node_pair(pair)
                    == Ok::<Option<(Seq<char>, u64)>, Seq<char>>(
                    Some((text::trimmed(name), number->Ok_0 as u64)),
                )
                &&& text::trimmed(name).len() == 0 || number is Err ==> registry::node_pair(pair)
                    is Err
            },
{
    crate::laws::text::law_cut_at_first(pair, ':');
    if text::trimmed(pair).len() > 0 {
        assert forall|name: Seq<char>, index: Seq<char>|
            !name.contains(':') && #[trigger] (name.push(':') + index) == pair implies {
            let number = numbers::unsigned_read(text::trimmed(index), usize::MAX as nat);
            &&& text::trimmed(name).len() > 0 && number is Ok ==> registry::node_pair(pair) == Ok::<
                Option<(Seq<char>, u64)>,
                Seq<char>,
            >(Some((text::trimmed(name), number->Ok_0 as u64)))
            &&& text::trimmed(name).len() == 0 || number is Err ==> registry::node_pair(pair) is Err
        } by {
            lemma_same_cut(pair, name, index);
        }
    }
}

proof fn lemma_same_cut(s: Seq<char>, a: Seq<char>, b: Seq<char>)
    requires
        !a.contains(':'),
        a.push(':') + b == s,
    ensures
        text::split_at_first(s, ':') == Some((a, b)),
{
    crate::laws::text::law_cut_at_first(s, ':');
    assert(s[a.len() as int] == ':');
    assert(s.contains(':'));
    let (c, d) = text::split_at_first(s, ':')->Some_0;
    assert(c.push(':') + d == s);
    assert(s[c.len() as int] == ':');
    if c.len() < a.len() {
        assert(a[c.len() as int] == s[c.len() as int]);
        assert(a.contains(a[c.len() as int]));
    }
    if a.len() < c.len() {
        assert(c[a.len() as int] == s[a.len() as int]);
        assert(c.contains(c[a.len() as int]));
    }
    assert(a =~= s.take(a.len() as int));
    assert(c =~= s.take(c.len() as int));
    assert(b =~= s.skip(a.len() as int + 1));
    assert(d =~= s.skip(c.len() as int + 1));
}

/// The validators that a map lists under a name, in order.
pub open spec fn listed(map: Seq<(Seq<char>, Seq<u64>)>, name: Seq<char>, list: Seq<u64>) -> bool {
    exists|i: int| 0 <= i < map.len() && #[trigger] map[i] == (name, list)
}

/// One more validator goes behind those of its node; a node that was not listed gets a list of
/// its own. Every other node keeps its list.
pub proof fn law_map_grows(
    map: Seq<(Seq<char>, Seq<u64>)>,
    name: Seq<char>,
    index: u64,
    other: Seq<char>,
    list: Seq<u64>,
)
    requires
        registry::names_ascend(map),
    ensures
        ({
            let next = registry::with_index(map, name, index);
            &&& listed(map, name, list) ==> listed(next, name, list.push(index))
            &&& (forall|l: Seq<u64>| !#[trigger] listed(map, name, l)) ==> listed(
                next,
                name,
                seq![index],
            )
            &&& other != name && listed(map, other, list) ==> listed(next, other, list)
        }),
{
    let next = registry::with_index(map, name, index);
    let p = registry::name_place(map, name, 0) as int;
    registry::lemma_name_place(map, name, 0);
    if listed(map, name, list) {
        let i = choose|i: int| 0 <= i < map.len() && #[trigger] map[i] == (name, list);
        registry::lemma_name_order(name, name, name);
        if i < p {
            assert(registry::name_before(map[i].0, name));
        }
        if p < i {
            assert(registry::name_before(map[p].0, map[i].0));
        }
        assert(p == i);
        assert(next[i] == (name, list.push(index)));
    }
    if forall|l: Seq<u64>| !#[trigger] listed(map, name, l) {
        if p < map.len() && map[p].0 == name {
            assert(map[p] == (name, map[p].1));
            assert(listed(map, name, map[p].1));
        }
        assert(next[p] == (name, seq![index]));
    }
    if other != name && listed(map, other, list) {
        let i = choose|i: int| 0 <= i < map.len() && #[trigger] map[i] == (other, list);
        if p < map.len() && map[p].0 == name {
            assert(next[i] == (other, list));
        } else if i < p {
            assert(next[i] == (other, list));
        } else {
            assert(next[i + 1] == (other, list));
        }
    }
}

/// No mapped index of the same subnet is smaller.
pub open spec fn is_smallest(map: Seq<(Seq<char>, Seq<u64>)>, x: u64, subnets: u64) -> bool {
    forall|row: int, k: int|
        0 <= row < map.len() && 0 <= k < map[row].1.len() && (#[trigger] map[row].1[k]) as int
            % subnets as int == x as int % subnets as int ==> map[row].1[k] >= x
}

/// A node aggregates exactly when one of its validators is the smallest mapped index of its
/// subnet.
pub proof fn law_aggregators(map: Seq<(Seq<char>, Seq<u64>)>, node: int, subnets: u64)
    requires
        0 <= node < map.len(),
        subnets > 0,
    ensures
        registry::node_aggregates(map, node, subnets) <==> exists|at: int|
            0 <= at < map[node].1.len() && is_smallest(map, #[trigger] map[node].1[at], subnets),
{
    assert forall|x: u64| #[trigger] registry::leads_subnet(map, x, subnets) <==> is_smallest(
        map,
        x,
        subnets,
    ) by {
        if registry::leads_subnet(map, x, subnets) {
            assert forall|row: int, k: int|
                0 <= row < map.len() && 0 <= k < map[row].1.len() && (
                #[trigger] map[row].1[k]) as int % subnets as int == x as int
                    % subnets as int implies map[row].1[k] >= x by {
                assert(!registry::undercuts(map, x, subnets, row, k));
            }
        }
        if is_smallest(map, x, subnets) {
            assert forall|row: int, k: int| !#[trigger]
                registry::undercuts(map, x, subnets, row, k) by {
                if 0 <= row < map.len() && 0 <= k < map[row].1.len() {
                    assert(map[row].1[k] as int % subnets as int == x as int % subnets as int
                        ==> map[row].1[k] >= x);
                }
            }
        }
    }
    if registry::node_aggregates(map, node, subnets) {
        let at = choose|at: int|
            0 <= at < map[node].1.len() && registry::leads_subnet(
                map,
                #[trigger] map[node].1[at],
                subnets,
            );
        assert(is_smallest(map, map[node].1[at], subnets));
    }
    if exists|at: int|
        0 <= at < map[node].1.len() && is_smallest(map, #[trigger] map[node].1[at], subnets) {
        let at = choose|at: int|
            0 <= at < map[node].1.len() && is_smallest(map, #[trigger] map[node].1[at], subnets);
        assert(registry::leads_subnet(map, map[node].1[at], subnets));
    }
}

/// The list of a node is the first one under its name, and its validator the first of the list.
pub proof fn law_first_of_the_list(
    lists: Seq<(Seq<char>, Seq<u64>)>,
    node: Seq<char>,
    k: nat,
    i: int,
)
    requires
        k <= i < lists.len(),
        lists[i].0 == node,
        forall|j: int| k <= j < i ==> (#[trigger] lists[j]).0 != node,
    ensures
        lists[i].1.len() > 0 ==> identity::first_index(lists, node, k) == Some(lists[i].1[0]),
        lists[i].1.len() == 0 ==> identity::first_index(lists, node, k) is None,
    decreases i - k,
{
    if k < i {
        assert(lists[k as int].0 != node);
        law_first_of_the_list(lists, node, k + 1, i);
    }
}

/// The place of a node in the validator configuration is that of the first entry with its name.
pub proof fn law_first_entry(entries: Seq<EntryModel>, node: Seq<char>, k: nat, i: int)
    requires
        k <= i < entries.len() <= u64::MAX,
        entries[i].name == node,
        forall|j: int| k <= j < i ==> (#[trigger] entries[j]).name != node,
    ensures
        identity::entry_place(entries, node, k) == Some(i as u64),
    decreases i - k,
{
    if k < i {
        assert(entries[k as int].name != node);
        law_first_entry(entries, node, k + 1, i);
    }
}

/// A node that neither the list nor the configuration names has no validator.
pub proof fn law_unnamed_nodes(
    lists: Seq<(Seq<char>, Seq<u64>)>,
    entries: Seq<EntryModel>,
    node: Seq<char>,
)
    requires
        forall|j: int| 0 <= j < lists.len() ==> (#[trigger] lists[j]).0 != node,
        forall|j: int| 0 <= j < entries.len() ==> (#[trigger] entries[j]).name != node,
    ensures
        identity::index_of_node(Ok(Some(lists)), Ok(Some(entries)), node) == Ok::<
            Option<u64>,
            Seq<char>,
        >(None),
{
    lemma_unlisted(lists, node, 0);
    lemma_no_entry(entries, node, 0);
}

proof fn lemma_unlisted(lists: Seq<(Seq<char>, Seq<u64>)>, node: Seq<char>, k: nat)
    requires
        forall|j: int| k <= j < lists.len() ==> (#[trigger] lists[j]).0 != node,
    ensures
        identity::first_index(lists, node, k) is None,
    decreases lists.len() - k,
{
    if k < lists.len() {
        assert(lists[k as int].0 != node);
        lemma_unlisted(lists, node, k + 1);
    }
}

proof fn lemma_no_entry(entries: Seq<EntryModel>, node: Seq<char>, k: nat)
    requires
        forall|j: int| k <= j < entries.len() ==> (#[trigger] entries[j]).name != node,
    ensures
        identity::entry_place(entries, node, k) is None,
    decreases entries.len() - k,
{
    if k < entries.len() {
        assert(entries[k as int].name != node);
        lemma_no_entry(entries, node, k + 1);
    }
}

/// The validator of a node comes from the file of the command line, else from the list, else from
/// the configuration. Without a name there is none.
pub proof fn law_where_the_validator_comes_from(
    given: Option<Seq<(Seq<char>, Seq<u64>)>>,
    lists: Result<Option<Seq<(Seq<char>, Seq<u64>)>>, Seq<char>>,
    config: Result<Option<Seq<EntryModel>>, Seq<char>>,
    node: Seq<char>,
)
    ensures
        identity::startup_index(Ok(given), lists, config, None) == Ok::<Option<u64>, Seq<char>>(
            None,
        ),
        given matches Some(v) ==> (identity::first_index(v, node, 0) matches Some(i)
            ==> identity::startup_index(Ok(given), lists, config, Some(node)) == Ok::<
            Option<u64>,
            Seq<char>,
        >(Some(i))),
        given is None ==> identity::startup_index(Ok(given), lists, config, Some(node))
            == identity::index_of_node(lists, config, node),
        lists matches Ok(Some(v)) ==> (identity::first_index(v, node, 0) matches Some(i)
            ==> identity::index_of_node(lists, config, node) == Ok::<Option<u64>, Seq<char>>(
            Some(i),
        )),
        lists matches Ok(None) ==> (config matches Ok(Some(v)) ==> identity::index_of_node(
            lists,
            config,
            node,
        ) == Ok::<Option<u64>, Seq<char>>(identity::entry_place(v, node, 0))),
{
}

/// The role that a record gives a validator goes before the one beside it; a validator without an
/// entry has none.
pub proof fn law_roles(v: Seq<EntryModel>, index: u64)
    ensures
        index >= v.len() ==> identity::role_of(Some(v), index) is None,
        index < v.len() && v[index as int].enr_is_aggregator is Some ==> identity::role_of(
            Some(v),
            index,
        ) == v[index as int].enr_is_aggregator,
        index < v.len() && v[index as int].enr_is_aggregator is None ==> identity::role_of(
            Some(v),
            index,
        ) == v[index as int].is_aggregator,
        identity::role_of(None, index) is None,
{
}

/// The client is what stands before the first underscore of the node's name, or before its first
/// hyphen where it has no underscore; where nothing stands there, and without both, it is the
/// name.
pub proof fn law_clients(front: Seq<char>, rest: Seq<char>)
    requires
        !front.contains('_'),
    ensures
        front.len() > 0 ==> identity::client_of(front.push('_') + rest) == front,
        front.len() == 0 ==> identity::client_of(front.push('_') + rest) == front.push('_') + rest,
        !front.contains('-') ==> identity::client_of(front) == front,
{
    let s = front.push('_') + rest;
    crate::laws::text::law_cut_at_first(s, '_');
    crate::laws::text::law_cut_at_first(front, '_');
    crate::laws::text::law_cut_at_first(front, '-');
    assert(s[front.len() as int] == '_');
    assert(s.contains('_'));
    let (c, d) = text::split_at_first(s, '_')->Some_0;
    assert(s[c.len() as int] == '_');
    if c.len() < front.len() {
        assert(front[c.len() as int] == s[c.len() as int]);
        assert(front.contains(front[c.len() as int]));
    }
    if front.len() < c.len() {
        assert(c[front.len() as int] == s[front.len() as int]);
        assert(c.contains(c[front.len() as int]));
    }
    assert(front =~= s.take(front.len() as int));
    assert(c =~= s.take(c.len() as int));
}

/// A node without a configured name takes the name under which the first list holds its
/// validator, else that of its entry, else `peam`.
pub proof fn law_names(
    lists: Seq<(Seq<char>, Seq<u64>)>,
    entries: Seq<EntryModel>,
    index: u64,
    i: int,
)
    ensures
        0 <= i < lists.len() && lists[i].1.contains(index) && (forall|j: int|
            0 <= j < i ==> !(#[trigger] lists[j]).1.contains(index)) ==> identity::node_name_of(
            None,
            Ok(Some(lists)),
            Ok(Some(entries)),
            index,
        ) == Ok::<Seq<char>, Seq<char>>(lists[i].0),
        identity::node_name_of(None, Ok(None), Ok(Some(entries)), index) == Ok::<
            Seq<char>,
            Seq<char>,
        >(
            if index < entries.len() {
                entries[index as int].name
            } else {
                "peam"@
            },
        ),
        identity::node_name_of(None, Ok(None), Ok(None), index) == Ok::<Seq<char>, Seq<char>>(
            "peam"@,
        ),
{
    if 0 <= i < lists.len() && lists[i].1.contains(index) && (forall|j: int|
        0 <= j < i ==> !(#[trigger] lists[j]).1.contains(index)) {
        lemma_name_in_list(lists, index, 0, i);
    }
}

proof fn lemma_name_in_list(lists: Seq<(Seq<char>, Seq<u64>)>, index: u64, k: nat, i: int)
    requires
        k <= i < lists.len(),
        lists[i].1.contains(index),
        forall|j: int| k <= j < i ==> !(#[trigger] lists[j]).1.contains(index),
    ensures
        identity::node_of_index(lists, index, k) == Some(lists[i].0),
    decreases i - k,
{
    if k < i {
        assert(!lists[k as int].1.contains(index));
        lemma_name_in_list(lists, index, k + 1, i);
    }
}

} // verus!
