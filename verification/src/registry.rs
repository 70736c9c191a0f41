//! The files of a development network: which node runs which validator, and with
//! which keys.

use vstd::prelude::*;
use vstd::string::StringExecFns;

use crate::app::yaml;
use crate::numbers;
use crate::text;

verus! {

/// Validators where the command line names no number.
pub const DEFAULT_VALIDATORS: usize = 3;

/// Attestation subnets where the command line names no number.
pub const DEFAULT_ATTESTATION_SUBNETS: u64 = 1;

/// The order of names: by their first difference, a name before its continuations.
pub open spec fn name_before(a: Seq<char>, b: Seq<char>) -> bool
    decreases a.len(),
{
    if b.len() == 0 {
        false
    } else if a.len() == 0 {
        true
    } else if a[0] != b[0] {
        a[0] < b[0]
    } else {
        name_before(a.skip(1), b.skip(1))
    }
}

/// Whether a name stands before another.
pub fn comes_before(a: &[char], b: &[char]) -> (r: bool)
    ensures
        r == name_before(a@, b@),
{
    let mut i: usize = 0;
    assert(a@.skip(0) =~= a@);
    assert(b@.skip(0) =~= b@);
    loop
        invariant
            i <= a@.len(),
            i <= b@.len(),
            name_before(a@.skip(i as int), b@.skip(i as int)) == name_before(a@, b@),
        decreases a@.len() - i,
    {
        if i == b.len() {
            return false;
        }
        if i == a.len() {
            return true;
        }
        assert(a@.skip(i as int)[0] == a@[i as int]);
        assert(b@.skip(i as int)[0] == b@[i as int]);
        if a[i] != b[i] {
            return a[i] < b[i];
        }
        assert(a@.skip(i as int).skip(1) =~= a@.skip(i + 1));
        assert(b@.skip(i as int).skip(1) =~= b@.skip(i + 1));
        i = i + 1;
    }
}

/// The order of names is a strict order of all names.
pub proof fn lemma_name_order(a: Seq<char>, b: Seq<char>, c: Seq<char>)
    ensures
        !name_before(a, a),
        name_before(a, b) && name_before(b, c) ==> name_before(a, c),
        a == b || name_before(a, b) || name_before(b, a),
    decreases a.len() + b.len() + c.len(),
{
    if a.len() > 0 {
        let ta = a.skip(1);
        let tb = if b.len() > 0 {
            b.skip(1)
        } else {
            b
        };
        let tc = if c.len() > 0 {
            c.skip(1)
        } else {
            c
        };
        lemma_name_order(ta, tb, tc);
        if b.len() > 0 && a[0] == b[0] && ta == tb {
            assert(a =~= seq![a[0]] + ta);
            assert(b =~= seq![b[0]] + tb);
            assert(a == b);
        }
    } else if b.len() == 0 {
        assert(a =~= b);
    }
}

/// The names stand in their order, each once.
pub open spec fn names_ascend(map: Seq<(Seq<char>, Seq<u64>)>) -> bool {
    forall|i: int, j: int|
        0 <= i < j < map.len() ==> name_before((#[trigger] map[i]).0, (#[trigger] map[j]).0)
}

/// The first place at or after `from` whose name does not stand before `name`.
pub open spec fn name_place(map: Seq<(Seq<char>, Seq<u64>)>, name: Seq<char>, from: nat) -> nat
    decreases map.len() - from,
{
    if from >= map.len() {
        map.len()
    } else if name_before(map[from as int].0, name) {
        name_place(map, name, from + 1)
    } else {
        from
    }
}

/// The map with one more index under a name.
pub open spec fn with_index(map: Seq<(Seq<char>, Seq<u64>)>, name: Seq<char>, index: u64) -> Seq<
    (Seq<char>, Seq<u64>),
> {
    let p = name_place(map, name, 0);
    if p < map.len() && map[p as int].0 == name {
        map.update(p as int, (name, map[p as int].1.push(index)))
    } else {
        map.insert(p as int, (name, seq![index]))
    }
}

/// Every name up to a place stands before the name, the one at the place does not.
pub proof fn lemma_name_place(map: Seq<(Seq<char>, Seq<u64>)>, name: Seq<char>, from: nat)
    requires
        from <= map.len(),
    ensures
        from <= name_place(map, name, from) <= map.len(),
        forall|i: int|
            from <= i < name_place(map, name, from) ==> name_before((#[trigger] map[i]).0, name),
        name_place(map, name, from) < map.len() ==> !name_before(
            map[name_place(map, name, from) as int].0,
            name,
        ),
    decreases map.len() - from,
{
    if from < map.len() && name_before(map[from as int].0, name) {
        lemma_name_place(map, name, from + 1);
    }
}

/// One more index leaves the names in their order.
proof fn lemma_with_index_ascends(map: Seq<(Seq<char>, Seq<u64>)>, name: Seq<char>, index: u64)
    requires
        names_ascend(map),
    ensures
        names_ascend(with_index(map, name, index)),
{
    let p = name_place(map, name, 0) as int;
    let after = with_index(map, name, index);
    lemma_name_place(map, name, 0);
    if !(p < map.len() && map[p].0 == name) {
        assert forall|i: int, j: int| 0 <= i < j < after.len() implies name_before(
            (#[trigger] after[i]).0,
            (#[trigger] after[j]).0,
        ) by {
            let x = if i < p {
                i
            } else {
                i - 1
            };
            let y = if j < p {
                j
            } else {
                j - 1
            };
            if i == p {
                assert(after[j] == map[y]);
                lemma_name_order(map[p].0, name, name);
                lemma_name_order(name, map[p].0, map[y].0);
            } else if j == p {
                assert(after[i] == map[x]);
            } else {
                assert(after[i] == map[x] && after[j] == map[y]);
            }
        }
    }
}

fn put_index(map: &mut Vec<(String, Vec<u64>)>, name: &[char], index: u64)
    ensures
        yaml::list_views(final(map)@) == with_index(yaml::list_views(old(map)@), name@, index),
{
    let ghost all = yaml::list_views(map@);
    let ghost before = map@;
    let mut p: usize = 0;
    while p < map.len() && comes_before(text::to_chars(map[p].0.as_str()).as_slice(), name)
        invariant
            p <= map@.len(),
            map@ == before,
            all == yaml::list_views(before),
            name_place(all, name@, p as nat) == name_place(all, name@, 0),
        decreases map@.len() - p,
    {
        assert(all[p as int].0 == map@[p as int].0@);
        p = p + 1;
    }
    if p < map.len() {
        assert(all[p as int] == (map@[p as int].0@, map@[p as int].1@));
    }
    if p < map.len() && text::spells(name, map[p].0.as_str()) {
        let mut list: Vec<u64> = vstd::slice::slice_to_vec(map[p].1.as_slice());
        list.push(index);
        let key = map[p].0.clone();
        map.set(p, (key, list));
        assert(yaml::list_views(map@) =~= with_index(all, name@, index));
    } else {
        let mut list: Vec<u64> = Vec::new();
        list.push(index);
        assert(list@ =~= seq![index]);
        map.insert(p, (text::from_chars(name), list));
        assert(yaml::list_views(map@) =~= with_index(all, name@, index));
    }
}

/// What one pair of a node map gives: nothing where it is blank.
pub open spec fn node_pair(pair: Seq<char>) -> Result<Option<(Seq<char>, u64)>, Seq<char>> {
    if text::trimmed(pair).len() == 0 {
        Ok(None)
    } else {
        match text::split_at_first(pair, ':') {
            None => Err("invalid node-map entry: "@ + pair),
            Some((name, index)) => if text::trimmed(name).len() == 0 {
                Err("invalid node name in node-map entry: "@ + pair)
            } else {
                match numbers::unsigned_read(text::trimmed(index), usize::MAX as nat) {
                    Ok(n) => Ok(Some((text::trimmed(name), n as u64))),
                    Err(f) => Err(
                        "invalid index in node-map entry "@ + pair + ": "@ + f.text(),
                    ),
                }
            },
        }
    }
}

fn about_pair(what: &str, pair: &[char]) -> (r: String)
    ensures
        r@ == what@ + pair@,
{
    let mut s: String = what.to_string();
    s.append(text::from_chars(pair).as_str());
    s
}

fn read_node_pair<'a>(pair: &'a [char]) -> (r: Result<Option<(&'a [char], u64)>, String>)
    ensures
        match r {
            Ok(None) => node_pair(pair@) == Ok::<Option<(Seq<char>, u64)>, Seq<char>>(None),
            Ok(Some(e)) => node_pair(pair@) == Ok::<Option<(Seq<char>, u64)>, Seq<char>>(
                Some((e.0@, e.1)),
            ),
            Err(e) => node_pair(pair@) == Err::<Option<(Seq<char>, u64)>, Seq<char>>(e@),
        },
{
    if text::trim(pair).len() == 0 {
        return Ok(None);
    }
    match text::split_once(pair, ':') {
        None => Err(about_pair("invalid node-map entry: ", pair)),
        Some((name, index)) => {
            let name = text::trim(name);
            if name.len() == 0 {
                return Err(about_pair("invalid node name in node-map entry: ", pair));
            }
            match numbers::read_unsigned(text::trim(index), usize::MAX as u64) {
                Ok(n) => Ok(Some((name, n))),
                Err(f) => {
                    let mut s: String = about_pair("invalid index in node-map entry ", pair);
                    s.append(": ");
                    s.append(f.message().as_str());
                    Err(s)
                },
            }
        },
    }
}

/// The node map of the first `k` pairs, or the first fault.
pub open spec fn node_map_of(pairs: Seq<Seq<char>>, k: nat) -> Result<
    Seq<(Seq<char>, Seq<u64>)>,
    Seq<char>,
>
    decreases k,
{
    if k == 0 {
        Ok(Seq::empty())
    } else {
        match node_map_of(pairs, (k - 1) as nat) {
            Err(e) => Err(e),
            Ok(before) => match node_pair(pairs[k - 1]) {
                Err(e) => Err(e),
                Ok(None) => Ok(before),
                Ok(Some((name, index))) => Ok(with_index(before, name, index)),
            },
        }
    }
}

/// A node map lists its names in their order, each once.
pub proof fn law_node_names_ascend(pairs: Seq<Seq<char>>, k: nat)
    ensures
        node_map_of(pairs, k) matches Ok(map) ==> names_ascend(map),
    decreases k,
{
    if k > 0 {
        law_node_names_ascend(pairs, (k - 1) as nat);
        if node_map_of(pairs, (k - 1) as nat) is Ok {
            if let Ok(Some((name, index))) = node_pair(pairs[k - 1]) {
                lemma_with_index_ascends(
                    node_map_of(pairs, (k - 1) as nat)->Ok_0,
                    name,
                    index,
                );
            }
        }
    }
}

proof fn lemma_map_fault_stays(pairs: Seq<Seq<char>>, j: nat, k: nat)
    requires
        j <= k,
        node_map_of(pairs, j) is Err,
    ensures
        node_map_of(pairs, k) == node_map_of(pairs, j),
    decreases k,
{
    if j < k {
        lemma_map_fault_stays(pairs, j, (k - 1) as nat);
    }
}

/// Reads a node map of the form `name:index,name:index`: the validators of each node,
/// in the order of the names.
pub fn parse_node_map(raw: &str) -> (r: Result<Vec<(String, Vec<u64>)>, String>)
    ensures
        yaml::lists_view(r) == node_map_of(text::pieces(raw@, ','), text::pieces(raw@, ',').len()),
{
    let chars = text::to_chars(raw);
    let pairs = text::split_all(chars.as_slice(), ',');
    let ghost all = text::contents(pairs@);
    let mut map: Vec<(String, Vec<u64>)> = Vec::new();
    assert(yaml::list_views(map@) =~= Seq::empty());
    let mut i: usize = 0;
    while i < pairs.len()
        invariant
            i <= pairs@.len(),
            all == text::contents(pairs@),
            all == text::pieces(raw@, ','),
            node_map_of(all, i as nat) == Ok::<Seq<(Seq<char>, Seq<u64>)>, Seq<char>>(
                yaml::list_views(map@),
            ),
        decreases pairs@.len() - i,
    {
        assert(all[i as int] == pairs@[i as int]@);
        match read_node_pair(pairs[i].as_slice()) {
            Err(e) => {
                proof {
                    lemma_map_fault_stays(all, (i + 1) as nat, pairs@.len());
                }
                return Err(e);
            },
            Ok(None) => {},
            Ok(Some((name, index))) => {
                put_index(&mut map, name, index);
            },
        }
        i = i + 1;
    }
    Ok(map)
}

/// An index of the map is outside the registry.
pub open spec fn out_of_range(map: Seq<(Seq<char>, Seq<u64>)>, count: u64, row: int, at: int) -> bool {
    0 <= row < map.len() && 0 <= at < map[row].1.len() && map[row].1[at] >= count
}

/// All indexes of the map are in the registry.
pub open spec fn map_in_range(map: Seq<(Seq<char>, Seq<u64>)>, count: u64) -> bool {
    forall|row: int, at: int| !#[trigger] out_of_range(map, count, row, at)
}

/// The first index at or after `from` that is outside the registry.
pub open spec fn first_outside(list: Seq<u64>, count: u64, from: nat) -> Option<u64>
    decreases list.len() - from,
{
    if from >= list.len() {
        None
    } else if list[from as int] >= count {
        Some(list[from as int])
    } else {
        first_outside(list, count, from + 1)
    }
}

/// The first index in the rows from `row` on that is outside the registry.
pub open spec fn first_outside_map(map: Seq<(Seq<char>, Seq<u64>)>, count: u64, row: nat) -> Option<
    u64,
>
    decreases map.len() - row,
{
    if row >= map.len() {
        None
    } else {
        match first_outside(map[row as int].1, count, 0) {
            Some(i) => Some(i),
            None => first_outside_map(map, count, row + 1),
        }
    }
}

fn find_outside(list: &Vec<u64>, count: u64) -> (r: Option<u64>)
    ensures
        r == first_outside(list@, count, 0),
{
    let mut i: usize = 0;
    while i < list.len()
        invariant
            i <= list@.len(),
            first_outside(list@, count, i as nat) == first_outside(list@, count, 0),
        decreases list@.len() - i,
    {
        if list[i] >= count {
            return Some(list[i]);
        }
        i = i + 1;
    }
    None
}

/// Checks that all indexes of a node map are in the registry.
pub fn check_node_map(map: &Vec<(String, Vec<u64>)>, validator_count: u64) -> (r: Result<(), String>)
    ensures
        crate::ssz::plain_outcome(r) == (match first_outside_map(
            yaml::list_views(map@),
            validator_count,
            0,
        ) {
            None => Ok::<(), Seq<char>>(()),
            Some(i) => Err(
                "node-map index "@ + text::decimal(i as nat) + " out of range for --validators "@
                    + text::decimal(validator_count as nat),
            ),
        }),
{
    let ghost all = yaml::list_views(map@);
    let mut row: usize = 0;
    while row < map.len()
        invariant
            row <= map@.len(),
            all == yaml::list_views(map@),
            first_outside_map(all, validator_count, row as nat) == first_outside_map(
                all,
                validator_count,
                0,
            ),
        decreases map@.len() - row,
    {
        assert(all[row as int].1 == map@[row as int].1@);
        if let Some(i) = find_outside(&map[row].1, validator_count) {
            let mut s: String = "node-map index ".to_string();
            s.append(text::decimal_string(i).as_str());
            s.append(" out of range for --validators ");
            s.append(text::decimal_string(validator_count).as_str());
            return Err(s);
        }
        row = row + 1;
    }
    Ok(())
}

/// An index of the map is in the subnet of `index` and smaller.
pub open spec fn undercuts(
    map: Seq<(Seq<char>, Seq<u64>)>,
    index: u64,
    subnets: u64,
    row: int,
    at: int,
) -> bool {
    0 <= row < map.len() && 0 <= at < map[row].1.len() && map[row].1[at] % subnets == index
        % subnets && map[row].1[at] < index
}

/// No index of the map is in the subnet of `index` and smaller.
pub open spec fn leads_subnet(map: Seq<(Seq<char>, Seq<u64>)>, index: u64, subnets: u64) -> bool {
    forall|row: int, at: int| !#[trigger] undercuts(map, index, subnets, row, at)
}

/// A node aggregates when one of its validators is the first of its subnet.
pub open spec fn node_aggregates(map: Seq<(Seq<char>, Seq<u64>)>, node: int, subnets: u64) -> bool {
    exists|at: int|
        0 <= at < map[node].1.len() && leads_subnet(map, #[trigger] map[node].1[at], subnets)
}

fn is_subnet_leader(map: &Vec<(String, Vec<u64>)>, index: u64, subnets: u64) -> (r: bool)
    requires
        subnets > 0,
    ensures
        r == leads_subnet(yaml::list_views(map@), index, subnets),
{
    let ghost all = yaml::list_views(map@);
    let mut row: usize = 0;
    while row < map.len()
        invariant
            row <= map@.len(),
            subnets > 0,
            all == yaml::list_views(map@),
            forall|r: int, a: int| r < row ==> !#[trigger] undercuts(all, index, subnets, r, a),
        decreases map@.len() - row,
    {
        let list = &map[row].1;
        assert(all[row as int].1 == list@);
        let mut at: usize = 0;
        while at < list.len()
            invariant
                row < map@.len(),
                at <= list@.len(),
                subnets > 0,
                all == yaml::list_views(map@),
                all[row as int].1 == list@,
                forall|r: int, a: int| r < row ==> !#[trigger] undercuts(all, index, subnets, r, a),
                forall|a: int|
                    a < at ==> !#[trigger] undercuts(all, index, subnets, row as int, a),
            decreases list@.len() - at,
        {
            if list[at] % subnets == index % subnets && list[at] < index {
                assert(undercuts(all, index, subnets, row as int, at as int));
                return false;
            }
            at = at + 1;
        }
        row = row + 1;
    }
    true
}

/// Whether a node of the map aggregates.
pub fn is_aggregator_node(map: &Vec<(String, Vec<u64>)>, node: usize, subnets: u64) -> (r: bool)
    requires
        node < map@.len(),
        subnets > 0,
    ensures
        r == node_aggregates(yaml::list_views(map@), node as int, subnets),
{
    let ghost all = yaml::list_views(map@);
    let list = &map[node].1;
    assert(all[node as int].1 == list@);
    let mut at: usize = 0;
    while at < list.len()
        invariant
            node < map@.len(),
            subnets > 0,
            at <= list@.len(),
            all == yaml::list_views(map@),
            all[node as int].1 == list@,
            forall|a: int|
                0 <= a < at ==> !leads_subnet(all, #[trigger] all[node as int].1[a], subnets),
        decreases list@.len() - at,
    {
        if is_subnet_leader(map, list[at], subnets) {
            assert(leads_subnet(all, all[node as int].1[at as int], subnets));
            return true;
        }
        at = at + 1;
    }
    false
}

/// The place of a number in an ascending list: behind the numbers that are not larger.
pub open spec fn number_place(v: Seq<u64>, n: u64, from: nat) -> nat
    decreases v.len() - from,
{
    if from >= v.len() {
        v.len()
    } else if v[from as int] <= n {
        number_place(v, n, from + 1)
    } else {
        from
    }
}

/// The first `k` numbers in ascending order.
pub open spec fn ascending(v: Seq<u64>, k: nat) -> Seq<u64>
    decreases k,
{
    if k == 0 {
        Seq::empty()
    } else {
        let before = ascending(v, (k - 1) as nat);
        before.insert(number_place(before, v[k - 1], 0) as int, v[k - 1])
    }
}

/// Sorts numbers.
pub fn sorted_indexes(v: &Vec<u64>) -> (r: Vec<u64>)
    ensures
        r@ == ascending(v@, v@.len()),
{
    let mut out: Vec<u64> = Vec::new();
    assert(out@ =~= Seq::empty());
    let mut i: usize = 0;
    while i < v.len()
        invariant
            i <= v@.len(),
            out@ == ascending(v@, i as nat),
        decreases v@.len() - i,
    {
        let n: u64 = v[i];
        let ghost before = out@;
        let mut p: usize = 0;
        while p < out.len() && out[p] <= n
            invariant
                p <= out@.len(),
                out@ == before,
                number_place(before, n, p as nat) == number_place(before, n, 0),
            decreases out@.len() - p,
        {
            p = p + 1;
        }
        out.insert(p, n);
        i = i + 1;
    }
    out
}

proof fn lemma_number_place(v: Seq<u64>, n: u64, from: nat)
    requires
        from <= v.len(),
    ensures
        from <= number_place(v, n, from) <= v.len(),
        number_place(v, n, from) < v.len() ==> v[number_place(v, n, from) as int] > n,
        forall|j: int| from <= j < number_place(v, n, from) ==> #[trigger] v[j] <= n,
    decreases v.len() - from,
{
    if from < v.len() && v[from as int] <= n {
        lemma_number_place(v, n, from + 1);
    }
}

/// Sorting gives an ascending list of the same numbers.
pub proof fn law_sorting_keeps_numbers(v: Seq<u64>, k: nat)
    requires
        k <= v.len(),
    ensures
        ascending(v, k).to_multiset() == v.take(k as int).to_multiset(),
        forall|i: int, j: int|
            0 <= i < j < ascending(v, k).len() ==> #[trigger] ascending(v, k)[i]
                <= #[trigger] ascending(v, k)[j],
    decreases k,
{
    broadcast use vstd::seq_lib::group_to_multiset_ensures;

    if k > 0 {
        let before = ascending(v, (k - 1) as nat);
        let n = v[k - 1];
        let p = number_place(before, n, 0) as int;
        law_sorting_keeps_numbers(v, (k - 1) as nat);
        lemma_number_place(before, n, 0);
        let now = before.insert(p, n);
        assert(v.take(k as int) =~= v.take(k - 1).push(n));
        assert(now.to_multiset() =~= before.to_multiset().insert(n));
        assert forall|i: int, j: int| 0 <= i < j < now.len() implies #[trigger] now[i]
            <= #[trigger] now[j] by {
            let bi = if i < p {
                i
            } else {
                i - 1
            };
            let bj = if j < p {
                j
            } else {
                j - 1
            };
            if i != p {
                assert(now[i] == before[bi]);
            }
            if j != p {
                assert(now[j] == before[bj]);
            }
            if i == p && bj > p {
                assert(before[p] <= before[bj]);
            }
        }
    } else {
        assert(v.take(0) =~= Seq::empty());
    }
}

proof fn lemma_first_outside(list: Seq<u64>, count: u64, from: nat)
    requires
        from <= list.len(),
    ensures
        first_outside(list, count, from) is None <==> forall|at: int|
            from <= at < list.len() ==> #[trigger] list[at] < count,
    decreases list.len() - from,
{
    if from < list.len() && list[from as int] < count {
        lemma_first_outside(list, count, from + 1);
    }
}

proof fn lemma_first_outside_map(map: Seq<(Seq<char>, Seq<u64>)>, count: u64, row: nat)
    requires
        row <= map.len(),
    ensures
        first_outside_map(map, count, row) is None <==> forall|r: int, at: int|
            r >= row ==> !#[trigger] out_of_range(map, count, r, at),
    decreases map.len() - row,
{
    if row < map.len() {
        let list = map[row as int].1;
        lemma_first_outside(list, count, 0);
        lemma_first_outside_map(map, count, row + 1);
        if first_outside(list, count, 0) is Some {
            let at = choose|at: int| 0 <= at < list.len() && #[trigger] list[at] >= count;
            assert(out_of_range(map, count, row as int, at));
        }
    }
}

/// A node map passes the check exactly when all its indexes are in the registry.
pub proof fn law_check_finds_every_fault(map: Seq<(Seq<char>, Seq<u64>)>, count: u64)
    ensures
        first_outside_map(map, count, 0) is None <==> map_in_range(map, count),
{
    lemma_first_outside_map(map, count, 0);
    if first_outside_map(map, count, 0) is None {
        assert forall|row: int, at: int| !#[trigger] out_of_range(map, count, row, at) by {}
    }
}

/// Every subnet with a mapped validator has a mapped validator that leads it, so its
/// node aggregates.
pub proof fn law_mapped_subnets_have_an_aggregator(
    map: Seq<(Seq<char>, Seq<u64>)>,
    subnets: u64,
    row: int,
    at: int,
)
    requires
        0 <= row < map.len(),
        0 <= at < map[row].1.len(),
        subnets > 0,
    ensures
        exists|r: int, a: int|
            0 <= r < map.len() && 0 <= a < map[r].1.len() && (#[trigger] map[r].1[a]) % subnets
                == map[row].1[at] % subnets && leads_subnet(map, map[r].1[a], subnets)
                && node_aggregates(map, r, subnets),
    decreases map[row].1[at],
{
    let index = map[row].1[at];
    if leads_subnet(map, index, subnets) {
        assert(node_aggregates(map, row, subnets));
    } else {
        let (r, a) = choose|r: int, a: int| #[trigger] undercuts(map, index, subnets, r, a);
        law_mapped_subnets_have_an_aggregator(map, subnets, r, a);
    }
}

} // verus!
