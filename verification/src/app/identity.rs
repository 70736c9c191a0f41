//! Which validator a node runs, and under which name it appears in the metrics.

use vstd::prelude::*;
use vstd::string::StringExecFns;

use crate::app::yaml;
use crate::networking::discovery;
use crate::text;

verus! {

/// A node's entry in the validator configuration.
#[derive(Clone, Debug)]
pub struct ValidatorConfigEntry {
    /// Name of the node.
    pub name: String,
    /// Whether the node aggregates.
    pub is_aggregator: Option<bool>,
    /// Whether the node's record says that it aggregates.
    pub enr_is_aggregator: Option<bool>,
}

/// The value of a [`ValidatorConfigEntry`].
#[verifier::ext_equal]
pub struct EntryModel {
    pub name: Seq<char>,
    pub is_aggregator: Option<bool>,
    pub enr_is_aggregator: Option<bool>,
}

impl View for ValidatorConfigEntry {
    type V = EntryModel;

    open spec fn view(&self) -> EntryModel {
        EntryModel {
            name: self.name@,
            is_aggregator: self.is_aggregator,
            enr_is_aggregator: self.enr_is_aggregator,
        }
    }
}

/// The values of entries.
pub open spec fn entry_models(v: Seq<ValidatorConfigEntry>) -> Seq<EntryModel> {
    v.map_values(|e: ValidatorConfigEntry| e@)
}

/// The values of entries, if there is a validator configuration.
pub open spec fn optional_entries(v: Option<Vec<ValidatorConfigEntry>>) -> Option<
    Seq<EntryModel>,
> {
    match v {
        Some(v) => Some(entry_models(v@)),
        None => None,
    }
}

/// The role that the validator configuration gives a validator. What the record
/// says goes first.
pub open spec fn role_of(entries: Option<Seq<EntryModel>>, index: u64) -> Option<bool> {
    match entries {
        Some(v) => if index < v.len() {
            match v[index as int].enr_is_aggregator {
                Some(b) => Some(b),
                None => v[index as int].is_aggregator,
            }
        } else {
            None
        },
        None => None,
    }
}

/// Finds the role that the validator configuration gives a validator.
pub fn configured_role(entries: &Option<Vec<ValidatorConfigEntry>>, index: u64) -> (r: Option<bool>)
    ensures
        r == role_of(optional_entries(*entries), index),
{
    match entries {
        Some(v) => if index < v.len() as u64 {
            let e = &v[index as usize];
            match e.enr_is_aggregator {
                Some(b) => Some(b),
                None => e.is_aggregator,
            }
        } else {
            None
        },
        None => None,
    }
}

/// A file: its path for messages, and its text where it exists.
#[derive(Clone, Debug)]
pub struct FileText {
    /// Path of the file.
    pub path: String,
    /// Text of the file, if there is such a file.
    pub text: Option<String>,
}

/// The message about a file that cannot be parsed.
pub open spec fn parse_fault(path: Seq<char>, reason: Seq<char>) -> Seq<char> {
    "Failed to parse "@ + path + ": "@ + reason
}

/// The message about a file that cannot be parsed.
pub fn parse_fault_string(path: &str, reason: &str) -> (r: String)
    ensures
        r@ == parse_fault(path@, reason@),
{
    let mut s: String = "Failed to parse ".to_string();
    s.append(path);
    s.append(": ");
    s.append(reason);
    s
}

/// The lists of validators by node that a file holds, if there is such a file.
pub open spec fn node_lists(file: FileText) -> Result<
    Option<Seq<(Seq<char>, Seq<u64>)>>,
    Seq<char>,
> {
    match file.text {
        None => Ok(None),
        Some(t) => match yaml::yaml_number_lists(t@) {
            Ok(v) => Ok(Some(v)),
            Err(e) => Err(parse_fault(file.path@, e)),
        },
    }
}

/// Reads the lists of validators by node.
pub fn read_node_lists(file: &FileText) -> (r: Result<Option<Vec<(String, Vec<u64>)>>, String>)
    ensures
        match r {
            Ok(Some(v)) => node_lists(*file) == Ok::<
                Option<Seq<(Seq<char>, Seq<u64>)>>,
                Seq<char>,
            >(Some(yaml::list_views(v@))),
            Ok(None) => node_lists(*file) == Ok::<
                Option<Seq<(Seq<char>, Seq<u64>)>>,
                Seq<char>,
            >(None),
            Err(e) => node_lists(*file) == Err::<
                Option<Seq<(Seq<char>, Seq<u64>)>>,
                Seq<char>,
            >(e@),
        },
{
    match &file.text {
        None => Ok(None),
        Some(t) => match yaml::read_yaml_number_lists(t.as_str()) {
            Ok(v) => Ok(Some(v)),
            Err(e) => Err(parse_fault_string(file.path.as_str(), e.as_str())),
        },
    }
}

/// The first validator that the lists from place `k` on give a node.
pub open spec fn first_index(lists: Seq<(Seq<char>, Seq<u64>)>, node: Seq<char>, k: nat) -> Option<
    u64,
>
    decreases lists.len() - k,
{
    if k >= lists.len() {
        None
    } else if lists[k as int].0 == node {
        if lists[k as int].1.len() > 0 {
            Some(lists[k as int].1[0])
        } else {
            None
        }
    } else {
        first_index(lists, node, k + 1)
    }
}

/// Finds the first validator of a node.
pub fn find_first_index(lists: &Vec<(String, Vec<u64>)>, node: &str) -> (r: Option<u64>)
    ensures
        r == first_index(yaml::list_views(lists@), node@, 0),
{
    let ghost all = yaml::list_views(lists@);
    let want = text::to_chars(node);
    let mut i: usize = 0;
    while i < lists.len()
        invariant
            i <= lists@.len(),
            all == yaml::list_views(lists@),
            want@ == node@,
            first_index(all, node@, i as nat) == first_index(all, node@, 0),
        decreases lists@.len() - i,
    {
        assert(all[i as int] == (lists@[i as int].0@, lists@[i as int].1@));
        let name = text::to_chars(lists[i].0.as_str());
        if text::same_chars(name.as_slice(), want.as_slice()) {
            return if lists[i].1.len() > 0 {
                Some(lists[i].1[0])
            } else {
                None
            };
        }
        i = i + 1;
    }
    None
}

/// The place of a node's entry at or after `k`.
pub open spec fn entry_place(entries: Seq<EntryModel>, node: Seq<char>, k: nat) -> Option<u64>
    decreases entries.len() - k,
{
    if k >= entries.len() {
        None
    } else if entries[k as int].name == node {
        Some(k as u64)
    } else {
        entry_place(entries, node, k + 1)
    }
}

/// Finds the place of a node's entry.
pub fn find_entry_place(entries: &Vec<ValidatorConfigEntry>, node: &str) -> (r: Option<u64>)
    ensures
        r == entry_place(entry_models(entries@), node@, 0),
{
    let ghost all = entry_models(entries@);
    let want = text::to_chars(node);
    let mut i: usize = 0;
    while i < entries.len()
        invariant
            i <= entries@.len(),
            all == entry_models(entries@),
            want@ == node@,
            entry_place(all, node@, i as nat) == entry_place(all, node@, 0),
        decreases entries@.len() - i,
    {
        assert(all[i as int] == entries@[i as int]@);
        let name = text::to_chars(entries[i].name.as_str());
        if text::same_chars(name.as_slice(), want.as_slice()) {
            return Some(i as u64);
        }
        i = i + 1;
    }
    None
}

/// The value of a validator configuration, or the message about its file.
pub open spec fn config_view(c: Result<Option<Vec<ValidatorConfigEntry>>, String>) -> Result<
    Option<Seq<EntryModel>>,
    Seq<char>,
> {
    match c {
        Ok(v) => Ok(optional_entries(v)),
        Err(e) => Err(e@),
    }
}

/// The validator of a node: as the list of its file gives it, else the place of the
/// node's entry in the validator configuration. A fault of the configuration counts
/// only where the list does not name the node.
pub open spec fn index_of_node(
    lists: Result<Option<Seq<(Seq<char>, Seq<u64>)>>, Seq<char>>,
    config: Result<Option<Seq<EntryModel>>, Seq<char>>,
    node: Seq<char>,
) -> Result<Option<u64>, Seq<char>> {
    match lists {
        Err(e) => Err(e),
        Ok(lists) => {
            let listed = match lists {
                Some(v) => first_index(v, node, 0),
                None => None,
            };
            match listed {
                Some(i) => Ok(Some(i)),
                None => match config {
                    Err(e) => Err(e),
                    Ok(None) => Ok(None),
                    Ok(Some(v)) => Ok(entry_place(v, node, 0)),
                },
            }
        },
    }
}

/// Finds the validator of a node: in `validators.yaml`, else in the validator
/// configuration.
pub fn resolve_local_validator_index_for_node_name(
    validators: &FileText,
    config: &Result<Option<Vec<ValidatorConfigEntry>>, String>,
    node_name: &str,
) -> (r: Result<Option<u64>, String>)
    ensures
        crate::ssz::plain_outcome(r) == index_of_node(
            node_lists(*validators),
            config_view(*config),
            node_name@,
        ),
{
    match read_node_lists(validators) {
        Err(e) => {
            return Err(e);
        },
        Ok(None) => {},
        Ok(Some(lists)) => {
            if let Some(i) = find_first_index(&lists, node_name) {
                return Ok(Some(i));
            }
        },
    }
    match config {
        Err(e) => Err(e.clone()),
        Ok(None) => Ok(None),
        Ok(Some(v)) => Ok(find_entry_place(v, node_name)),
    }
}

/// The validator to run. With a node name it is looked up in the file given on the
/// command line first.
pub open spec fn startup_index(
    given: Result<Option<Seq<(Seq<char>, Seq<u64>)>>, Seq<char>>,
    lists: Result<Option<Seq<(Seq<char>, Seq<u64>)>>, Seq<char>>,
    config: Result<Option<Seq<EntryModel>>, Seq<char>>,
    node: Option<Seq<char>>,
) -> Result<Option<u64>, Seq<char>> {
    match node {
        None => Ok(None),
        Some(node) => match given {
            Err(e) => Err(e),
            Ok(v) => {
                let listed = match v {
                    Some(v) => first_index(v, node, 0),
                    None => None,
                };
                match listed {
                    Some(i) => Ok(Some(i)),
                    None => index_of_node(lists, config, node),
                }
            },
        },
    }
}

/// Finds the validator to run.
pub fn resolve_validator_startup_overrides(
    given: &FileText,
    validators: &FileText,
    config: &Result<Option<Vec<ValidatorConfigEntry>>, String>,
    node_id: &Option<String>,
) -> (r: Result<Option<u64>, String>)
    ensures
        crate::ssz::plain_outcome(r) == startup_index(
            node_lists(*given),
            node_lists(*validators),
            config_view(*config),
            discovery::option_text(*node_id),
        ),
{
    let node = match node_id {
        None => {
            return Ok(None);
        },
        Some(node) => node,
    };
    match read_node_lists(given) {
        Err(e) => {
            return Err(e);
        },
        Ok(None) => {},
        Ok(Some(lists)) => {
            if let Some(i) = find_first_index(&lists, node.as_str()) {
                return Ok(Some(i));
            }
        },
    }
    resolve_local_validator_index_for_node_name(validators, config, node.as_str())
}

/// The first node from place `k` on whose list holds a validator.
pub open spec fn node_of_index(lists: Seq<(Seq<char>, Seq<u64>)>, index: u64, k: nat) -> Option<
    Seq<char>,
>
    decreases lists.len() - k,
{
    if k >= lists.len() {
        None
    } else if lists[k as int].1.contains(index) {
        Some(lists[k as int].0)
    } else {
        node_of_index(lists, index, k + 1)
    }
}

fn holds(list: &Vec<u64>, index: u64) -> (r: bool)
    ensures
        r == list@.contains(index),
{
    let mut i: usize = 0;
    while i < list.len()
        invariant
            i <= list@.len(),
            forall|j: int| 0 <= j < i ==> list@[j] != index,
        decreases list@.len() - i,
    {
        if list[i] == index {
            assert(list@[i as int] == index);
            return true;
        }
        i = i + 1;
    }
    false
}

/// Finds the first node whose list holds a validator.
pub fn find_node_of_index(lists: &Vec<(String, Vec<u64>)>, index: u64) -> (r: Option<String>)
    ensures
        discovery::option_text(r) == node_of_index(yaml::list_views(lists@), index, 0),
{
    let ghost all = yaml::list_views(lists@);
    let mut i: usize = 0;
    while i < lists.len()
        invariant
            i <= lists@.len(),
            all == yaml::list_views(lists@),
            node_of_index(all, index, i as nat) == node_of_index(all, index, 0),
        decreases lists@.len() - i,
    {
        assert(all[i as int] == (lists@[i as int].0@, lists@[i as int].1@));
        if holds(&lists[i].1, index) {
            return Some(lists[i].0.clone());
        }
        i = i + 1;
    }
    None
}

/// A configured name without white space at its ends; an empty one counts as none.
pub open spec fn explicit_name(s: Option<Seq<char>>) -> Option<Seq<char>> {
    match s {
        None => None,
        Some(t) => if text::trimmed(t).len() == 0 {
            None
        } else {
            Some(text::trimmed(t))
        },
    }
}

fn read_explicit_name(s: &Option<String>) -> (r: Option<String>)
    ensures
        discovery::option_text(r) == explicit_name(discovery::option_text(*s)),
{
    match s {
        None => None,
        Some(t) => {
            let chars = text::to_chars(t.as_str());
            let name = text::trim(chars.as_slice());
            if name.len() == 0 {
                None
            } else {
                Some(text::from_chars(name))
            }
        },
    }
}

/// The client that a node's name tells: what stands before the first underscore,
/// or before the first hyphen where there is no underscore. A name that tells none
/// stands for itself.
pub open spec fn client_of(node: Seq<char>) -> Seq<char> {
    let prefix = match text::split_at_first(node, '_') {
        Some((p, _)) => Some(p),
        None => match text::split_at_first(node, '-') {
            Some((p, _)) => Some(p),
            None => None,
        },
    };
    match prefix {
        Some(p) => if p.len() == 0 {
            node
        } else {
            p
        },
        None => node,
    }
}

/// Derives the client from a node's name.
pub fn derive_client_name(node_name: &str) -> (r: String)
    ensures
        r@ == client_of(node_name@),
{
    let chars = text::to_chars(node_name);
    let prefix = match text::split_once(chars.as_slice(), '_') {
        Some((p, _)) => Some(p),
        None => match text::split_once(chars.as_slice(), '-') {
            Some((p, _)) => Some(p),
            None => None,
        },
    };
    match prefix {
        Some(p) => if p.len() == 0 {
            node_name.to_string()
        } else {
            text::from_chars(p)
        },
        None => node_name.to_string(),
    }
}

/// The name of the node: the configured one, else the node whose list holds the
/// local validator, else the name of its entry in the validator configuration, else
/// `peam`.
pub open spec fn node_name_of(
    configured: Option<Seq<char>>,
    lists: Result<Option<Seq<(Seq<char>, Seq<u64>)>>, Seq<char>>,
    config: Result<Option<Seq<EntryModel>>, Seq<char>>,
    index: u64,
) -> Result<Seq<char>, Seq<char>> {
    match explicit_name(configured) {
        Some(n) => Ok(n),
        None => match lists {
            Err(e) => Err(e),
            Ok(v) => {
                let listed = match v {
                    Some(v) => node_of_index(v, index, 0),
                    None => None,
                };
                match listed {
                    Some(n) => Ok(n),
                    None => match config {
                        Err(e) => Err(e),
                        Ok(Some(v)) => if index < v.len() {
                            Ok(v[index as int].name)
                        } else {
                            Ok("peam"@)
                        },
                        Ok(None) => Ok("peam"@),
                    },
                }
            },
        },
    }
}

/// The names of node and client in the metrics.
pub open spec fn metrics_identity(
    node: Option<Seq<char>>,
    client: Option<Seq<char>>,
    lists: Result<Option<Seq<(Seq<char>, Seq<u64>)>>, Seq<char>>,
    config: Result<Option<Seq<EntryModel>>, Seq<char>>,
    index: u64,
) -> Result<(Seq<char>, Seq<char>), Seq<char>> {
    match node_name_of(node, lists, config, index) {
        Err(e) => Err(e),
        Ok(n) => match explicit_name(client) {
            Some(c) => Ok((n, c)),
            None => Ok((n, client_of(n))),
        },
    }
}

fn find_node_name(
    configured: &Option<String>,
    validators: &FileText,
    config: &Result<Option<Vec<ValidatorConfigEntry>>, String>,
    index: u64,
) -> (r: Result<String, String>)
    ensures
        crate::ssz::view_outcome(r) == node_name_of(
            discovery::option_text(*configured),
            node_lists(*validators),
            config_view(*config),
            index,
        ),
{
    if let Some(n) = read_explicit_name(configured) {
        return Ok(n);
    }
    match read_node_lists(validators) {
        Err(e) => {
            return Err(e);
        },
        Ok(None) => {},
        Ok(Some(lists)) => {
            if let Some(n) = find_node_of_index(&lists, index) {
                return Ok(n);
            }
        },
    }
    match config {
        Err(e) => Err(e.clone()),
        Ok(None) => Ok("peam".to_string()),
        Ok(Some(v)) => if index < v.len() as u64 {
            Ok(v[index as usize].name.clone())
        } else {
            Ok("peam".to_string())
        },
    }
}

/// Resolves the names of node and client in the metrics: explicit names go first,
/// then `validators.yaml`, then the validator configuration.
pub fn resolve_metrics_identity(
    settings: &crate::app::settings::NodeSettings,
    validators: &FileText,
    config: &Result<Option<Vec<ValidatorConfigEntry>>, String>,
) -> (r: Result<(String, String), String>)
    ensures
        match r {
            Ok(names) => metrics_identity(
                settings@.metrics_node_name,
                settings@.metrics_client_name,
                node_lists(*validators),
                config_view(*config),
                settings.local_validator_index,
            ) == Ok::<(Seq<char>, Seq<char>), Seq<char>>((names.0@, names.1@)),
            Err(e) => metrics_identity(
                settings@.metrics_node_name,
                settings@.metrics_client_name,
                node_lists(*validators),
                config_view(*config),
                settings.local_validator_index,
            ) == Err::<(Seq<char>, Seq<char>), Seq<char>>(e@),
        },
{
    let node = match find_node_name(
        &settings.metrics_node_name,
        validators,
        config,
        settings.local_validator_index,
    ) {
        Ok(n) => n,
        Err(e) => {
            return Err(e);
        },
    };
    let client = match read_explicit_name(&settings.metrics_client_name) {
        Some(c) => c,
        None => derive_client_name(node.as_str()),
    };
    Ok((node, client))
}

/// A configured node name is taken whatever the files hold.
pub proof fn law_configured_name_wins(
    node: Seq<char>,
    client: Option<Seq<char>>,
    lists: Result<Option<Seq<(Seq<char>, Seq<u64>)>>, Seq<char>>,
    config: Result<Option<Seq<EntryModel>>, Seq<char>>,
    index: u64,
)
    requires
        text::trimmed(node).len() > 0,
    ensures
        metrics_identity(Some(node), client, lists, config, index) matches Ok(names) && names.0
            == text::trimmed(node),
{
}

/// Where a list gives a node a validator, the list is followed whatever the
/// validator configuration says.
pub proof fn law_list_goes_before_configuration(
    lists: Seq<(Seq<char>, Seq<u64>)>,
    config: Result<Option<Seq<EntryModel>>, Seq<char>>,
    node: Seq<char>,
)
    requires
        first_index(lists, node, 0) is Some,
    ensures
        index_of_node(Ok(Some(lists)), config, node) == Ok::<Option<u64>, Seq<char>>(
            first_index(lists, node, 0),
        ),
{
}

} // verus!
