use vstd::prelude::*;
use crate::text::{decimal, decimal_string, is_blank, is_blank_text, trim_text, trimmed};

verus! {

broadcast use vstd::string::group_string_axioms;

/// gRPC port used when none is configured.
pub const DEFAULT_GRPC_PORT: u16 = 50051;

/// REST API port used when none is configured.
pub const DEFAULT_API_PORT: u16 = 50052;

/// Default number of simultaneous transfers per task and served chunks.
pub const DEFAULT_MAX_CONNECTIONS: u32 = 8;

/// A peer listed in the configuration file.
#[derive(Debug)]
pub struct PeerConfig {
    pub address: String,
    pub token: String,
}

/// The node's configuration; every setting may be absent.
#[derive(Debug)]
pub struct Config {
    pub grpc_port: Option<u16>,
    pub api_port: Option<u16>,
    pub record_dir: Option<String>,
    pub default_save_dir: Option<String>,
    pub my_token: Option<String>,
    pub share_node: Option<bool>,
    pub shareable: Option<bool>,
    pub nat_traversal: Option<bool>,
    pub public_address: Option<String>,
    pub max_connections: Option<u32>,
    pub max_tasks: Option<u32>,
    pub global_speed_limit_kb: Option<u32>,
    pub peer_speed_limit_kb: Option<u32>,
    pub use_proxy: Option<bool>,
    pub log_level: Option<String>,
    pub peers: Option<Vec<PeerConfig>>,
}

impl Default for Config {
    fn default() -> (c: Self)
        ensures
            c.grpc_port is None && c.api_port is None && c.record_dir is None && c.default_save_dir is None
                && c.my_token is None && c.share_node is None && c.shareable is None && c.nat_traversal is None
                && c.public_address is None && c.max_connections is None && c.max_tasks is None
                && c.global_speed_limit_kb is None && c.peer_speed_limit_kb is None && c.use_proxy is None
                && c.log_level is None && c.peers is None,
    {
        Config {
            grpc_port: None,
            api_port: None,
            record_dir: None,
            default_save_dir: None,
            my_token: None,
            share_node: None,
            shareable: None,
            nat_traversal: None,
            public_address: None,
            max_connections: None,
            max_tasks: None,
            global_speed_limit_kb: None,
            peer_speed_limit_kb: None,
            use_proxy: None,
            log_level: None,
            peers: None,
        }
    }
}

/// The plain contents of a list of configured peers.
pub open spec fn peer_config_texts(v: Seq<PeerConfig>) -> Seq<(Seq<char>, Seq<char>)> {
    v.map_values(|p: PeerConfig| (p.address@, p.token@))
}

/// The plain contents of an optional list of configured peers (empty when
/// there is none).
pub open spec fn optional_peer_texts(p: Option<Vec<PeerConfig>>) -> Seq<(Seq<char>, Seq<char>)> {
    match p {
        Some(v) => peer_config_texts(v@),
        None => Seq::empty(),
    }
}

/// `i` is the first configured peer at `address`.
pub open spec fn first_at_address(v: Seq<(Seq<char>, Seq<char>)>, address: Seq<char>, i: int) -> bool {
    &&& 0 <= i < v.len()
    &&& v[i].0 == address
    &&& forall|j: int| 0 <= j < i ==> (#[trigger] v[j]).0 != address
}

/// Records a peer in the configuration: the first entry at the same address
/// takes the new token; without one, the peer is appended (creating the
/// list when there is none).
pub fn remember_peer(peers: &mut Option<Vec<PeerConfig>>, address: &String, token: &String)
    ensures
        (*final(peers)) is Some,
        forall|i: int| #[trigger] first_at_address(optional_peer_texts(*old(peers)), address@, i)
            ==> peer_config_texts((*final(peers))->0@) == optional_peer_texts(*old(peers)).update(i, (address@, token@)),
        (forall|i: int| 0 <= i < optional_peer_texts(*old(peers)).len() ==> (#[trigger] optional_peer_texts(*old(peers))[i]).0 != address@)
            ==> peer_config_texts((*final(peers))->0@) == optional_peer_texts(*old(peers)).push((address@, token@)),
{
    let mut list = match peers.take() {
        Some(v) => v,
        None => Vec::new(),
    };
    let ghost before = peer_config_texts(list@);
    assert(before =~= optional_peer_texts(*old(peers)));
    let mut i: usize = 0;
    while i < list.len()
        invariant
            before == peer_config_texts(list@),
            before == optional_peer_texts(*old(peers)),
            i <= list@.len(),
            forall|j: int| 0 <= j < i ==> (#[trigger] list@[j]).address@ != address@,
        decreases list@.len() - i,
    {
        if list[i].address == *address {
            list[i].token = token.clone();
            proof {
                assert(before[i as int].0 == address@);
                assert(peer_config_texts(list@) =~= before.update(i as int, (address@, token@)));
                assert forall|k: int| #[trigger] first_at_address(before, address@, k) implies k == i by {
                    if k < i {
                        assert(before[k].0 == list@[k].address@);
                    }
                }
            }
            *peers = Some(list);
            return;
        }
        i = i + 1;
    }
    list.push(PeerConfig { address: address.clone(), token: token.clone() });
    proof {
        assert(peer_config_texts(list@) =~= before.push((address@, token@)));

    }
    *peers = Some(list);
}

/// The address this node announces: the configured public address, else the
/// loopback address with the gRPC port (by default 50051).
pub open spec fn announced_address(public: Option<String>, grpc_port: Option<u16>) -> Seq<char> {
    match public {
        Some(a) => a@,
        None => "127.0.0.1:"@ + decimal(
            match grpc_port {
                Some(p) => p as nat,
                None => DEFAULT_GRPC_PORT as nat,
            },
        ),
    }
}

/// The address this node announces.
pub fn public_address_or_default(public: &Option<String>, grpc_port: Option<u16>) -> (s: String)
    ensures
        s@ == announced_address(*public, grpc_port),
{
    match public {
        Some(a) => a.clone(),
        None => {
            let port = match grpc_port {
                Some(p) => p,
                None => DEFAULT_GRPC_PORT,
            };
            let mut s = "127.0.0.1:".to_owned();
            s.append(decimal_string(port as u64).as_str());
            s
        },
    }
}

/// Where submitted downloads are saved: the requested directory unless it is
/// blank, else the configured default, else `./downloads`.
pub fn resolve_save_dir(requested: &String, default_dir: &Option<String>) -> (s: String)
    ensures
        s@ == if !is_blank_text(requested@) {
            requested@
        } else {
            match *default_dir {
                Some(d) => d@,
                None => "./downloads"@,
            }
        },
{
    if !is_blank(requested.as_str()) {
        requested.clone()
    } else {
        match default_dir {
            Some(d) => d.clone(),
            None => "./downloads".to_owned(),
        }
    }
}

/// What to do with a submitted download.
#[derive(Clone, Copy, Debug, PartialEq, Eq, Structural)]
pub enum SubmitAction {
    /// Refuse: a task for the address exists and replacing was not asked for.
    Conflict,
    /// Delete the existing task for the address, then start a new one.
    Replace,
    /// Start a new task.
    Start,
    /// Ignore the entry (a blank address in a batch, or an existing one).
    Skip,
}

/// A single submission: with `force` an existing task is replaced; without
/// it an existing task is a conflict.
pub fn plan_submission(force: bool, existing: bool) -> (a: SubmitAction)
    ensures
        a == if existing {
            if force { SubmitAction::Replace } else { SubmitAction::Conflict }
        } else {
            SubmitAction::Start
        },
{
    if existing {
        if force { SubmitAction::Replace } else { SubmitAction::Conflict }
    } else {
        SubmitAction::Start
    }
}

/// An entry of a batch: blank addresses and existing ones (without `force`)
/// are skipped.
pub fn plan_batch_entry(url: &String, force: bool, existing: bool) -> (a: SubmitAction)
    ensures
        a == if is_blank_text(url@) {
            SubmitAction::Skip
        } else if existing {
            if force { SubmitAction::Replace } else { SubmitAction::Skip }
        } else {
            SubmitAction::Start
        },
{
    if is_blank(url.as_str()) {
        SubmitAction::Skip
    } else if existing {
        if force { SubmitAction::Replace } else { SubmitAction::Skip }
    } else {
        SubmitAction::Start
    }
}

/// Settings given on the command line, which take precedence over the file.
pub struct CliOverrides {
    pub grpc_port: Option<u16>,
    pub api_port: Option<u16>,
    pub record_dir: Option<String>,
    pub max_connections: Option<u32>,
    pub token: Option<String>,
}

/// The first present value.
pub open spec fn first_some<T>(a: Option<T>, b: Option<T>) -> Option<T> {
    if a is Some { a } else { b }
}

/// The first present text, else a fallback.
pub open spec fn text_or(a: Option<String>, b: Option<String>, fallback: Seq<char>) -> Seq<char> {
    match first_some(a, b) {
        Some(s) => s@,
        None => fallback,
    }
}

fn pick_text(a: &Option<String>, b: &Option<String>, fallback: &str) -> (s: String)
    ensures
        s@ == text_or(*a, *b, fallback@),
{
    match a {
        Some(x) => x.clone(),
        None => match b {
            Some(y) => y.clone(),
            None => fallback.to_owned(),
        },
    }
}

impl Config {
    /// Settles every startup setting: command-line values win over the file,
    /// which wins over the defaults; the download directory falls back to
    /// the system's, else `./downloads`. The settled values are written back
    /// into the configuration.
    pub fn apply_startup(&mut self, cli: &CliOverrides, system_download_dir: Option<String>)
        ensures
            final(self).grpc_port == Some(
                match first_some(cli.grpc_port, old(self).grpc_port) { Some(p) => p, None => DEFAULT_GRPC_PORT },
            ),
            final(self).api_port == Some(
                match first_some(cli.api_port, old(self).api_port) { Some(p) => p, None => DEFAULT_API_PORT },
            ),
            final(self).record_dir matches Some(d) && d@ == text_or(cli.record_dir, old(self).record_dir, "./octoget_records"@),
            final(self).my_token matches Some(t) && t@ == text_or(cli.token, old(self).my_token, "default_secret_token"@),
            final(self).max_connections == Some(
                match first_some(cli.max_connections, old(self).max_connections) {
                    Some(n) => n,
                    None => DEFAULT_MAX_CONNECTIONS,
                },
            ),
            final(self).max_tasks == Some(
                match old(self).max_tasks { Some(n) => n, None => crate::lifecycle::DEFAULT_MAX_TASKS },
            ),
            final(self).default_save_dir matches Some(d) && d@ == match old(self).default_save_dir {
                Some(x) => x@,
                None => match system_download_dir {
                    Some(y) => y@,
                    None => "./downloads"@,
                },
            },
            final(self).share_node == Some(match old(self).share_node { Some(b) => b, None => true }),
            final(self).shareable == Some(match old(self).shareable { Some(b) => b, None => true }),
            final(self).nat_traversal == Some(match old(self).nat_traversal { Some(b) => b, None => false }),
            final(self).log_level matches Some(l) && l@ == text_or(old(self).log_level, None, "info"@),
            final(self).public_address == old(self).public_address,
            final(self).global_speed_limit_kb == old(self).global_speed_limit_kb,
            final(self).peer_speed_limit_kb == old(self).peer_speed_limit_kb,
            final(self).use_proxy == old(self).use_proxy,
            final(self).peers == old(self).peers,
    {
        let grpc = match cli.grpc_port {
            Some(p) => p,
            None => match self.grpc_port {
                Some(p) => p,
                None => DEFAULT_GRPC_PORT,
            },
        };
        let api = match cli.api_port {
            Some(p) => p,
            None => match self.api_port {
                Some(p) => p,
                None => DEFAULT_API_PORT,
            },
        };
        let record_dir = pick_text(&cli.record_dir, &self.record_dir, "./octoget_records");
        let token = pick_text(&cli.token, &self.my_token, "default_secret_token");
        let max_conn = match cli.max_connections {
            Some(n) => n,
            None => match self.max_connections {
                Some(n) => n,
                None => DEFAULT_MAX_CONNECTIONS,
            },
        };
        let max_tasks = match self.max_tasks {
            Some(n) => n,
            None => crate::lifecycle::DEFAULT_MAX_TASKS,
        };
        let log_level = pick_text(&self.log_level, &None, "info");
        let save_dir = match &self.default_save_dir {
            Some(d) => d.clone(),
            None => match system_download_dir {
                Some(y) => y,
                None => "./downloads".to_owned(),
            },
        };
        let share_node = match self.share_node {
            Some(b) => b,
            None => true,
        };
        let shareable = match self.shareable {
            Some(b) => b,
            None => true,
        };
        let nat_on = match self.nat_traversal {
            Some(b) => b,
            None => false,
        };
        self.grpc_port = Some(grpc);
        self.api_port = Some(api);
        self.record_dir = Some(record_dir);
        self.my_token = Some(token);
        self.max_connections = Some(max_conn);
        self.max_tasks = Some(max_tasks);
        self.default_save_dir = Some(save_dir);
        self.share_node = Some(share_node);
        self.shareable = Some(shareable);
        self.nat_traversal = Some(nat_on);
        self.log_level = Some(log_level);
    }
}

} // verus!

verus! {

/// The node id kept in the record directory: the file's text without
/// surrounding white space, unless that leaves nothing (then a new id is
/// made).
pub fn stored_node_id(contents: &str) -> (r: Option<String>)
    ensures
        match r {
            Some(id) => id@ == trim_text(contents@) && id@.len() > 0,
            None => trim_text(contents@).len() == 0,
        },
{
    let id = trimmed(contents);
    if id.as_str().is_empty() {
        None
    } else {
        Some(id)
    }
}

} // verus!
