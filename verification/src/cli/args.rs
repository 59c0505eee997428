//! Arguments.
use crate::text::{copy_opt_text, copy_text, copy_texts};
use vstd::prelude::*;
use vstd::string::*;

verus! {

/// How a node is started.
pub struct StartArgs {
    /// (Optional) base dir.
    pub base_dir: Option<String>,
    /// (Optional) gRPC port to use.
    pub grpc_port: Option<u16>,
    /// (Optional) p2p port to use. It is used to connect p2pool nodes.
    pub p2p_port: Option<u16>,
    /// (Optional) stats server port to use.
    pub stats_server_port: Option<u16>,
    /// (Optional) External address to listen on.
    pub external_address: Option<String>,
    /// Address of the Tari base node.
    pub base_node_address: String,
    /// (Optional) seed peers.
    pub seed_peers: Option<Vec<String>>,
    /// If set, Tari provided seed peers will NOT be automatically added to seed peers list.
    pub no_default_seed_peers: bool,
    /// Starts the node as a stable peer.
    pub stable_peer: bool,
    /// Squad to enter (a team of miners).
    pub squad: String,
    /// Private key folder.
    pub private_key_folder: String,
    /// If set, the node only handles p2p operations.
    pub mining_disabled: bool,
    /// If set, mDNS local peer discovery is disabled.
    pub mdns_disabled: bool,
    /// If set, this peer acts as a relay server too.
    pub relay_server_enabled: bool,
    /// If set, local HTTP server (stats, health-check, status etc...) is disabled.
    pub http_server_disabled: bool,
}

/// What a [`StartArgs`] holds.
pub struct StartView {
    pub base_dir: Option<Seq<char>>,
    pub grpc_port: Option<u16>,
    pub p2p_port: Option<u16>,
    pub stats_server_port: Option<u16>,
    pub external_address: Option<Seq<char>>,
    pub base_node_address: Seq<char>,
    pub seed_peers: Option<Seq<Seq<char>>>,
    pub no_default_seed_peers: bool,
    pub stable_peer: bool,
    pub squad: Seq<char>,
    pub private_key_folder: Seq<char>,
    pub mining_disabled: bool,
    pub mdns_disabled: bool,
    pub relay_server_enabled: bool,
    pub http_server_disabled: bool,
}

impl View for StartArgs {
    type V = StartView;

    open spec fn view(&self) -> StartView {
        StartView {
            base_dir: crate::text::opt_text(self.base_dir),
            grpc_port: self.grpc_port,
            p2p_port: self.p2p_port,
            stats_server_port: self.stats_server_port,
            external_address: crate::text::opt_text(self.external_address),
            base_node_address: self.base_node_address@,
            seed_peers: match self.seed_peers {
                Some(list) => Some(crate::text::texts(list@)),
                None => None,
            },
            no_default_seed_peers: self.no_default_seed_peers,
            stable_peer: self.stable_peer,
            squad: self.squad@,
            private_key_folder: self.private_key_folder@,
            mining_disabled: self.mining_disabled,
            mdns_disabled: self.mdns_disabled,
            relay_server_enabled: self.relay_server_enabled,
            http_server_disabled: self.http_server_disabled,
        }
    }
}

impl Clone for StartArgs {
    fn clone(&self) -> (copy: Self)
        ensures
            copy@ == self@,
    {
        StartArgs {
            base_dir: copy_opt_text(&self.base_dir),
            grpc_port: self.grpc_port,
            p2p_port: self.p2p_port,
            stats_server_port: self.stats_server_port,
            external_address: copy_opt_text(&self.external_address),
            base_node_address: self.base_node_address.clone(),
            seed_peers: match &self.seed_peers {
                Some(list) => Some(copy_texts(list)),
                None => None,
            },
            no_default_seed_peers: self.no_default_seed_peers,
            stable_peer: self.stable_peer,
            squad: self.squad.clone(),
            private_key_folder: self.private_key_folder.clone(),
            mining_disabled: self.mining_disabled,
            mdns_disabled: self.mdns_disabled,
            relay_server_enabled: self.relay_server_enabled,
            http_server_disabled: self.http_server_disabled,
        }
    }
}

impl Default for StartArgs {
    fn default() -> (args: Self)
        ensures
            args@ == (StartView {
                base_dir: None,
                grpc_port: None,
                p2p_port: None,
                stats_server_port: None,
                external_address: None,
                base_node_address: "http://127.0.0.1:18142"@,
                seed_peers: None,
                no_default_seed_peers: false,
                stable_peer: false,
                squad: "default"@,
                private_key_folder: "."@,
                mining_disabled: false,
                mdns_disabled: false,
                relay_server_enabled: false,
                http_server_disabled: false,
            }),
    {
        StartArgs {
            base_dir: None,
            grpc_port: None,
            p2p_port: None,
            stats_server_port: None,
            external_address: None,
            base_node_address: copy_text("http://127.0.0.1:18142"),
            seed_peers: None,
            no_default_seed_peers: false,
            stable_peer: false,
            squad: copy_text("default"),
            private_key_folder: copy_text("."),
            mining_disabled: false,
            mdns_disabled: false,
            relay_server_enabled: false,
            http_server_disabled: false,
        }
    }
}

/// How squads are listed.
#[derive(Clone, Copy)]
pub struct ListSquadArgs {
    /// List squad command timeout in seconds.
    ///
    /// The list-squads commands tries to look for all the currently available squads
    /// for this amount of time maximum.
    pub timeout: u64,
}

impl Default for ListSquadArgs {
    fn default() -> (args: Self)
        ensures
            args.timeout == 15,
    {
        ListSquadArgs { timeout: 15 }
    }
}

/// What is done.
pub enum Commands {
    /// Starts sha-p2pool node.
    Start { args: StartArgs },
    /// Generating new identity.
    GenerateIdentity,
    /// Listing all squads that are present on the network.
    ListSquads { args: StartArgs, list_squad_args: ListSquadArgs },
}

/// The command line.
pub struct Cli {
    /// What is done.
    pub command: Commands,
}

/// A path below a directory.
pub open spec fn joined(directory: Seq<char>, path: Seq<char>) -> Seq<char> {
    if directory.len() == 0 || directory.last() == '/' {
        directory + path
    } else {
        directory + "/"@ + path
    }
}

/// A relative path below a directory.
pub fn join(directory: &str, path: &str) -> (result: String)
    ensures
        result@ == joined(directory@, path@),
{
    let length: usize = directory.unicode_len();
    let mut result = copy_text(directory);
    if length > 0 && directory.get_char(length - 1) != '/' {
        result.append("/");
    }
    result.append(path);
    result
}

impl Cli {
    /// The base directory that was given, if one was.
    pub open spec fn given_dir(&self) -> Option<Seq<char>> {
        match self.command {
            Commands::Start { args } => args@.base_dir,
            Commands::GenerateIdentity => None,
            Commands::ListSquads { args, .. } => args@.base_dir,
        }
    }

    /// The base directory: the one that was given, or else one in the user's home.
    pub fn base_dir(&self, home: &str) -> (directory: String)
        ensures
            directory@ == (match self.given_dir() {
                Some(given) => given,
                None => joined(home@, ".tari/p2pool"@),
            }),
    {
        let given = match &self.command {
            Commands::Start { args } => copy_opt_text(&args.base_dir),
            Commands::GenerateIdentity => None,
            Commands::ListSquads { args, .. } => copy_opt_text(&args.base_dir),
        };
        match given {
            Some(directory) => directory,
            None => join(home, ".tari/p2pool"),
        }
    }
}

}
