//! Settings of a node.
use crate::server::http::server::Config as HttpConfig;
use crate::server::p2p::network::Config as P2pConfig;
use crate::server::p2p::squad::Squad;
use crate::text::copy_text;
use vstd::prelude::*;

verus! {

/// Config is the server configuration struct.
pub struct Config {
    /// Address of the Tari base node.
    pub base_node_address: String,
    /// Port for peers; 0 binds to any free port.
    pub p2p_port: u16,
    /// Port of the gRPC server.
    pub grpc_port: u16,
    /// Time after which an idle connection is closed, in seconds.
    pub idle_connection_timeout: u64,
    /// Whether miners are served. If not, the node only handles p2p operations and needs no base node.
    pub mining_enabled: bool,
    /// Settings of the network.
    pub p2p_service: P2pConfig,
    /// Settings of the HTTP server.
    pub http_server: HttpConfig,
    /// Limit on connections that peers made.
    pub max_incoming_connections: Option<u32>,
    /// Limit on connections that the node made.
    pub max_outgoing_connections: Option<u32>,
    /// Time after which a node that hears nothing counts as synced, in seconds.
    pub network_silence_delay: u64,
    /// Limit on circuits of the relay server.
    pub max_relay_circuits: Option<usize>,
    /// Limit on circuits of the relay server for one peer.
    pub max_relay_circuits_per_peer: Option<usize>,
    /// Time between blocks that the chains aim at, in seconds.
    pub block_time: u64,
    /// How many blocks count for shares.
    pub share_window: u64,
    /// Where blocks are kept.
    pub block_cache_file: String,
}

impl Config {
    /// The settings of a server for which nothing was set.
    pub open spec fn is_default(self) -> bool {
        &&& self.base_node_address@ == "http://127.0.0.1:18182"@
        &&& self.p2p_port == 0
        &&& self.grpc_port == 18145
        &&& self.idle_connection_timeout == 60
        &&& self.max_incoming_connections == Some(100u32)
        &&& self.max_outgoing_connections == Some(20u32)
        &&& self.network_silence_delay == 300
        &&& self.max_relay_circuits is None
        &&& self.max_relay_circuits_per_peer is None
        &&& self.block_time == 20
        &&& self.share_window == 2160
        &&& self.block_cache_file@ == "block_cache"@
        &&& self.mining_enabled
        &&& self.http_server.enabled
        &&& self.http_server.port == 19000
        &&& self.p2p_service.is_default()
    }
}

impl Default for Config {
    fn default() -> (config: Self)
        ensures
            config.is_default(),
    {
        Config {
            base_node_address: copy_text("http://127.0.0.1:18182"),
            p2p_port: 0,
            grpc_port: 18145,
            idle_connection_timeout: 60,
            mining_enabled: true,
            p2p_service: P2pConfig::default(),
            http_server: HttpConfig::default(),
            max_incoming_connections: Some(100),
            max_outgoing_connections: Some(20),
            network_silence_delay: 300,
            max_relay_circuits: None,
            max_relay_circuits_per_peer: None,
            block_time: 20,
            share_window: 2160,
            block_cache_file: copy_text("block_cache"),
        }
    }
}

impl Config {
    /// Starts from the default settings.
    pub fn builder() -> (builder: ConfigBuilder)
        ensures
            builder.config.is_default(),
    {
        ConfigBuilder { config: Config::default() }
    }

    /// Whether the gRPC services for miners start: not on a node that does not mine, nor on a seed peer.
    pub fn serves_miners(&self) -> (serves: bool)
        ensures
            serves == (self.mining_enabled && !self.p2p_service.is_seed_peer),
    {
        self.mining_enabled && !self.p2p_service.is_seed_peer
    }
}

/// Changes settings one by one.
pub struct ConfigBuilder {
    /// The settings so far.
    pub config: Config,
}

impl ConfigBuilder {
    /// Sets the port for peers.
    pub fn with_p2p_port(&mut self, port: u16) -> (builder: &mut Self)
        ensures
            builder.config == (Config { p2p_port: port, ..old(self).config }),
            *final(self) == *final(builder),
    {
        self.config.p2p_port = port;
        self
    }

    /// Sets the port of the gRPC server.
    pub fn with_grpc_port(&mut self, port: u16) -> (builder: &mut Self)
        ensures
            builder.config == (Config { grpc_port: port, ..old(self).config }),
            *final(self) == *final(builder),
    {
        self.config.grpc_port = port;
        self
    }

    /// Sets the time after which an idle connection is closed, in seconds.
    pub fn with_idle_connection_timeout(&mut self, timeout: u64) -> (builder: &mut Self)
        ensures
            builder.config == (Config { idle_connection_timeout: timeout, ..old(self).config }),
            *final(self) == *final(builder),
    {
        self.config.idle_connection_timeout = timeout;
        self
    }

    /// Sets the squad.
    pub fn with_squad(&mut self, squad: Squad) -> (builder: &mut Self)
        ensures
            builder.config == (Config {
                p2p_service: P2pConfig { squad: squad, ..old(self).config.p2p_service },
                ..old(self).config
            }),
            *final(self) == *final(builder),
    {
        self.config.p2p_service.squad = squad;
        self
    }

    /// Sets what the names of squads start with.
    pub fn with_squad_prefix(&mut self, squad: String) -> (builder: &mut Self)
        ensures
            builder.config == (Config {
                p2p_service: P2pConfig { squad_prefix: squad, ..old(self).config.p2p_service },
                ..old(self).config
            }),
            *final(self) == *final(builder),
    {
        self.config.p2p_service.squad_prefix = squad;
        self
    }

    /// Sets how many squads there are.
    pub fn with_num_squads(&mut self, num_squads: usize) -> (builder: &mut Self)
        ensures
            builder.config == (Config {
                p2p_service: P2pConfig { num_squads: num_squads, ..old(self).config.p2p_service },
                ..old(self).config
            }),
            *final(self) == *final(builder),
    {
        self.config.p2p_service.num_squads = num_squads;
        self
    }

    /// Sets all settings of the network.
    pub fn with_p2p_service_config(&mut self, config: P2pConfig) -> (builder: &mut Self)
        ensures
            builder.config == (Config { p2p_service: config, ..old(self).config }),
            *final(self) == *final(builder),
    {
        self.config.p2p_service = config;
        self
    }

    /// Sets the peers to start with.
    pub fn with_seed_peers(&mut self, config: Vec<String>) -> (builder: &mut Self)
        ensures
            builder.config == (Config {
                p2p_service: P2pConfig { seed_peers: config, ..old(self).config.p2p_service },
                ..old(self).config
            }),
            *final(self) == *final(builder),
    {
        self.config.p2p_service.seed_peers = config;
        self
    }

    /// Sets whether the identity of the node is kept.
    pub fn with_stable_peer(&mut self, config: bool) -> (builder: &mut Self)
        ensures
            builder.config == (Config {
                p2p_service: P2pConfig { stable_peer: config, ..old(self).config.p2p_service },
                ..old(self).config
            }),
            *final(self) == *final(builder),
    {
        self.config.p2p_service.stable_peer = config;
        self
    }

    /// Sets where the identity of the node is kept.
    pub fn with_private_key_folder(&mut self, config: String) -> (builder: &mut Self)
        ensures
            builder.config == (Config {
                p2p_service: P2pConfig { private_key_folder: config, ..old(self).config.p2p_service },
                ..old(self).config
            }),
            *final(self) == *final(builder),
    {
        self.config.p2p_service.private_key_folder = config;
        self
    }

    /// Limits connections that peers made.
    pub fn with_max_incoming_connections(&mut self, config: u32) -> (builder: &mut Self)
        ensures
            builder.config == (Config { max_incoming_connections: Some(config), ..old(self).config }),
            *final(self) == *final(builder),
    {
        self.config.max_incoming_connections = Some(config);
        self
    }

    /// Limits connections that the node made.
    pub fn with_max_outgoing_connections(&mut self, config: u32) -> (builder: &mut Self)
        ensures
            builder.config == (Config { max_outgoing_connections: Some(config), ..old(self).config }),
            *final(self) == *final(builder),
    {
        self.config.max_outgoing_connections = Some(config);
        self
    }

    /// Sets whether SHA3x blocks are looked at.
    pub fn with_sha3x_enabled(&mut self, config: bool) -> (builder: &mut Self)
        ensures
            builder.config == (Config {
                p2p_service: P2pConfig { sha3x_enabled: config, ..old(self).config.p2p_service },
                ..old(self).config
            }),
            *final(self) == *final(builder),
    {
        self.config.p2p_service.sha3x_enabled = config;
        self
    }

    /// Sets whether RandomX blocks are looked at.
    pub fn with_randomx_enabled(&mut self, config: bool) -> (builder: &mut Self)
        ensures
            builder.config == (Config {
                p2p_service: P2pConfig { randomx_enabled: config, ..old(self).config.p2p_service },
                ..old(self).config
            }),
            *final(self) == *final(builder),
    {
        self.config.p2p_service.randomx_enabled = config;
        self
    }

    /// Sets the private key of the node, in protobuf encoding.
    pub fn with_private_key(&mut self, config: Option<Vec<u8>>) -> (builder: &mut Self)
        ensures
            builder.config == (Config {
                p2p_service: P2pConfig { private_key: config, ..old(self).config.p2p_service },
                ..old(self).config
            }),
            *final(self) == *final(builder),
    {
        self.config.p2p_service.private_key = config;
        self
    }

    /// Sets whether the node is one that others start with.
    pub fn with_is_seed_peer(&mut self, config: bool) -> (builder: &mut Self)
        ensures
            builder.config == (Config {
                p2p_service: P2pConfig { is_seed_peer: config, ..old(self).config.p2p_service },
                ..old(self).config
            }),
            *final(self) == *final(builder),
    {
        self.config.p2p_service.is_seed_peer = config;
        self
    }

    /// Sets whether miners are served.
    pub fn with_mining_enabled(&mut self, config: bool) -> (builder: &mut Self)
        ensures
            builder.config == (Config { mining_enabled: config, ..old(self).config }),
            *final(self) == *final(builder),
    {
        self.config.mining_enabled = config;
        self
    }

    /// Sets whether peers are looked for in the local network.
    pub fn with_mdns_enabled(&mut self, config: bool) -> (builder: &mut Self)
        ensures
            builder.config == (Config {
                p2p_service: P2pConfig { mdns_enabled: config, ..old(self).config.p2p_service },
                ..old(self).config
            }),
            *final(self) == *final(builder),
    {
        self.config.p2p_service.mdns_enabled = config;
        self
    }

    /// Sets whether the node relays for others no longer.
    pub fn with_relay_disabled(&mut self, config: bool) -> (builder: &mut Self)
        ensures
            builder.config == (Config {
                p2p_service: P2pConfig { relay_server_disabled: config, ..old(self).config.p2p_service },
                ..old(self).config
            }),
            *final(self) == *final(builder),
    {
        self.config.p2p_service.relay_server_disabled = config;
        self
    }

    /// Limits circuits of the relay server.
    pub fn with_relay_max_circuits(&mut self, config: Option<usize>) -> (builder: &mut Self)
        ensures
            builder.config == (Config { max_relay_circuits: config, ..old(self).config }),
            *final(self) == *final(builder),
    {
        self.config.max_relay_circuits = config;
        self
    }

    /// Limits circuits of the relay server for one peer.
    pub fn with_relay_max_circuits_per_peer(&mut self, config: Option<usize>) -> (builder: &mut Self)
        ensures
            builder.config == (Config { max_relay_circuits_per_peer: config, ..old(self).config }),
            *final(self) == *final(builder),
    {
        self.config.max_relay_circuits_per_peer = config;
        self
    }

    /// Sets whether the HTTP server runs.
    pub fn with_http_server_enabled(&mut self, config: bool) -> (builder: &mut Self)
        ensures
            builder.config == (Config {
                http_server: HttpConfig { enabled: config, ..old(self).config.http_server },
                ..old(self).config
            }),
            *final(self) == *final(builder),
    {
        self.config.http_server.enabled = config;
        self
    }

    /// Sets the address at which others reach the node.
    pub fn with_external_address(&mut self, config: String) -> (builder: &mut Self)
        ensures
            builder.config == (Config {
                p2p_service: P2pConfig { external_addr: Some(config), ..old(self).config.p2p_service },
                ..old(self).config
            }),
            *final(self) == *final(builder),
    {
        self.config.p2p_service.external_addr = Some(config);
        self
    }

    /// Sets the port of the HTTP server.
    pub fn with_stats_server_port(&mut self, config: u16) -> (builder: &mut Self)
        ensures
            builder.config == (Config {
                http_server: HttpConfig { port: config, ..old(self).config.http_server },
                ..old(self).config
            }),
            *final(self) == *final(builder),
    {
        self.config.http_server.port = config;
        self
    }

    /// Sets the address of the Tari base node.
    pub fn with_base_node_address(&mut self, config: String) -> (builder: &mut Self)
        ensures
            builder.config == (Config { base_node_address: config, ..old(self).config }),
            *final(self) == *final(builder),
    {
        self.config.base_node_address = config;
        self
    }

    /// Sets the program that runs the node.
    pub fn with_user_agent(&mut self, config: String) -> (builder: &mut Self)
        ensures
            builder.config == (Config {
                p2p_service: P2pConfig { user_agent: config, ..old(self).config.p2p_service },
                ..old(self).config
            }),
            *final(self) == *final(builder),
    {
        self.config.p2p_service.user_agent = config;
        self
    }

    /// Sets whether the chain is printed from time to time.
    pub fn with_debug_print_chain(&mut self, config: bool) -> (builder: &mut Self)
        ensures
            builder.config == (Config {
                p2p_service: P2pConfig { debug_print_chain: config, ..old(self).config.p2p_service },
                ..old(self).config
            }),
            *final(self) == *final(builder),
    {
        self.config.p2p_service.debug_print_chain = config;
        self
    }

    /// Sets the time between blocks, in seconds.
    pub fn with_block_time(&mut self, config: u64) -> (builder: &mut Self)
        ensures
            builder.config == (Config { block_time: config, ..old(self).config }),
            *final(self) == *final(builder),
    {
        self.config.block_time = config;
        self
    }

    /// Sets how many blocks count for shares.
    pub fn with_share_window(&mut self, config: u64) -> (builder: &mut Self)
        ensures
            builder.config == (Config { share_window: config, ..old(self).config }),
            *final(self) == *final(builder),
    {
        self.config.share_window = config;
        self
    }

    /// Sets where blocks are kept.
    pub fn with_block_cache_file(&mut self, config: String) -> (builder: &mut Self)
        ensures
            builder.config == (Config { block_cache_file: config, ..old(self).config }),
            *final(self) == *final(builder),
    {
        self.config.block_cache_file = config;
        self
    }

    /// Sets the time between two messages about ourselves, in seconds, if one is given.
    pub fn with_peer_publish_interval(&mut self, config: Option<u64>) -> (builder: &mut Self)
        ensures
            builder.config == (match config {
                Some(interval) => Config {
                    p2p_service: P2pConfig {
                        peer_info_publish_interval: interval,
                        ..old(self).config.p2p_service
                    },
                    ..old(self).config
                },
                None => old(self).config,
            }),
            *final(self) == *final(builder),
    {
        if let Some(interval) = config {
            self.config.p2p_service.peer_info_publish_interval = interval;
        }
        self
    }

    /// The settings.
    pub fn build(self) -> (config: Config)
        ensures
            config == self.config,
    {
        self.config
    }
}

}
