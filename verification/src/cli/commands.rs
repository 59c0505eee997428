//! What the commands do.
use crate::cli::args::{StartArgs, StartView};
use crate::server::config::Config;
use crate::server::p2p::squad::Squad;
use crate::server::p2p::util::{identity_of_text, IdentityError};
use crate::text::{copy_text, copy_texts};
use vstd::prelude::*;
use vstd::string::*;

verus! {

/// The name of the network that has no seed peers of its own.
pub open spec fn is_local(network: Seq<char>) -> bool {
    network == "localnet"@
}

impl StartView {
    /// The seed peers: the one of the network, unless it is not wanted, and then those that were given.
    pub open spec fn all_seed_peers(self, network: Seq<char>) -> Seq<Seq<char>> {
        let standard = if is_local(network) || self.no_default_seed_peers {
            Seq::empty()
        } else {
            seq!["/dnsaddr/"@ + network + ".p2pool.tari.com"@]
        };
        match self.seed_peers {
            Some(list) => standard + list,
            None => standard,
        }
    }
}

impl StartView {
    /// Whether these are the settings of a node that is started like this, apart from its private key. `address` is the
    /// external address of the environment.
    pub open spec fn sets(self, network: Seq<char>, address: Option<Seq<char>>, config: Config) -> bool {
        &&& config.grpc_port == (match self.grpc_port {
            Some(port) => port,
            None => 18145,
        })
        &&& config.p2p_port == (match self.p2p_port {
            Some(port) => port,
            None => 0,
        })
        &&& config.http_server.port == (match self.stats_server_port {
            Some(port) => port,
            None => 19000,
        })
        &&& config.http_server.enabled == !self.http_server_disabled
        &&& config.mining_enabled == !self.mining_disabled
        &&& config.base_node_address@ == self.base_node_address
        &&& config.p2p_service.squad@ == crate::server::p2p::squad::cased(
            crate::server::p2p::squad::cased(self.squad, false),
            true,
        )
        &&& crate::text::texts(config.p2p_service.seed_peers@) == self.all_seed_peers(network)
        &&& config.p2p_service.stable_peer == self.stable_peer
        &&& config.p2p_service.private_key_folder@ == self.private_key_folder
        &&& crate::text::opt_text(config.p2p_service.external_addr) == (match address {
            Some(text) => Some(text),
            None => self.external_address,
        })
        &&& config.p2p_service.mdns_enabled == !self.mdns_disabled
        &&& config.p2p_service.relay_server_disabled == !self.relay_server_enabled
        &&& config.idle_connection_timeout == 60
        &&& config.max_incoming_connections == Some(100u32)
        &&& config.max_outgoing_connections == Some(20u32)
        &&& config.network_silence_delay == 300
        &&& config.max_relay_circuits is None
        &&& config.max_relay_circuits_per_peer is None
        &&& config.block_time == 20
        &&& config.share_window == 2160
        &&& config.block_cache_file@ == "block_cache"@
        &&& config.p2p_service.peer_info_publish_interval == 900
        &&& config.p2p_service.squad_prefix@ == "default"@
        &&& config.p2p_service.num_squads == 1
        &&& config.p2p_service.user_agent@ == "tari-p2pool"@
        &&& config.p2p_service.grey_list_clear_interval == 900
        &&& config.p2p_service.black_list_clear_interval == 3600
        &&& config.p2p_service.chain_height_exchange_interval == 5
        &&& !config.p2p_service.is_seed_peer
        &&& !config.p2p_service.debug_print_chain
        &&& config.p2p_service.sync_job_enabled
        &&& config.p2p_service.sha3x_enabled
        &&& config.p2p_service.randomx_enabled
        &&& config.p2p_service.num_concurrent_syncs == 1
        &&& config.p2p_service.num_sync_tips_to_keep == 10
        &&& config.p2p_service.max_missing_blocks_sync_depth == 8
    }
}

impl StartArgs {
    fn list_seed_peers(&self, network: &str) -> (list: Vec<String>)
        ensures
            crate::text::texts(list@) == self@.all_seed_peers(network@),
    {
        let mut list: Vec<String> = Vec::new();
        let local = copy_text(network) == copy_text("localnet");
        if !local && !self.no_default_seed_peers {
            let mut address = copy_text("/dnsaddr/");
            address.append(network);
            address.append(".p2pool.tari.com");
            list.push(address);
        }
        let ghost standard = crate::text::texts(list@);
        assert(standard =~= if is_local(network@) || self.no_default_seed_peers {
            Seq::empty()
        } else {
            seq!["/dnsaddr/"@ + network@ + ".p2pool.tari.com"@]
        });
        if let Some(given) = &self.seed_peers {
            let mut given = copy_texts(given);
            let ghost tail = given@;
            list.append(&mut given);
            assert(crate::text::texts(list@) =~= standard + crate::text::texts(tail));
        }
        list
    }

    /// The settings of a node. The environment may give a private key as hexadecimal text, and an external address, which
    /// goes before the one of the command line. An identity that holds no key is an error.
    pub fn server_config(&self, network: &str, identity: Option<&str>, address: Option<String>) -> (result: Result<
        Config,
        IdentityError,
    >)
        ensures
            match identity {
                Some(text) => match crate::server::p2p::util::key_in_text(text@) {
                    Ok(key) => result matches Ok(config) && config.p2p_service.private_key matches Some(own) && own@
                        == key && crate::server::p2p::util::key_in(key) == Some(key),
                    Err(error) => result == Err::<Config, _>(error),
                },
                None => result matches Ok(config) && config.p2p_service.private_key is None,
            },
            result matches Ok(config) ==> self@.sets(network@, crate::text::opt_text(address), config),
    {
        let mut config_builder = Config::builder();
        if let Some(grpc_port) = self.grpc_port {
            config_builder.with_grpc_port(grpc_port);
        }
        if let Some(p2p_port) = self.p2p_port {
            config_builder.with_p2p_port(p2p_port);
        }
        config_builder.with_squad(Squad::named(self.squad.clone()));
        // set default tari network specific seed peer address
        config_builder.with_seed_peers(self.list_seed_peers(network));
        config_builder.with_stable_peer(self.stable_peer);
        config_builder.with_private_key_folder(self.private_key_folder.clone());
        // try to extract env var based private key
        if let Some(text) = identity {
            match identity_of_text(text) {
                Ok(private_key) => {
                    config_builder.with_private_key(Some(private_key));
                },
                Err(error) => {
                    return Err(error);
                },
            }
        }
        // external address
        if let Some(external_addr) = &self.external_address {
            config_builder.with_external_address(external_addr.clone());
        }
        if let Some(external_ip) = address {
            config_builder.with_external_address(external_ip);
        }
        config_builder.with_mining_enabled(!self.mining_disabled);
        config_builder.with_mdns_enabled(!self.mdns_disabled);
        config_builder.with_relay_disabled(!self.relay_server_enabled);
        config_builder.with_http_server_enabled(!self.http_server_disabled);
        if let Some(stats_server_port) = self.stats_server_port {
            config_builder.with_stats_server_port(stats_server_port);
        }
        config_builder.with_base_node_address(self.base_node_address.clone());
        Ok(config_builder.build())
    }

    /// How a node is started that only looks for squads: it neither mines nor serves figures.
    pub fn for_listing(&self) -> (args: StartArgs)
        ensures
            args@ == (StartView { mining_disabled: true, http_server_disabled: true, ..self@ }),
    {
        let mut args = self.clone();
        args.mining_disabled = true;
        args.http_server_disabled = true;
        args
    }
}

/// Whether enough squads were found: a second one beside the node's own.
pub fn enough_squads(squads: &Vec<Squad>) -> (enough: bool)
    ensures
        enough == (squads@.len() > 1),
{
    squads.len() > 1
}

/// Peers that a user names are always among the seed peers, behind the one of the network.
pub proof fn law_given_seed_peers_are_kept(args: StartView, network: Seq<char>, i: int)
    requires
        args.seed_peers is Some,
        0 <= i < args.seed_peers.unwrap().len(),
    ensures
        args.all_seed_peers(network).contains(args.seed_peers.unwrap()[i]),
        args.no_default_seed_peers ==> args.all_seed_peers(network) == args.seed_peers.unwrap(),
{
    let all = args.all_seed_peers(network);
    let given = args.seed_peers.unwrap();
    assert(all[all.len() - given.len() + i] == given[i]);
    if args.no_default_seed_peers {
        assert(all =~= given);
    }
}

}
