//! The configuration that a supervisor starts with, built from the arguments of
//! its command line and from what the environment holds.

use crate::error::{Error, ErrorView};
use crate::service_group::{is_service_group, ServiceGroup};
use vstd::prelude::*;
use vstd::string::*;

verus! {

/// Where packages are fetched from when neither an argument nor the environment says.
pub const DEFAULT_DEPOT_URL: &'static str = "https://willem.habitat.sh/v1/depot";

/// The service group that a service joins when none is named.
pub const DEFAULT_GROUP: &'static str = "default";

/// The port on which rumors are heard when no address is given.
pub const DEFAULT_GOSSIP_PORT: u16 = 9638;

/// The port of the status surface when no address is given.
pub const DEFAULT_HTTP_PORT: u16 = 9631;

/// The address 0.0.0.0, written as an IPv4-mapped IPv6 address.
pub const UNSPECIFIED_IP: u128 = 0xffff_0000_0000;

/// What the supervisor was asked to do.
#[derive(Clone, Copy, Debug, PartialEq, Eq, Structural)]
pub enum Command {
    ShellBash,
    ShellSh,
    Config,
    Start,
}

/// The topology hint handed on to services.
#[derive(Clone, Copy, Debug, PartialEq, Eq, Structural)]
pub enum Topology {
    Standalone,
    Leader,
    Initializer,
}

/// The update strategy hint handed on to services.
#[derive(Clone, Copy, Debug, PartialEq, Eq, Structural)]
pub enum UpdateStrategy {
    Never,
    AtOnce,
    Rolling,
}

/// An address to listen on. An IPv4 address is held in its IPv4-mapped form.
#[derive(Clone, Copy, Debug, PartialEq, Eq, Structural)]
pub struct ListenAddr {
    pub ip: u128,
    pub port: u16,
}

/// The text of an address argument, and the address it reads as, if it reads as one.
#[derive(Clone, Debug, PartialEq, Eq)]
pub struct AddrArg {
    pub text: String,
    pub parsed: Option<ListenAddr>,
}

/// Where the ring key comes from.
#[derive(Clone, Debug, PartialEq, Eq)]
pub enum RingSource {
    /// No ring: datagrams travel unprotected.
    Unprotected,
    /// The newest key of the ring of this name, from the key cache.
    Named(String),
    /// Key material given inline, to be written to the key cache.
    Inline(String),
}

/// The arguments of one sub-command, as the command line gave them. An option
/// that was not given is `None`, a flag that was not given is `false`.
#[derive(Clone, Debug, PartialEq, Eq)]
pub struct Arguments {
    pub config_from: Option<String>,
    pub strategy: Option<String>,
    pub archive: Option<String>,
    pub pkg_ident_or_artifact: Option<String>,
    pub key: Option<String>,
    pub email: Option<String>,
    pub user: Option<String>,
    pub service: Option<String>,
    pub infile: Option<String>,
    pub outfile: Option<String>,
    pub topology: Option<String>,
    pub expire_days: Option<u16>,
    pub url: Option<String>,
    pub group: Option<String>,
    pub bind: Vec<String>,
    pub path: Option<String>,
    pub listen_peer: Option<AddrArg>,
    pub listen_gossip: Option<AddrArg>,
    pub listen_http: Option<AddrArg>,
    pub peer: Vec<String>,
    pub permanent_peer: bool,
    pub service_group: Option<String>,
    pub file_path: Option<String>,
    pub version_number: Option<u64>,
    pub ring: Option<String>,
    pub verbose: bool,
    pub no_color: bool,
    pub organization: Option<String>,
}

/// What the process found around it before it read its arguments.
#[derive(Clone, Debug, PartialEq, Eq)]
pub struct Environment {
    /// The depot address that the environment names.
    pub depot_url: Option<String>,
    /// Key material that the environment supplies inline.
    pub ring_key: Option<String>,
    /// The name of the ring that the environment selects.
    pub ring: Option<String>,
    /// The identifier read from the artifact, where the package argument names a file.
    pub artifact_ident: Option<String>,
    /// The data directory of the supervisor's own service.
    pub data_path: String,
}

/// The configuration of a supervisor.
#[derive(Clone, Debug, PartialEq, Eq)]
pub struct Config {
    pub command: Command,
    pub config_from: Option<String>,
    pub update_strategy: UpdateStrategy,
    pub archive: Option<String>,
    pub package: Option<String>,
    pub local_artifact: Option<String>,
    pub key: Option<String>,
    pub email: Option<String>,
    pub user_key: Option<String>,
    pub service_key: Option<String>,
    pub infile: Option<String>,
    pub outfile: Option<String>,
    pub topology: Topology,
    pub expire_days: Option<u16>,
    pub url: String,
    pub group: String,
    pub bind: Vec<String>,
    pub path: String,
    pub gossip_listen: ListenAddr,
    pub http_listen: ListenAddr,
    pub gossip_peer: Vec<String>,
    pub gossip_permanent: bool,
    pub service_group: Option<ServiceGroup>,
    pub file_path: Option<String>,
    pub version_number: u64,
    pub ring: RingSource,
    pub verbose: bool,
    pub no_color: bool,
    pub organization: Option<String>,
    /// The deprecated spelling of the gossip listen address was used.
    pub listen_peer_deprecated: bool,
}

/// The sub-command that a text names.
pub open spec fn command_of(text: Seq<char>) -> Option<Command> {
    if text == "bash"@ {
        Some(Command::ShellBash)
    } else if text == "config"@ {
        Some(Command::Config)
    } else if text == "sh"@ {
        Some(Command::ShellSh)
    } else if text == "start"@ {
        Some(Command::Start)
    } else {
        None
    }
}

/// The topology that a text names.
pub open spec fn topology_of(text: Seq<char>) -> Option<Topology> {
    if text == "standalone"@ {
        Some(Topology::Standalone)
    } else if text == "leader"@ {
        Some(Topology::Leader)
    } else if text == "initializer"@ {
        Some(Topology::Initializer)
    } else {
        None
    }
}

/// The update strategy that a text names.
pub open spec fn strategy_of(text: Seq<char>) -> Option<UpdateStrategy> {
    if text == "none"@ {
        Some(UpdateStrategy::Never)
    } else if text == "at-once"@ {
        Some(UpdateStrategy::AtOnce)
    } else if text == "rolling"@ {
        Some(UpdateStrategy::Rolling)
    } else {
        None
    }
}

/// Whether a text is exactly the given word.
fn is_word(text: &str, word: &str) -> (same: bool)
    ensures
        same == (text@ == word@),
{
    text.to_owned() == word.to_owned()
}

impl Command {
    /// Reads the name of a sub-command.
    pub fn from_str(text: &str) -> (r: Result<Command, Error>)
        ensures
            match r {
                Ok(command) => command_of(text@) == Some(command),
                Err(e) => command_of(text@) is None && e@ == ErrorView::CommandNotImplemented(
                    text@,
                ),
            },
    {
        if is_word(text, "bash") {
            Ok(Command::ShellBash)
        } else if is_word(text, "config") {
            Ok(Command::Config)
        } else if is_word(text, "sh") {
            Ok(Command::ShellSh)
        } else if is_word(text, "start") {
            Ok(Command::Start)
        } else {
            Err(Error::CommandNotImplemented(text.to_owned()))
        }
    }
}

impl Topology {
    /// Reads the name of a topology.
    pub fn from_str(text: &str) -> (r: Result<Topology, Error>)
        ensures
            match r {
                Ok(topology) => topology_of(text@) == Some(topology),
                Err(e) => topology_of(text@) is None && e@ == ErrorView::UnknownTopology(text@),
            },
    {
        if is_word(text, "standalone") {
            Ok(Topology::Standalone)
        } else if is_word(text, "leader") {
            Ok(Topology::Leader)
        } else if is_word(text, "initializer") {
            Ok(Topology::Initializer)
        } else {
            Err(Error::UnknownTopology(text.to_owned()))
        }
    }
}

impl UpdateStrategy {
    /// Reads the name of an update strategy.
    pub fn from_str(text: &str) -> (r: Result<UpdateStrategy, Error>)
        ensures
            match r {
                Ok(strategy) => strategy_of(text@) == Some(strategy),
                Err(e) => strategy_of(text@) is None && e@ == ErrorView::UnknownStrategy(text@),
            },
    {
        if is_word(text, "none") {
            Ok(UpdateStrategy::Never)
        } else if is_word(text, "at-once") {
            Ok(UpdateStrategy::AtOnce)
        } else if is_word(text, "rolling") {
            Ok(UpdateStrategy::Rolling)
        } else {
            Err(Error::UnknownStrategy(text.to_owned()))
        }
    }
}

impl Arguments {
    /// The arguments of a command line that gave none.
    pub fn empty() -> (args: Arguments)
        ensures
            args.config_from is None,
            args.strategy is None,
            args.archive is None,
            args.pkg_ident_or_artifact is None,
            args.key is None,
            args.email is None,
            args.user is None,
            args.service is None,
            args.infile is None,
            args.outfile is None,
            args.topology is None,
            args.expire_days is None,
            args.url is None,
            args.group is None,
            args.bind@.len() == 0,
            args.path is None,
            args.listen_peer is None,
            args.listen_gossip is None,
            args.listen_http is None,
            args.peer@.len() == 0,
            !args.permanent_peer,
            args.service_group is None,
            args.file_path is None,
            args.version_number is None,
            args.ring is None,
            !args.verbose,
            !args.no_color,
            args.organization is None,
    {
        Arguments {
            config_from: None,
            strategy: None,
            archive: None,
            pkg_ident_or_artifact: None,
            key: None,
            email: None,
            user: None,
            service: None,
            infile: None,
            outfile: None,
            topology: None,
            expire_days: None,
            url: None,
            group: None,
            bind: Vec::new(),
            path: None,
            listen_peer: None,
            listen_gossip: None,
            listen_http: None,
            peer: Vec::new(),
            permanent_peer: false,
            service_group: None,
            file_path: None,
            version_number: None,
            ring: None,
            verbose: false,
            no_color: false,
            organization: None,
        }
    }
}

/// The first thing wrong with a command line, if anything is: an unknown
/// sub-command, then an unknown update strategy, then an unknown topology, then
/// an unreadable listen address, the deprecated spelling before the gossip
/// address and that before the status address, then a service group that is
/// not the text form of one.
pub open spec fn rejection(subcommand: Seq<char>, args: Arguments) -> Option<ErrorView> {
    if command_of(subcommand) is None {
        Some(ErrorView::CommandNotImplemented(subcommand))
    } else if args.strategy is Some && strategy_of(args.strategy->Some_0@) is None {
        Some(ErrorView::UnknownStrategy(args.strategy->Some_0@))
    } else if args.topology is Some && topology_of(args.topology->Some_0@) is None {
        Some(ErrorView::UnknownTopology(args.topology->Some_0@))
    } else if args.listen_peer is Some && args.listen_peer->Some_0.parsed is None {
        Some(ErrorView::InvalidListenAddr(args.listen_peer->Some_0.text@))
    } else if args.listen_gossip is Some && args.listen_gossip->Some_0.parsed is None {
        Some(ErrorView::InvalidListenAddr(args.listen_gossip->Some_0.text@))
    } else if args.listen_http is Some && args.listen_http->Some_0.parsed is None {
        Some(ErrorView::InvalidListenAddr(args.listen_http->Some_0.text@))
    } else if args.service_group is Some && !is_service_group(args.service_group->Some_0@) {
        Some(ErrorView::InvalidServiceGroup(args.service_group->Some_0@))
    } else {
        None
    }
}

/// The ring key's source: the ring argument before inline key material from
/// the environment, and that before the ring that the environment names.
pub open spec fn ring_source_of(args: Arguments, env: Environment) -> RingSource {
    match args.ring {
        Some(name) => RingSource::Named(name),
        None => match env.ring_key {
            Some(material) => RingSource::Inline(material),
            None => match env.ring {
                Some(name) => RingSource::Named(name),
                None => RingSource::Unprotected,
            },
        },
    }
}

/// The address on which rumors are heard: the gossip address where it is given,
/// else the one under the deprecated spelling, else every interface at the
/// default port.
pub open spec fn gossip_listen_of(args: Arguments) -> ListenAddr {
    match args.listen_gossip {
        Some(addr) => addr.parsed->Some_0,
        None => match args.listen_peer {
            Some(addr) => addr.parsed->Some_0,
            None => ListenAddr { ip: UNSPECIFIED_IP, port: DEFAULT_GOSSIP_PORT },
        },
    }
}

/// The package to run: none where no package argument was given; the
/// identifier read from the artifact where the argument names a file; the
/// argument itself otherwise.
pub open spec fn package_of(args: Arguments, env: Environment) -> Option<String> {
    match args.pkg_ident_or_artifact {
        Some(text) => match env.artifact_ident {
            Some(ident) => Some(ident),
            None => Some(text),
        },
        None => None,
    }
}

/// The configuration is the one that the sub-command, the arguments and the
/// environment call for.
pub open spec fn configured(
    cfg: Config,
    subcommand: Seq<char>,
    args: Arguments,
    env: Environment,
) -> bool {
    &&& Some(cfg.command) == command_of(subcommand)
    &&& cfg.config_from == args.config_from
    &&& cfg.update_strategy == match args.strategy {
        Some(text) => strategy_of(text@)->Some_0,
        None => UpdateStrategy::Never,
    }
    &&& cfg.archive == args.archive
    &&& cfg.package == package_of(args, env)
    &&& cfg.local_artifact == if args.pkg_ident_or_artifact is Some && env.artifact_ident is Some {
        args.pkg_ident_or_artifact
    } else {
        None
    }
    &&& cfg.key == args.key
    &&& cfg.email == args.email
    &&& cfg.user_key == args.user
    &&& cfg.service_key == args.service
    &&& cfg.infile == args.infile
    &&& cfg.outfile == args.outfile
    &&& cfg.topology == match args.topology {
        Some(text) => topology_of(text@)->Some_0,
        None => Topology::Standalone,
    }
    &&& cfg.expire_days == args.expire_days
    &&& cfg.url@ == match args.url {
        Some(url) => url@,
        None => match env.depot_url {
            Some(url) => url@,
            None => DEFAULT_DEPOT_URL@,
        },
    }
    &&& cfg.group@ == match args.group {
        Some(group) => group@,
        None => DEFAULT_GROUP@,
    }
    &&& cfg.bind == args.bind
    &&& cfg.path == match args.path {
        Some(path) => path,
        None => env.data_path,
    }
    &&& cfg.gossip_listen == gossip_listen_of(args)
    &&& cfg.http_listen == match args.listen_http {
        Some(addr) => addr.parsed->Some_0,
        None => ListenAddr { ip: UNSPECIFIED_IP, port: DEFAULT_HTTP_PORT },
    }
    &&& cfg.gossip_peer == args.peer
    &&& cfg.gossip_permanent == args.permanent_peer
    &&& match args.service_group {
        Some(text) => cfg.service_group matches Some(group) && group@.well_formed()
            && group@.canonical() == text@,
        None => cfg.service_group is None,
    }
    &&& cfg.file_path == args.file_path
    &&& cfg.version_number == match args.version_number {
        Some(number) => number,
        None => 0,
    }
    &&& cfg.ring == ring_source_of(args, env)
    &&& cfg.verbose == args.verbose
    &&& cfg.no_color == args.no_color
    &&& cfg.organization == args.organization
    &&& cfg.listen_peer_deprecated == args.listen_peer is Some
}

/// The address that an address argument holds, or the error that names its text.
fn listen_addr(arg: AddrArg) -> (r: Result<ListenAddr, Error>)
    ensures
        match r {
            Ok(addr) => arg.parsed == Some(addr),
            Err(e) => arg.parsed is None && e@ == ErrorView::InvalidListenAddr(arg.text@),
        },
{
    match arg.parsed {
        Some(addr) => Ok(addr),
        None => Err(Error::InvalidListenAddr(arg.text)),
    }
}

/// Builds the configuration from a sub-command's name, its arguments and the
/// environment. A command line with something wrong is turned away with the
/// first such thing; any other gives the configuration it calls for.
pub fn config_from_args(subcommand: &str, args: Arguments, env: Environment) -> (r: Result<
    Config,
    Error,
>)
    ensures
        match r {
            Ok(cfg) => rejection(subcommand@, args) is None && configured(
                cfg,
                subcommand@,
                args,
                env,
            ),
            Err(e) => rejection(subcommand@, args) == Some(e@),
        },
{
    let command = match Command::from_str(subcommand) {
        Ok(command) => command,
        Err(e) => {
            return Err(e);
        },
    };
    let update_strategy = match &args.strategy {
        Some(text) => match UpdateStrategy::from_str(text.as_str()) {
            Ok(strategy) => strategy,
            Err(e) => {
                return Err(e);
            },
        },
        None => UpdateStrategy::Never,
    };
    let (package, local_artifact) = match args.pkg_ident_or_artifact {
        Some(text) => match env.artifact_ident {
            Some(ident) => (Some(ident), Some(text)),
            None => (Some(text), None),
        },
        None => (None, None),
    };
    let topology = match &args.topology {
        Some(text) => match Topology::from_str(text.as_str()) {
            Ok(topology) => topology,
            Err(e) => {
                return Err(e);
            },
        },
        None => Topology::Standalone,
    };
    let url = match args.url {
        Some(url) => url,
        None => match env.depot_url {
            Some(url) => url,
            None => DEFAULT_DEPOT_URL.to_owned(),
        },
    };
    let group = match args.group {
        Some(group) => group,
        None => DEFAULT_GROUP.to_owned(),
    };
    let path = match args.path {
        Some(path) => path,
        None => env.data_path,
    };
    let mut gossip_listen = ListenAddr { ip: UNSPECIFIED_IP, port: DEFAULT_GOSSIP_PORT };
    let mut listen_peer_deprecated = false;
    match args.listen_peer {
        Some(arg) => {
            listen_peer_deprecated = true;
            match listen_addr(arg) {
                Ok(addr) => {
                    gossip_listen = addr;
                },
                Err(e) => {
                    return Err(e);
                },
            }
        },
        None => {},
    }
    match args.listen_gossip {
        Some(arg) => match listen_addr(arg) {
            Ok(addr) => {
                gossip_listen = addr;
            },
            Err(e) => {
                return Err(e);
            },
        },
        None => {},
    }
    let http_listen = match args.listen_http {
        Some(arg) => match listen_addr(arg) {
            Ok(addr) => addr,
            Err(e) => {
                return Err(e);
            },
        },
        None => ListenAddr { ip: UNSPECIFIED_IP, port: DEFAULT_HTTP_PORT },
    };
    let service_group = match &args.service_group {
        Some(text) => match ServiceGroup::from_str(text.as_str()) {
            Ok(group) => Some(group),
            Err(e) => {
                return Err(e);
            },
        },
        None => None,
    };
    let version_number = match args.version_number {
        Some(number) => number,
        None => 0,
    };
    let ring = match args.ring {
        Some(name) => RingSource::Named(name),
        None => match env.ring_key {
            Some(material) => RingSource::Inline(material),
            None => match env.ring {
                Some(name) => RingSource::Named(name),
                None => RingSource::Unprotected,
            },
        },
    };
    Ok(
        Config {
            command,
            config_from: args.config_from,
            update_strategy,
            archive: args.archive,
            package,
            local_artifact,
            key: args.key,
            email: args.email,
            user_key: args.user,
            service_key: args.service,
            infile: args.infile,
            outfile: args.outfile,
            topology,
            expire_days: args.expire_days,
            url,
            group,
            bind: args.bind,
            path,
            gossip_listen,
            http_listen,
            gossip_peer: args.peer,
            gossip_permanent: args.permanent_peer,
            service_group,
            file_path: args.file_path,
            version_number,
            ring,
            verbose: args.verbose,
            no_color: args.no_color,
            organization: args.organization,
            listen_peer_deprecated,
        },
    )
}

} // verus!
