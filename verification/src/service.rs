//! What the program runs as: its arguments, checked, and the service that they ask for.

use vstd::prelude::*;
use crate::tunnel_config;
use crate::text;
use crate::parts;
use crate::app_config;
use crate::app_config::{ReloadableConfig, StaticArgs};
use crate::mux::connection::{MAX_STREAM_WINDOW, MIN_STREAM_WINDOW};
use crate::mux::event::TunnelEntry;
use crate::parts::Separator;
use crate::text::{decimal, same_text};
use crate::tunnel_config::{parse_port_range, parse_tunnel_arg, EntryView, TunnelArgError};

verus! {

#[derive(Debug, PartialEq, Eq, Structural, Clone, Copy)]
pub enum Role {
    Client,
    Server,
}

/// The address of a server.
pub struct Remote {
    pub url: String,
    pub scheme: String,
}

/// The arguments of the program.
pub struct Args {
    pub listen: String,
    pub listen_port: u16,
    pub admin_listen: String,
    pub admin_port: u16,
    pub role: Role,
    pub remote: Option<Remote>,
    pub key: String,
    pub cert: String,
    pub tls_host: String,
    pub concurrent: usize,
    pub threads: usize,
    pub idle_timeout_secs: usize,
    pub mux_stream_window: u32,
    pub max_connections: usize,
    pub tproxy: bool,
    pub tunnel: Vec<String>,
    pub tunnel_client_id: String,
    pub tunnel_port_range: String,
}

/// Where the log goes.
pub enum LogTarget {
    /// To the terminal.
    Terminal,
    /// To a file a day, whose names start so.
    Daily(String),
}

/// Where the log goes: a profiled program logs to the terminal.
pub fn log_target(profile: bool, log: &str) -> (r: LogTarget)
    ensures
        match r {
            LogTarget::Terminal => profile || log@.len() == 0,
            LogTarget::Daily(prefix) => !profile && log@.len() > 0 && prefix@ == log@,
        },
{
    if profile || log.is_empty() {
        LogTarget::Terminal
    } else {
        LogTarget::Daily(log.to_owned())
    }
}

/// The window of a stream is out of range.
#[derive(Debug, PartialEq, Eq, Structural, Clone, Copy)]
pub struct WindowOutOfRange;

impl WindowOutOfRange {
    pub fn message(&self) -> (r: String)
        ensures
            r@ == "--mux-stream-window must be between "@ + text::digits(MIN_STREAM_WINDOW as nat)
                + " and "@ + text::digits(MAX_STREAM_WINDOW as nat) + " bytes"@,
    {
        let mut s: String = "--mux-stream-window must be between ".to_owned();
        s.push_str(decimal(MIN_STREAM_WINDOW as u64).as_str());
        s.push_str(" and ");
        s.push_str(decimal(MAX_STREAM_WINDOW as u64).as_str());
        s.push_str(" bytes");
        s
    }
}

/// Checks the window of a stream.
pub fn validate_mux_stream_window(window: u32) -> (r: Result<(), WindowOutOfRange>)
    ensures
        r is Ok <==> MIN_STREAM_WINDOW <= window <= MAX_STREAM_WINDOW,
{
    if !(MIN_STREAM_WINDOW <= window && window <= MAX_STREAM_WINDOW) {
        return Err(WindowOutOfRange);
    }
    Ok(())
}

/// Why the service cannot be started.
#[derive(Debug, PartialEq, Eq, Structural, Clone, Copy)]
pub enum ServiceError {
    Window,
    /// "--tunnel-client-id is required when --tunnel is specified"
    ClientId,
    Tunnel(TunnelArgError),
    PortRange(TunnelArgError),
    /// "unsupported"
    Scheme,
    /// A client has not been told its server.
    NoRemote,
}

/// What the program runs as.
#[derive(Debug)]
pub enum Service {
    /// A client whose tunnels expose services.
    TunnelClient,
    /// A proxy over a connection of this kind.
    QuicProxy,
    TlsProxy,
    /// A server; with the port ranges, it takes tunnels on their ports, but for the reserved ones.
    Server { ranges: Option<Vec<(u16, u16)>>, reserved: Vec<u16> },
}

/// A service and the settings that it starts with.
pub struct ServicePlan {
    pub service: Service,
    pub reloadable: ReloadableConfig,
    pub static_args: StaticArgs,
}

/// The tunnels that arguments name; the first that cannot be read decides.
pub open spec fn tunnels_of(args: Seq<Seq<char>>) -> Result<Seq<EntryView>, TunnelArgError>
    decreases args.len(),
{
    if args.len() == 0 {
        Ok(Seq::empty())
    } else {
        match tunnels_of(args.drop_last()) {
            Ok(before) => match tunnel_config::tunnel_entry(args.last()) {
                Ok(e) => Ok(before.push(e)),
                Err(e) => Err(e),
            },
            Err(e) => Err(e),
        }
    }
}

/// The port ranges that the arguments name.
pub open spec fn port_ranges(args: Args) -> Result<Option<Seq<(u16, u16)>>, TunnelArgError> {
    if args.tunnel_port_range@.len() == 0 {
        Ok(None)
    } else {
        match tunnel_config::ranges_of(parts::pieces(args.tunnel_port_range@, Separator::Char(','))) {
            Ok(ranges) => Ok(Some(ranges)),
            Err(e) => Err(e),
        }
    }
}

/// What is wrong with the arguments, if anything: the window first, then the tunnels, the port
/// ranges, and for a client its server and the kind of connection.
pub open spec fn args_error(args: Args) -> Option<ServiceError> {
    let tunnels = parts::texts(args.tunnel@);
    if !(MIN_STREAM_WINDOW <= args.mux_stream_window <= MAX_STREAM_WINDOW) {
        Some(ServiceError::Window)
    } else if tunnels.len() > 0 && args.tunnel_client_id@.len() == 0 {
        Some(ServiceError::ClientId)
    } else if tunnels_of(tunnels) is Err {
        Some(ServiceError::Tunnel(tunnels_of(tunnels)->Err_0))
    } else if port_ranges(args) is Err {
        Some(ServiceError::PortRange(port_ranges(args)->Err_0))
    } else if args.role == Role::Client {
        match args.remote {
            Some(remote) => if tunnels.len() == 0 && remote.scheme@ != "quic"@ && remote.scheme@
                != "tls"@ {
                Some(ServiceError::Scheme)
            } else {
                None
            },
            None => Some(ServiceError::NoRemote),
        }
    } else {
        None
    }
}

/// The service that the arguments ask for.
pub open spec fn serves(args: Args, s: Service) -> bool {
    match args.role {
        Role::Client => if args.tunnel@.len() > 0 {
            s is TunnelClient
        } else {
            &&& args.remote matches Some(remote)
            &&& if remote.scheme@ == "quic"@ {
                s is QuicProxy
            } else {
                s is TlsProxy
            }
        },
        Role::Server => {
            &&& s matches Service::Server { ranges, reserved }
            &&& match (ranges, port_ranges(args)) {
                (Some(v), Ok(Some(due))) => v@ == due && reserved@ == seq![
                    args.listen_port,
                    args.admin_port,
                ],
                (None, Ok(None)) => reserved@.len() == 0,
                _ => false,
            }
        },
    }
}

/// The settings are those of the arguments.
pub open spec fn shows(args: Args, s: StaticArgs) -> bool {
    &&& s.listen@ == args.listen@
    &&& s.role@ == match args.role {
        Role::Client => "client"@,
        Role::Server => "server"@,
    }
    &&& s.is_tunnel == (args.tunnel@.len() > 0)
    &&& match (s.remote, args.remote) {
        (Some(a), Some(b)) => a@ == b.url@,
        (None, None) => true,
        _ => false,
    }
    &&& s.key@ == args.key@
    &&& s.cert@ == args.cert@
    &&& s.tls_host@ == args.tls_host@
    &&& s.concurrent == args.concurrent
    &&& s.threads == args.threads
    &&& s.idle_timeout_secs == args.idle_timeout_secs
    &&& s.max_connections == args.max_connections
    &&& s.admin_listen@ == args.admin_listen@
    &&& s.tproxy == args.tproxy
}

proof fn lemma_tunnel_error_stays(args: Seq<Seq<char>>, i: int)
    requires
        0 <= i <= args.len(),
        tunnels_of(args.take(i)) is Err,
    ensures
        tunnels_of(args) == tunnels_of(args.take(i)),
    decreases args.len(),
{
    if i == args.len() {
        assert(args.take(i) =~= args);
    } else {
        assert(args.drop_last().take(i) =~= args.take(i));
        lemma_tunnel_error_stays(args.drop_last(), i);
    }
}

fn parse_tunnels(args: &Vec<String>) -> (r: Result<Vec<TunnelEntry>, TunnelArgError>)
    ensures
        match tunnels_of(parts::texts(args@)) {
            Ok(es) => r is Ok && app_config::entry_views(r->Ok_0@) == es && es.len() == args@.len(),
            Err(e) => r is Err && r->Err_0 == e,
        },
{
    let ghost all = parts::texts(args@);
    let mut entries: Vec<TunnelEntry> = Vec::new();
    let mut i: usize = 0;
    proof {
        assert(all.take(0) =~= Seq::empty());
        assert(app_config::entry_views(entries@) =~= Seq::empty());
    }
    while i < args.len()
        invariant
            i <= args@.len(),
            all == parts::texts(args@),
            entries@.len() == i,
            tunnels_of(all.take(i as int)) == Ok::<Seq<EntryView>, TunnelArgError>(
                app_config::entry_views(entries@),
            ),
        decreases args@.len() - i,
    {
        let ghost before = entries@;
        proof {
            assert(all.take(i + 1).drop_last() =~= all.take(i as int));
            assert(all.take(i + 1).last() == args@[i as int]@);
        }
        match parse_tunnel_arg(args[i].as_str()) {
            Ok(e) => {
                let ghost view = e@;
                entries.push(e);
                assert(app_config::entry_views(entries@) =~= app_config::entry_views(before).push(view));
            },
            Err(e) => {
                proof {
                    lemma_tunnel_error_stays(all, i + 1);
                }
                return Err(e);
            },
        }
        i += 1;
    }
    assert(all.take(i as int) =~= all);
    Ok(entries)
}

fn static_args(args: &Args) -> (r: StaticArgs)
    ensures
        shows(*args, r),
{
    StaticArgs {
        listen: args.listen.clone(),
        role: match args.role {
            Role::Client => "client".to_owned(),
            Role::Server => "server".to_owned(),
        },
        is_tunnel: args.tunnel.len() > 0,
        remote: match &args.remote {
            Some(r) => Some(r.url.clone()),
            None => None,
        },
        key: args.key.clone(),
        cert: args.cert.clone(),
        tls_host: args.tls_host.clone(),
        concurrent: args.concurrent,
        threads: args.threads,
        idle_timeout_secs: args.idle_timeout_secs,
        max_connections: args.max_connections,
        admin_listen: args.admin_listen.clone(),
        tproxy: args.tproxy,
    }
}

/// What the arguments come to.
pub open spec fn plans(args: Args, r: Result<ServicePlan, ServiceError>) -> bool {
    match args_error(args) {
        Some(e) => r is Err && r->Err_0 == e,
        None => {
            &&& r is Ok
            &&& serves(args, r->Ok_0.service)
            &&& shows(args, r->Ok_0.static_args)
            &&& tunnels_of(parts::texts(args.tunnel@)) == Ok::<Seq<EntryView>, TunnelArgError>(
                app_config::entry_views(r->Ok_0.reloadable.tunnel_entries@),
            )
            &&& r->Ok_0.reloadable.tunnel_client_id@ == args.tunnel_client_id@
        },
    }
}

/// Checks the arguments and says what to run.
pub fn plan_service(args: &Args) -> (r: Result<ServicePlan, ServiceError>)
    ensures
        plans(*args, r),
{
    if validate_mux_stream_window(args.mux_stream_window).is_err() {
        return Err(ServiceError::Window);
    }
    if args.tunnel.len() > 0 && args.tunnel_client_id.as_str().is_empty() {
        return Err(ServiceError::ClientId);
    }
    let tunnel_entries = match parse_tunnels(&args.tunnel) {
        Ok(entries) => entries,
        Err(e) => {
            return Err(ServiceError::Tunnel(e));
        },
    };
    let ranges: Option<Vec<(u16, u16)>> = if args.tunnel_port_range.as_str().is_empty() {
        None
    } else {
        match parse_port_range(args.tunnel_port_range.as_str()) {
            Ok(ranges) => Some(ranges),
            Err(e) => {
                return Err(ServiceError::PortRange(e));
            },
        }
    };
    let service = match args.role {
        Role::Client => {
            let remote = match &args.remote {
                Some(remote) => remote,
                None => {
                    return Err(ServiceError::NoRemote);
                },
            };
            if args.tunnel.len() > 0 {
                Service::TunnelClient
            } else if same_text(remote.scheme.as_str(), "quic") {
                Service::QuicProxy
            } else if same_text(remote.scheme.as_str(), "tls") {
                Service::TlsProxy
            } else {
                return Err(ServiceError::Scheme);
            }
        },
        Role::Server => {
            let mut reserved: Vec<u16> = Vec::new();
            if ranges.is_some() {
                reserved.push(args.listen_port);
                reserved.push(args.admin_port);
                assert(reserved@ =~= seq![args.listen_port, args.admin_port]);
            }
            Service::Server { ranges, reserved }
        },
    };
    Ok(
        ServicePlan {
            service,
            reloadable: ReloadableConfig {
                tunnel_entries,
                tunnel_client_id: args.tunnel_client_id.clone(),
            },
            static_args: static_args(args),
        },
    )
}

/// What a reader makes of each of some texts; the first that cannot be read decides.
pub open spec fn all_read(
    read: spec_fn(Seq<char>) -> Result<EntryView, TunnelArgError>,
    args: Seq<Seq<char>>,
) -> Result<Seq<EntryView>, TunnelArgError>
    decreases args.len(),
{
    if args.len() == 0 {
        Ok(Seq::empty())
    } else {
        match all_read(read, args.drop_last()) {
            Ok(before) => match read(args.last()) {
                Ok(e) => Ok(before.push(e)),
                Err(e) => Err(e),
            },
            Err(e) => Err(e),
        }
    }
}

proof fn lemma_all_read(
    read: spec_fn(Seq<char>) -> Result<EntryView, TunnelArgError>,
    args: Seq<Seq<char>>,
)
    ensures
        all_read(read, args) is Ok <==> forall|i: int|
            0 <= i < args.len() ==> read(#[trigger] args[i]) is Ok,
        all_read(read, args) is Ok ==> all_read(read, args)->Ok_0.len() == args.len(),
        all_read(read, args) is Ok ==> forall|i: int|
            0 <= i < args.len() ==> read(#[trigger] args[i])->Ok_0 == all_read(
                read,
                args,
            )->Ok_0[i],
        all_read(read, args) is Err ==> exists|i: int|
            0 <= i < args.len() && read(#[trigger] args[i]) is Err && all_read(read, args)->Err_0
                == read(args[i])->Err_0 && forall|j: int|
                0 <= j < i ==> read(#[trigger] args[j]) is Ok,
    decreases args.len(),
{
    if args.len() > 0 {
        let q = args.drop_last();
        lemma_all_read(read, q);
        let n = args.len() - 1;
        assert(args[n] == args.last());
        assert forall|i: int| 0 <= i < n implies q[i] == args[i] by {}
        if all_read(read, q) is Ok {
            assert forall|i: int| 0 <= i < n implies read(#[trigger] args[i]) is Ok by {
                assert(read(q[i]) is Ok);
            }
            if read(args.last()) is Ok {
                assert forall|i: int| 0 <= i < args.len() implies read(#[trigger] args[i]) is Ok
                    && read(args[i])->Ok_0 == all_read(read, args)->Ok_0[i] by {
                    if i < n {
                        assert(read(q[i])->Ok_0 == all_read(read, q)->Ok_0[i]);
                    }
                }
            } else {
                assert(read(args[n]) is Err);
            }
        } else {
            let i = choose|i: int|
                0 <= i < q.len() && read(#[trigger] q[i]) is Err && all_read(read, q)->Err_0
                    == read(q[i])->Err_0 && forall|j: int|
                    0 <= j < i ==> read(#[trigger] q[j]) is Ok;
            assert(read(args[i]) is Err);
            assert forall|j: int| 0 <= j < i implies read(#[trigger] args[j]) is Ok by {
                assert(read(q[j]) is Ok);
            }
        }
    }
}

proof fn lemma_tunnels_are_all_read(args: Seq<Seq<char>>)
    ensures
        tunnels_of(args) == all_read(|s: Seq<char>| tunnel_config::tunnel_entry(s), args),
    decreases args.len(),
{
    if args.len() > 0 {
        lemma_tunnels_are_all_read(args.drop_last());
    }
}

proof fn lemma_tunnels(args: Seq<Seq<char>>)
    ensures
        tunnels_of(args) is Ok <==> forall|i: int|
            0 <= i < args.len() ==> tunnel_config::tunnel_entry(#[trigger] args[i]) is Ok,
        tunnels_of(args) is Ok ==> tunnels_of(args)->Ok_0.len() == args.len(),
        tunnels_of(args) is Ok ==> forall|i: int|
            0 <= i < args.len() ==> tunnel_config::tunnel_entry(#[trigger] args[i])->Ok_0
                == tunnels_of(args)->Ok_0[i],
        tunnels_of(args) is Err ==> exists|i: int|
            0 <= i < args.len() && tunnel_config::tunnel_entry(#[trigger] args[i]) is Err
                && tunnels_of(args)->Err_0 == tunnel_config::tunnel_entry(args[i])->Err_0
                && forall|j: int|
                0 <= j < i ==> tunnel_config::tunnel_entry(#[trigger] args[j]) is Ok,
{
    let read = |s: Seq<char>| tunnel_config::tunnel_entry(s);
    lemma_tunnels_are_all_read(args);
    lemma_all_read(read, args);
    if all_read(read, args) is Err {
        let i = choose|i: int|
            0 <= i < args.len() && read(#[trigger] args[i]) is Err && all_read(read, args)->Err_0
                == read(args[i])->Err_0 && forall|j: int|
                0 <= j < i ==> read(#[trigger] args[j]) is Ok;
        assert(tunnel_config::tunnel_entry(args[i]) is Err);
        assert forall|j: int| 0 <= j < i implies tunnel_config::tunnel_entry(
            #[trigger] args[j],
        ) is Ok by {
            assert(read(args[j]) is Ok);
        }
    } else {
        assert forall|i: int| 0 <= i < args.len() implies tunnel_config::tunnel_entry(
            #[trigger] args[i],
        ) is Ok && tunnel_config::tunnel_entry(args[i])->Ok_0 == tunnels_of(args)->Ok_0[i] by {
            assert(read(args[i]) is Ok);
        }
    }
}

/// Tunnels are read exactly when each of them is, one entry for one; otherwise the first that
/// cannot be read says why.
pub proof fn tunnels_are_read_one_by_one(args: Seq<Seq<char>>)
    ensures
        tunnels_of(args) is Ok <==> forall|i: int|
            0 <= i < args.len() ==> tunnel_config::tunnel_entry(#[trigger] args[i]) is Ok,
        tunnels_of(args) is Ok ==> tunnels_of(args)->Ok_0.len() == args.len() && forall|i: int|
            0 <= i < args.len() ==> tunnel_config::tunnel_entry(#[trigger] args[i])->Ok_0
                == tunnels_of(args)->Ok_0[i],
        tunnels_of(args) is Err ==> exists|i: int|
            0 <= i < args.len() && tunnel_config::tunnel_entry(#[trigger] args[i]) is Err
                && tunnels_of(args)->Err_0 == tunnel_config::tunnel_entry(args[i])->Err_0
                && forall|j: int|
                0 <= j < i ==> tunnel_config::tunnel_entry(#[trigger] args[j]) is Ok,
{
    lemma_tunnels(args);
}

/// Every tunnel that is named can be read.
#[verifier::opaque]
pub open spec fn tunnels_readable(v: Seq<String>) -> bool {
    forall|i: int| 0 <= i < v.len() ==> tunnel_config::tunnel_entry((#[trigger] v[i])@) is Ok
}

/// Every port range between two commas can be read.
#[verifier::opaque]
pub open spec fn ranges_readable(s: Seq<char>) -> bool {
    let p = parts::pieces(s, Separator::Char(','));
    forall|i: int| 0 <= i < p.len() ==> tunnel_config::range_of(#[trigger] p[i]) is Ok
}

proof fn lemma_tunnels_readable(v: Seq<String>)
    ensures
        tunnels_of(parts::texts(v)) is Ok <==> tunnels_readable(v),
{
    reveal(tunnels_readable);
    let texts = parts::texts(v);
    let read = |s: Seq<char>| tunnel_config::tunnel_entry(s);
    lemma_tunnels_are_all_read(texts);
    lemma_all_read(read, texts);
    if tunnels_of(texts) is Ok {
        assert forall|i: int| 0 <= i < v.len() implies tunnel_config::tunnel_entry(
            (#[trigger] v[i])@,
        ) is Ok by {
            assert(read(texts[i]) is Ok);
        }
    } else {
        let i = choose|i: int| 0 <= i < texts.len() && read(#[trigger] texts[i]) is Err;
        assert(v[i]@ == texts[i]);
    }
}

proof fn lemma_ranges_readable(s: Seq<char>)
    ensures
        tunnel_config::ranges_of(parts::pieces(s, Separator::Char(','))) is Ok <==> ranges_readable(
            s,
        ),
{
    reveal(ranges_readable);
    tunnel_config::ranges_are_read_one_by_one(parts::pieces(s, Separator::Char(',')));
}

/// The program starts exactly on these arguments: the window lies between sixteen kilobytes and
/// four megabytes, tunnels come with the client's id and can be read, so can the port ranges where
/// there are any, and a client knows its server and, unless it has tunnels, speaks one of the two
/// protocols to it.
pub proof fn sound_arguments_are_taken(args: Args)
    ensures
        args_error(args) is None <==> {
            &&& 16384 <= args.mux_stream_window <= 4194304
            &&& args.tunnel@.len() > 0 ==> args.tunnel_client_id@.len() > 0
            &&& tunnels_readable(args.tunnel@)
            &&& args.tunnel_port_range@.len() > 0 ==> ranges_readable(args.tunnel_port_range@)
            &&& args.role is Client ==> {
                &&& args.remote is Some
                &&& args.tunnel@.len() > 0 || args.remote->Some_0.scheme@ == seq![
                    'q',
                    'u',
                    'i',
                    'c',
                ] || args.remote->Some_0.scheme@ == seq!['t', 'l', 's']
            }
        },
{
    lemma_tunnels_readable(args.tunnel@);
    lemma_ranges_readable(args.tunnel_port_range@);
    reveal_strlit("quic");
    reveal_strlit("tls");
    assert("quic"@ =~= seq!['q', 'u', 'i', 'c']);
    assert("tls"@ =~= seq!['t', 'l', 's']);
}

/// What the program complains of is wrong indeed, and nothing that is looked at before it is.
pub proof fn complaints_are_true(args: Args)
    requires
        args_error(args) is Some,
    ensures
        match args_error(args)->Some_0 {
            ServiceError::Window => args.mux_stream_window < 16384 || args.mux_stream_window
                > 4194304,
            ServiceError::ClientId => {
                &&& 16384 <= args.mux_stream_window <= 4194304
                &&& args.tunnel@.len() > 0 && args.tunnel_client_id@.len() == 0
            },
            ServiceError::Tunnel(e) => {
                &&& 16384 <= args.mux_stream_window <= 4194304
                &&& args.tunnel_client_id@.len() > 0
                &&& exists|i: int|
                    0 <= i < args.tunnel@.len() && tunnel_config::tunnel_entry(
                        (#[trigger] args.tunnel@[i])@,
                    ) == Err::<EntryView, TunnelArgError>(e)
            },
            ServiceError::PortRange(e) => args.tunnel_port_range@.len() > 0 && {
                let p = parts::pieces(args.tunnel_port_range@, Separator::Char(','));
                exists|i: int|
                    0 <= i < p.len() && tunnel_config::range_of(#[trigger] p[i]) == Err::<
                        (u16, u16),
                        TunnelArgError,
                    >(e)
            },
            ServiceError::NoRemote => args.role is Client && args.remote is None,
            ServiceError::Scheme => {
                &&& args.role is Client && args.tunnel@.len() == 0
                &&& args.remote matches Some(remote) && remote.scheme@ != seq!['q', 'u', 'i', 'c']
                    && remote.scheme@ != seq!['t', 'l', 's']
            },
        },
{
    let texts = parts::texts(args.tunnel@);
    let p = parts::pieces(args.tunnel_port_range@, Separator::Char(','));
    lemma_tunnels(texts);
    tunnel_config::ranges_are_read_one_by_one(p);
    reveal_strlit("quic");
    reveal_strlit("tls");
    assert("quic"@ =~= seq!['q', 'u', 'i', 'c']);
    assert("tls"@ =~= seq!['t', 'l', 's']);
    if args_error(args)->Some_0 is Tunnel {
        let i = choose|i: int|
            0 <= i < texts.len() && tunnel_config::tunnel_entry(#[trigger] texts[i]) is Err
                && tunnels_of(texts)->Err_0 == tunnel_config::tunnel_entry(texts[i])->Err_0;
        assert(args.tunnel@[i]@ == texts[i]);
        assert(tunnel_config::tunnel_entry(args.tunnel@[i]@) is Err);
    }
    if args_error(args)->Some_0 is PortRange {
        let i = choose|i: int|
            0 <= i < p.len() && tunnel_config::range_of(#[trigger] p[i]) is Err
                && tunnel_config::ranges_of(p)->Err_0 == tunnel_config::range_of(p[i])->Err_0;
        assert(tunnel_config::range_of(p[i]) is Err);
    }
}

/// A client with tunnels exposes services, one without is a proxy over the protocol of its
/// server's address; a server takes tunnels exactly when it was given port ranges, on all of them
/// but not on the ports that it listens on itself.
pub proof fn service_fits_the_arguments(args: Args, s: Service)
    requires
        args_error(args) is None,
        serves(args, s),
    ensures
        args.role is Client && args.tunnel@.len() > 0 <==> s is TunnelClient,
        s is QuicProxy <==> args.role is Client && args.tunnel@.len() == 0
            && args.remote->Some_0.scheme@ == seq!['q', 'u', 'i', 'c'],
        s is TlsProxy <==> args.role is Client && args.tunnel@.len() == 0
            && args.remote->Some_0.scheme@ == seq!['t', 'l', 's'],
        args.role is Server <==> s is Server,
        match s {
            Service::Server { ranges, reserved } => {
                &&& ranges is Some <==> args.tunnel_port_range@.len() > 0
                &&& match ranges {
                    Some(v) => {
                        let p = parts::pieces(args.tunnel_port_range@, Separator::Char(','));
                        &&& v@.len() == p.len()
                        &&& forall|i: int|
                            0 <= i < p.len() ==> tunnel_config::range_of(#[trigger] p[i]) == Ok::<
                                (u16, u16),
                                TunnelArgError,
                            >(v@[i])
                        &&& reserved@.contains(args.listen_port)
                        &&& reserved@.contains(args.admin_port)
                        &&& forall|i: int|
                            0 <= i < reserved@.len() ==> #[trigger] reserved@[i] == args.listen_port
                                || reserved@[i] == args.admin_port
                    },
                    None => true,
                }
            },
            _ => true,
        },
{
    let p = parts::pieces(args.tunnel_port_range@, Separator::Char(','));
    tunnel_config::ranges_are_read_one_by_one(p);
    reveal_strlit("quic");
    reveal_strlit("tls");
    assert("quic"@ =~= seq!['q', 'u', 'i', 'c']);
    assert("tls"@ =~= seq!['t', 'l', 's']);
    if let Service::Server { ranges, reserved } = s {
        if ranges is Some {
            assert(reserved@[0] == args.listen_port);
            assert(reserved@[1] == args.admin_port);
            let v = ranges->Some_0;
            assert forall|i: int| 0 <= i < p.len() implies tunnel_config::range_of(#[trigger] p[i])
                == Ok::<(u16, u16), TunnelArgError>(v@[i]) by {
                assert(tunnel_config::range_of(p[i]) is Ok);
            }
        }
    }
}

/// Arguments that are taken are run as they are: the settings hold what the arguments say, there is
/// one tunnel for each that was named, in order, and the client keeps its name. Others are refused
/// with what is wrong with them.
pub proof fn arguments_are_run_as_they_are(args: Args, r: Result<ServicePlan, ServiceError>)
    requires
        plans(args, r),
    ensures
        r is Err <==> args_error(args) is Some,
        r matches Err(e) ==> args_error(args) == Some(e),
        r matches Ok(plan) ==> {
            let s = plan.static_args;
            &&& plan.reloadable.tunnel_entries@.len() == args.tunnel@.len()
            &&& plan.reloadable.tunnel_client_id@ == args.tunnel_client_id@
            &&& args.role is Server <==> s.role@ == seq!['s', 'e', 'r', 'v', 'e', 'r']
            &&& args.role is Client <==> s.role@ == seq!['c', 'l', 'i', 'e', 'n', 't']
            &&& s.is_tunnel <==> args.tunnel@.len() > 0
            &&& s.listen@ == args.listen@ && s.admin_listen@ == args.admin_listen@
            &&& s.key@ == args.key@ && s.cert@ == args.cert@ && s.tls_host@ == args.tls_host@
            &&& s.concurrent == args.concurrent && s.threads == args.threads
            &&& s.idle_timeout_secs == args.idle_timeout_secs && s.max_connections
                == args.max_connections
            &&& s.tproxy == args.tproxy
            &&& s.remote is Some <==> args.remote is Some
            &&& s.remote is Some ==> s.remote->Some_0@ == args.remote->Some_0.url@
        },
        r matches Ok(plan) ==> forall|i: int|
            0 <= i < args.tunnel@.len() ==> tunnel_config::tunnel_entry(
                (#[trigger] args.tunnel@[i])@,
            ) == Ok::<EntryView, TunnelArgError>(plan.reloadable.tunnel_entries@[i]@),
{
    reveal_strlit("client");
    reveal_strlit("server");
    assert("client"@ =~= seq!['c', 'l', 'i', 'e', 'n', 't']);
    assert("server"@ =~= seq!['s', 'e', 'r', 'v', 'e', 'r']);
    assert("client"@[0] != "server"@[0]);
    if let Ok(plan) = r {
        let texts = parts::texts(args.tunnel@);
        let es = app_config::entry_views(plan.reloadable.tunnel_entries@);
        let read = |s: Seq<char>| tunnel_config::tunnel_entry(s);
        lemma_tunnels_are_all_read(texts);
        lemma_all_read(read, texts);
        assert(es.len() == plan.reloadable.tunnel_entries@.len());
        assert forall|i: int| 0 <= i < args.tunnel@.len() implies tunnel_config::tunnel_entry(
            (#[trigger] args.tunnel@[i])@,
        ) == Ok::<EntryView, TunnelArgError>(plan.reloadable.tunnel_entries@[i]@) by {
            assert(texts[i] == args.tunnel@[i]@);
            assert(read(texts[i]) is Ok);
            assert(read(texts[i])->Ok_0 == es[i]);
        }
    }
}

} // verus!
