//! Where the connections of channels go, and with which credentials.

use vstd::prelude::*;
use crate::mux::pool;
use crate::common::utils;
use crate::common::utils::{get_hostport_from_url, get_listen_addr, parse_url, PartsView, UrlParts};
use crate::mux::pool::{channel_url_key, ChannelState, MuxSessionManager, PoolView, StateView};
use crate::text::same_text;

verus! {

/// How a session to a server starts.
pub enum ConnectPlan {
    /// Connect to this address.
    Direct(String),
    /// Connect to the address through an HTTP proxy.
    Proxy { proxy: String, addr: String },
}

/// Why an address is of no use.
#[derive(Debug, PartialEq, Eq, Structural, Clone, Copy)]
pub enum AddressError {
    /// "invalid url"
    Invalid,
    /// "unknown scheme"
    Scheme,
    /// The address names no host.
    Host,
}

/// The host and port of a server, given the parts of its address.
pub open spec fn server_addr(p: Option<PartsView>) -> Result<Seq<char>, AddressError> {
    match p {
        Some(parts) => if parts.scheme != "tcp"@ {
            Err(AddressError::Scheme)
        } else {
            match utils::hostport(parts) {
                Some(addr) => Ok(addr),
                None => Err(AddressError::Host),
            }
        },
        None => Err(AddressError::Invalid),
    }
}

/// The host and port of a server, given the parts of its address.
pub fn server_addr_of(p: Option<UrlParts>) -> (r: Result<String, AddressError>)
    ensures
        match server_addr(
            match p {
                Some(parts) => Some(parts@),
                None => None,
            },
        ) {
            Ok(addr) => r is Ok && r->Ok_0@ == addr,
            Err(e) => r is Err && r->Err_0 == e,
        },
{
    let parts = match p {
        Some(parts) => parts,
        None => {
            return Err(AddressError::Invalid);
        },
    };
    if !same_text(parts.scheme.as_str(), "tcp") {
        return Err(AddressError::Scheme);
    }
    match get_hostport_from_url(&parts) {
        Some(addr) => Ok(addr),
        None => Err(AddressError::Host),
    }
}

/// The plan to connect to a server, given the parts of its address.
pub open spec fn plans_connect(
    p: Option<PartsView>,
    proxy: Seq<char>,
    r: Result<ConnectPlan, AddressError>,
) -> bool {
    match server_addr(p) {
        Ok(addr) => {
            &&& r is Ok
            &&& match r->Ok_0 {
                ConnectPlan::Direct(a) => proxy.len() == 0 && a@ == addr,
                ConnectPlan::Proxy { proxy: p, addr: a } => proxy.len() > 0 && p@ == proxy && a@
                    == addr,
            }
        },
        Err(e) => r is Err && r->Err_0 == e,
    }
}

/// The plan to listen, given the parts of the address.
pub open spec fn plans_listen(p: Option<PartsView>, r: Result<String, AddressError>) -> bool {
    match server_addr(p) {
        Ok(addr) => {
            &&& r is Ok
            &&& r->Ok_0@ == if addr[0] == ':' {
                "0.0.0.0"@ + addr
            } else {
                addr
            }
        },
        Err(e) => r is Err && r->Err_0 == e,
    }
}

/// How a session to a server starts: through the proxy, where there is one.
pub fn plan_connect(url: &str, proxy: &str) -> (r: Result<ConnectPlan, AddressError>)
    ensures
        plans_connect(utils::url_parts(url@), proxy@, r),
{
    match server_addr_of(parse_url(url)) {
        Ok(addr) => {
            if proxy.is_empty() {
                Ok(ConnectPlan::Direct(addr))
            } else {
                Ok(ConnectPlan::Proxy { proxy: proxy.to_owned(), addr })
            }
        },
        Err(e) => Err(e),
    }
}

/// The address that a server listens on: without a host, on all interfaces.
pub fn plan_listen(url: &str) -> (r: Result<String, AddressError>)
    ensures
        plans_listen(utils::url_parts(url@), r),
{
    match server_addr_of(parse_url(url)) {
        Ok(addr) => {
            proof {
                reveal_strlit(":");
            }
            Ok(get_listen_addr(addr.as_str()))
        },
        Err(e) => Err(e),
    }
}

/// The value that a query gives a name, after `n` of its pairs: the last one counts, and only a
/// name that stands in the address as it is.
pub open spec fn overridden(
    query: Seq<(bool, Seq<char>, Seq<char>)>,
    name: Seq<char>,
    default: Seq<char>,
    n: nat,
) -> Seq<char>
    decreases n,
{
    if n == 0 {
        default
    } else {
        let pair = query[n - 1];
        if pair.0 && pair.1 == name {
            pair.2
        } else {
            overridden(query, name, default, (n - 1) as nat)
        }
    }
}

/// The key and the cipher of a session: the address may name its own.
pub open spec fn credentials_of(
    p: Option<PartsView>,
    key: Seq<char>,
    method: Seq<char>,
) -> (Seq<char>, Seq<char>) {
    match p {
        Some(parts) => (
            overridden(parts.query, "key"@, key, parts.query.len()),
            overridden(parts.query, "method"@, method, parts.query.len()),
        ),
        None => (key, method),
    }
}

/// The key and the cipher of a session, given the parts of its address.
pub fn override_credentials(p: Option<UrlParts>, key: &str, method: &str) -> (r: (String, String))
    ensures
        (r.0@, r.1@) == credentials_of(
            match p {
                Some(parts) => Some(parts@),
                None => None,
            },
            key@,
            method@,
        ),
{
    let mut k: String = key.to_owned();
    let mut m: String = method.to_owned();
    if let Some(parts) = p {
        let ghost query = parts@.query;
        let mut i: usize = 0;
        proof {
            reveal_strlit("key");
            reveal_strlit("method");
            assert("key"@.len() != "method"@.len());
        }
        while i < parts.query.len()
            invariant
                i <= parts.query@.len(),
                query == parts@.query,
                "key"@ != "method"@,
                k@ == overridden(query, "key"@, key@, i as nat),
                m@ == overridden(query, "method"@, method@, i as nat),
            decreases parts.query@.len() - i,
        {
            let pair = &parts.query[i];
            assert(query[i as int] == (pair.0, pair.1@, pair.2@));
            if pair.0 {
                if same_text(pair.1.as_str(), "key") {
                    k = pair.2.clone();
                } else if same_text(pair.1.as_str(), "method") {
                    m = pair.2.clone();
                }
            }
            i += 1;
        }
    }
    (k, m)
}

/// The key and the cipher of a session: its address may name its own.
pub fn credentials(url: &str, key: &str, method: &str) -> (r: (String, String))
    ensures
        (r.0@, r.1@) == credentials_of(utils::url_parts(url@), key@, method@),
{
    override_credentials(parse_url(url), key, method)
}

/// A channel and its servers.
pub struct ChannelServers {
    pub name: String,
    pub urls: Vec<String>,
    pub conns_per_host: u32,
    pub max_alive_mins: u32,
    pub proxy: String,
}

/// The pool with a server of a channel, given the parts of its address; an address that is not
/// valid changes nothing, nor does a server that is there.
pub open spec fn with_server(p: PoolView, c: ChannelServers, parts: Option<PartsView>) -> PoolView {
    match parts {
        Some(u) => {
            let key = pool::url_key(c.name@, u.text);
            if p.place(key, 0) is Some {
                p
            } else {
                PoolView {
                    states: p.states.push(
                        StateView {
                            key,
                            channel: c.name@,
                            url: u.text,
                            conns_per_host: c.conns_per_host,
                            max_alive_mins: c.max_alive_mins,
                            proxy: c.proxy@,
                            conns: 0,
                        },
                    ),
                    ..p
                }
            }
        },
        None => p,
    }
}

/// The pool with the first `n` servers of a channel.
pub open spec fn with_servers(p: PoolView, c: ChannelServers, n: nat) -> PoolView
    decreases n,
{
    if n == 0 {
        p
    } else {
        with_server(with_servers(p, c, (n - 1) as nat), c, utils::url_parts(c.urls@[n - 1]@))
    }
}

/// The valid ones of the first `n` addresses of a channel, in full.
pub open spec fn valid_urls(c: ChannelServers, n: nat) -> Seq<Seq<char>>
    decreases n,
{
    if n == 0 {
        Seq::empty()
    } else {
        let rest = valid_urls(c, (n - 1) as nat);
        match utils::url_parts(c.urls@[n - 1]@) {
            Some(u) => rest.push(u.text),
            None => rest,
        }
    }
}

/// Takes in the servers of a channel, and gives the valid addresses: to each, as many sessions
/// are to be opened as the channel has for a host.
pub fn init_channel(manager: &mut MuxSessionManager, c: &ChannelServers) -> (r: Vec<String>)
    requires
        old(manager).wf(),
        c.max_alive_mins * 60 <= u32::MAX,
    ensures
        final(manager).wf(),
        final(manager)@ == with_servers(old(manager)@, *c, c.urls@.len()),
        crate::parts::texts(r@) == valid_urls(*c, c.urls@.len()),
{
    let ghost pre = manager@;
    let mut urls: Vec<String> = Vec::new();
    let mut i: usize = 0;
    assert(crate::parts::texts(urls@) =~= Seq::empty());
    while i < c.urls.len()
        invariant
            i <= c.urls@.len(),
            manager.wf(),
            c.max_alive_mins * 60 <= u32::MAX,
            manager@ == with_servers(pre, *c, i as nat),
            crate::parts::texts(urls@) == valid_urls(*c, i as nat),
        decreases c.urls@.len() - i,
    {
        let ghost before = urls@;
        if let Some(u) = parse_url(c.urls[i].as_str()) {
            let key = channel_url_key(c.name.as_str(), u.text.as_str());
            manager.add_channel_url(
                key,
                ChannelState {
                    channel: c.name.clone(),
                    url: u.text.clone(),
                    conns_per_host: c.conns_per_host,
                    max_alive_mins: c.max_alive_mins,
                    proxy: c.proxy.clone(),
                    conns: 0,
                },
            );
            let ghost text = u.text@;
            urls.push(u.text);
            assert(crate::parts::texts(urls@) =~= crate::parts::texts(before).push(text));
        }
        i += 1;
    }
    urls
}

/// A server's address must be valid, of the one scheme that is spoken here and name a host; what
/// is connected to is that host, with the port that is named or the usual one.
pub proof fn server_has_a_tcp_address(p: PartsView)
    ensures
        server_addr(None) == Err::<Seq<char>, AddressError>(AddressError::Invalid),
        p.scheme != seq!['t', 'c', 'p'] ==> server_addr(Some(p)) == Err::<Seq<char>, AddressError>(
            AddressError::Scheme,
        ),
        p.scheme == seq!['t', 'c', 'p'] && p.host is None ==> server_addr(Some(p)) == Err::<
            Seq<char>,
            AddressError,
        >(AddressError::Host),
        p.scheme == seq!['t', 'c', 'p'] && p.host is Some ==> {
            let host = p.host->Some_0;
            &&& server_addr(Some(p)) is Ok
            &&& server_addr(Some(p))->Ok_0.len() > host.len() + 1
            &&& server_addr(Some(p))->Ok_0.take(host.len() as int) == host
            &&& server_addr(Some(p))->Ok_0[host.len() as int] == ':'
            &&& crate::text::number_of(
                server_addr(Some(p))->Ok_0.skip(host.len() as int + 1),
                65535,
            ) == Some(
                match p.port {
                    Some(port) => port as nat,
                    None => 48100,
                },
            )
        },
{
    reveal_strlit("tcp");
    assert("tcp"@ =~= seq!['t', 'c', 'p']);
    utils::address_has_host_and_port(p);
    assert(seq!['t', 'c', 'p'].len() == 3);
    assert(seq!['h', 't', 't', 'p'].len() == 4);
    assert(seq!['t', 'l', 's'][1] == 'l');
    assert(seq!['t', 'c', 'p'][1] == 'c');
    assert(seq!['h', 't', 't', 'p', 's'].len() == 5);
}

/// The last pair of a query that names the thing decides, and one whose name was written in
/// another way does not; without any the default stands.
pub proof fn last_pair_of_the_name_decides(
    query: Seq<(bool, Seq<char>, Seq<char>)>,
    name: Seq<char>,
    default: Seq<char>,
    n: nat,
    i: int,
)
    requires
        -1 <= i < n <= query.len(),
        i >= 0 ==> query[i].0 && query[i].1 == name,
        forall|j: int| i < j < n ==> !((#[trigger] query[j]).0 && query[j].1 == name),
    ensures
        overridden(query, name, default, n) == if i >= 0 {
            query[i].2
        } else {
            default
        },
    decreases n,
{
    if i < n - 1 {
        assert(!(query[n - 1].0 && query[n - 1].1 == name));
        last_pair_of_the_name_decides(query, name, default, (n - 1) as nat, i);
    }
}

/// Key and method may be given in a server's address; what it does not give stays as it was.
pub proof fn address_gives_key_and_method(p: PartsView, key: Seq<char>, method: Seq<char>)
    ensures
        credentials_of(None, key, method) == (key, method),
        p.query.len() == 0 ==> credentials_of(Some(p), key, method) == (key, method),
        p.query.len() == 1 && p.query[0].0 && p.query[0].1 == seq!['k', 'e', 'y'] ==> credentials_of(
            Some(p),
            key,
            method,
        ) == (p.query[0].2, method),
        p.query.len() == 1 && p.query[0].0 && p.query[0].1 == seq!['m', 'e', 't', 'h', 'o', 'd']
            ==> credentials_of(Some(p), key, method) == (key, p.query[0].2),
{
    reveal_strlit("key");
    reveal_strlit("method");
    assert("key"@ =~= seq!['k', 'e', 'y']);
    assert("method"@ =~= seq!['m', 'e', 't', 'h', 'o', 'd']);
    assert("key"@.len() != "method"@.len());
    reveal_with_fuel(overridden, 2);
}

/// A server with a usable address is connected to at that address, through the proxy exactly when
/// one is named; without a usable address nothing is connected to.
pub proof fn server_is_connected_to(
    p: Option<PartsView>,
    proxy: Seq<char>,
    r: Result<ConnectPlan, AddressError>,
)
    requires
        plans_connect(p, proxy, r),
    ensures
        r is Ok <==> p is Some && p->Some_0.scheme == seq!['t', 'c', 'p'] && p->Some_0.host is Some,
        r matches Ok(plan) ==> match plan {
            ConnectPlan::Direct(a) => proxy.len() == 0 && Ok::<Seq<char>, AddressError>(a@)
                == server_addr(p),
            ConnectPlan::Proxy { proxy: by, addr } => by@ == proxy && proxy.len() > 0 && Ok::<
                Seq<char>,
                AddressError,
            >(addr@) == server_addr(p),
        },
{
    if p is Some {
        server_has_a_tcp_address(p->Some_0);
    }
}

/// A server listens at the address that it names, and one without a host on every interface: the
/// port is the one of the address.
pub proof fn server_listens_at_its_address(p: PartsView, r: Result<String, AddressError>)
    requires
        plans_listen(Some(p), r),
        p.scheme == seq!['t', 'c', 'p'],
        p.host is Some,
    ensures
        r is Ok,
        ({
            let addr = server_addr(Some(p))->Ok_0;
            let host = p.host->Some_0;
            &&& host.len() > 0 && host[0] != ':' ==> r->Ok_0@ == addr
            &&& host.len() == 0 ==> r->Ok_0@ == seq!['0', '.', '0', '.', '0', '.', '0'] + addr
        }),
{
    server_has_a_tcp_address(p);
    reveal_strlit("0.0.0.0");
    assert("0.0.0.0"@ =~= seq!['0', '.', '0', '.', '0', '.', '0']);
    let addr = server_addr(Some(p))->Ok_0;
    let host = p.host->Some_0;
    if host.len() > 0 {
        assert(addr.take(host.len() as int)[0] == host[0]);
    }
}

proof fn lemma_placed(p: PoolView, key: Seq<char>, i: int)
    requires
        0 <= i,
    ensures
        match p.place(key, i) {
            Some(k) => i <= k < p.states.len() && p.states[k].key == key,
            None => forall|j: int| i <= j < p.states.len() ==> (#[trigger] p.states[j]).key != key,
        },
    decreases p.states.len() - i,
{
    if i < p.states.len() && p.states[i].key != key {
        lemma_placed(p, key, i + 1);
    }
}

/// A server with a valid address is known under its channel and address from then on, with the
/// limits of the channel if it was not known before; the servers before it stay as they are, and
/// an address that is not valid changes nothing.
pub proof fn valid_server_is_known(p: PoolView, c: ChannelServers, u: PartsView, j: int)
    requires
        0 <= j < p.states.len(),
    ensures
        with_server(p, c, None) == p,
        ({
            let q = with_server(p, c, Some(u));
            let key = c.name@ + seq!['#'] + u.text;
            &&& exists|k: int| 0 <= k < q.states.len() && (#[trigger] q.states[k]).key == key
            &&& q.states[j] == p.states[j]
            &&& q.sessions == p.sessions
            &&& q.states.len() <= p.states.len() + 1
            &&& q.states.len() > p.states.len() ==> {
                let s = q.states.last();
                &&& s.key == key && s.channel == c.name@ && s.url == u.text
                &&& s.conns_per_host == c.conns_per_host && s.max_alive_mins == c.max_alive_mins
                &&& s.proxy == c.proxy@ && s.conns == 0
            }
        }),
{
    let q = with_server(p, c, Some(u));
    let key = c.name@ + seq!['#'] + u.text;
    lemma_placed(p, key, 0);
    match p.place(key, 0) {
        Some(k) => {
            assert(q.states[k].key == key);
        },
        None => {
            assert(q.states[p.states.len() as int].key == key);
        },
    }
}

/// The addresses that are used are those of the list that are valid, in order.
pub proof fn valid_addresses_are_used(c: ChannelServers, n: nat)
    ensures
        valid_urls(c, 0).len() == 0,
        utils::url_parts(c.urls@[n as int]@) is None ==> valid_urls(c, n + 1) == valid_urls(c, n),
        utils::url_parts(c.urls@[n as int]@) matches Some(u) ==> valid_urls(c, n + 1) == valid_urls(
            c,
            n,
        ) + seq![u.text],
{
    if let Some(u) = utils::url_parts(c.urls@[n as int]@) {
        assert(valid_urls(c, n).push(u.text) =~= valid_urls(c, n) + seq![u.text]);
    }
}

} // verus!
