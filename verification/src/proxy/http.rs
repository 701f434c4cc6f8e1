//! Where an HTTP proxy connection is relayed to.

use vstd::prelude::*;
use crate::text;
use crate::common::utils;
use crate::common::http::{
    parse_http_request, same_name, HttpProxyReader, ParseView, ParsedRequest, ReaderView,
    RequestParse, RequestView, MAX_HEADERS,
};
use crate::common::http;
use crate::common::utils::get_hostport;
use crate::proxy::local::LocalContext;
use crate::text::{contains_char, contains_text, from_utf8_lossy};

verus! {

/// How a relayed HTTP connection starts.
pub struct RelayPlan {
    pub target: String,
    /// The client waits to be told whether the target was reached: once that is known, it is
    /// sent what `connect_answer` gives.
    pub answers: bool,
    /// What the remote side is sent first.
    pub first: Option<Vec<u8>>,
}

/// Why a connection cannot be relayed.
#[derive(Debug, PartialEq, Eq, Structural, Clone, Copy)]
pub enum RelayError {
    /// "parse http request error"
    BadRequest,
    /// "parse http request prtial"
    Partial,
    /// "No target address found."
    NoTarget,
}

/// The answer to a `CONNECT` request whose target was reached.
pub open spec fn established() -> Seq<u8> {
    http::utf8("HTTP/1.0 200 Connection established\r\n\r\n"@)
}

/// The answer to a `CONNECT` request whose target was not reached.
pub open spec fn unreachable_target() -> Seq<u8> {
    http::utf8("HTTP/1.0 502 Bad Gateway\r\n\r\n"@)
}

/// The answer to a `CONNECT` request, once it is known whether the target was reached.
pub fn connect_answer(connected: bool) -> (r: Vec<u8>)
    ensures
        r@ == if connected {
            established()
        } else {
            unreachable_target()
        },
{
    if connected {
        vstd::slice::slice_to_vec("HTTP/1.0 200 Connection established\r\n\r\n".as_bytes())
    } else {
        vstd::slice::slice_to_vec("HTTP/1.0 502 Bad Gateway\r\n\r\n".as_bytes())
    }
}

/// The status code at its place in an answer: the first digit stands for success where it is 2.
pub open spec fn tells_success(answer: Seq<u8>) -> bool {
    answer.len() > 9 && answer[9] == 0x32
}

/// A client is told of success exactly where the target was reached.
pub proof fn success_is_told_when_reached()
    ensures
        tells_success(established()),
        !tells_success(unreachable_target()),
        unreachable_target().take(12) == http::utf8("HTTP/1.0 502"@),
{
    reveal_strlit("HTTP/1.0 200 Connection established\r\n\r\n");
    reveal_strlit("HTTP/1.0 502 Bad Gateway\r\n\r\n");
    reveal_strlit("HTTP/1.0 502");
    vstd::utf8::is_ascii_chars_encode_utf8("HTTP/1.0 200 Connection established\r\n\r\n"@);
    vstd::utf8::is_ascii_chars_encode_utf8("HTTP/1.0 502 Bad Gateway\r\n\r\n"@);
    vstd::utf8::is_ascii_chars_encode_utf8("HTTP/1.0 502"@);
    assert(unreachable_target().take(12) =~= http::utf8("HTTP/1.0 502"@));
}

/// The value of the first header named `host`; empty where there is none.
pub open spec fn host_header(req: RequestView) -> Seq<char> {
    match req.find("host"@, 0) {
        Some(v) => text::lossy_utf8(v),
        None => Seq::empty(),
    }
}

/// The address that a request path stands for.
pub open spec fn path_url(path: Seq<char>, is_https: bool) -> Seq<char> {
    if text::first_at(path, "://"@, 0) is Some {
        path
    } else if is_https {
        "https://"@ + path
    } else {
        "http://"@ + path
    }
}

/// The host and port of the address that a request path stands for; empty where it has none.
pub open spec fn path_target(path: Option<Seq<char>>, is_https: bool) -> Seq<char> {
    match path {
        Some(p) => match utils::url_parts(path_url(p, is_https)) {
            Some(parts) => match utils::hostport(parts) {
                Some(t) => t,
                None => Seq::empty(),
            },
            None => Seq::empty(),
        },
        None => Seq::empty(),
    }
}

/// The target with its port, where it names none.
pub open spec fn with_default_port(target: Seq<char>, is_https: bool) -> Seq<char> {
    if target.contains(':') {
        target
    } else if is_https {
        target + ":443"@
    } else {
        target + ":80"@
    }
}

/// The target of a request: its host, or else what its path names.
pub open spec fn relay_target(req: RequestView, is_https: bool) -> Option<Seq<char>> {
    let host = host_header(req);
    let target = if host.len() > 0 {
        host
    } else {
        path_target(req.path, is_https)
    };
    if target.len() > 0 {
        Some(with_default_port(target, is_https))
    } else {
        None
    }
}

/// How the connection of a request starts, over what its head was parsed into.
pub open spec fn plan_of(
    p: ParseView,
    is_https: bool,
    head: Seq<u8>,
    body: Seq<u8>,
) -> Result<(Seq<char>, bool, Option<Seq<u8>>), RelayError> {
    match p {
        ParseView::Complete(_, req) => match relay_target(req, is_https) {
            Some(target) => if is_https {
                Ok((target, true, None))
            } else {
                Ok((target, false, Some(head + body)))
            },
            None => Err(RelayError::NoTarget),
        },
        _ => Err(RelayError::BadRequest),
    }
}

impl View for RelayPlan {
    type V = (Seq<char>, bool, Option<Seq<u8>>);

    open spec fn view(&self) -> (Seq<char>, bool, Option<Seq<u8>>) {
        (
            self.target@,
            self.answers,
            match self.first {
                Some(b) => Some(b@),
                None => None,
            },
        )
    }
}

fn find_host(p: &ParsedRequest) -> (r: String)
    ensures
        r@ == host_header(p.request()),
{
    let ghost req = p.request();
    let mut i: usize = 0;
    while i < p.headers.len()
        invariant
            i <= p.headers@.len(),
            req == p.request(),
            req.find("host"@, 0) == req.find("host"@, i as int),
        decreases p.headers@.len() - i,
    {
        if same_name(p.headers[i].0.as_str(), "host") {
            return from_utf8_lossy(p.headers[i].1.as_slice());
        }
        i += 1;
    }
    let r: String = String::new();
    assert(r@ =~= host_header(req));
    r
}

fn find_path_target(path: &Option<String>, is_https: bool) -> (r: String)
    ensures
        r@ == path_target(http::opt_text(*path), is_https),
{
    if let Some(p) = path {
        let mut url: String = String::new();
        if !contains_text(p.as_str(), "://") {
            if is_https {
                url.push_str("https://");
            } else {
                url.push_str("http://");
            }
        }
        url.push_str(p.as_str());
        assert(url@ =~= path_url(p@, is_https));
        if let Some(dst) = get_hostport(url.as_str()) {
            return dst;
        }
    }
    let r: String = String::new();
    assert(r@ =~= Seq::<char>::empty());
    r
}

/// How a connection starts, given what its request was parsed into.
pub fn plan_request(p: RequestParse, is_https: bool, head: Vec<u8>, body: &[u8]) -> (r: Result<
    RelayPlan,
    RelayError,
>)
    ensures
        match plan_of(p@, is_https, head@, body@) {
            Ok(plan) => r is Ok && r->Ok_0@ == plan,
            Err(e) => r is Err && r->Err_0 == e,
        },
{
    let req = match p {
        RequestParse::Complete(q) => q,
        _ => {
            return Err(RelayError::BadRequest);
        },
    };
    let mut target: String = find_host(&req);
    if target.as_str().is_empty() {
        target = find_path_target(&req.path, is_https);
    }
    if target.as_str().is_empty() {
        return Err(RelayError::NoTarget);
    }
    if !contains_char(target.as_str(), ':') {
        if is_https {
            target.push_str(":443");
        } else {
            target.push_str(":80");
        }
    }
    if is_https {
        Ok(RelayPlan { target, answers: true, first: None })
    } else {
        let mut all_data: Vec<u8> = head;
        let ghost before = all_data@;
        all_data.extend_from_slice(body);
        assert(all_data@ =~= before + body@);
        Ok(RelayPlan { target, answers: false, first: Some(all_data) })
    }
}

/// How a connection starts that is relayed as it is: `head` is the request up to the blank line,
/// and `body` what came with it.
pub fn plan_relay(ctx: &LocalContext, head: Vec<u8>, body: &[u8]) -> (r: Result<
    RelayPlan,
    RelayError,
>)
    ensures
        match plan_of(http::http_request(head@, MAX_HEADERS), ctx.is_https, head@, body@) {
            Ok(plan) => r is Ok && r->Ok_0@ == plan,
            Err(e) => r is Err && r->Err_0 == e,
        },
{
    let p = parse_http_request(head.as_slice(), MAX_HEADERS);
    plan_request(p, ctx.is_https, head, body)
}

/// The target of a connection whose requests are rewritten: the first request decides.
pub fn plan_normal(reader: &mut HttpProxyReader, head: &[u8], body: &[u8]) -> (r: Result<
    String,
    RelayError,
>)
    requires
        old(reader)@.wf(),
        old(reader)@.received.len() + head@.len() + body@.len() <= isize::MAX,
    ensures
        final(reader)@.wf(),
        ({
            let pre = ReaderView {
                received: old(reader)@.received + head@ + body@,
                ..old(reader)@
            };
            let p = http::http_request(pre.received, MAX_HEADERS);
            &&& final(reader)@ == pre.parsed(p)
            &&& match p {
                ParseView::Complete(_, _) => r is Ok && r->Ok_0@ == pre.parsed(p).host,
                ParseView::Partial => r is Err && r->Err_0 == RelayError::Partial,
                ParseView::Failed => r is Err && r->Err_0 == RelayError::BadRequest,
            }
        }),
{
    reader.add_recv_content(head);
    reader.add_recv_content(body);
    match reader.parse_request() {
        Ok(n) => {
            if n == 0 {
                Err(RelayError::Partial)
            } else {
                Ok(reader.get_remote_addr().to_owned())
            }
        },
        Err(_) => Err(RelayError::BadRequest),
    }
}

/// Whether a connection is relayed as it is; else its requests are rewritten.
pub fn relays_unchanged(ctx: &LocalContext) -> (r: bool)
    ensures
        r == (ctx.is_https || ctx.transparent),
{
    ctx.is_https || ctx.is_transparent()
}

/// A target always comes with a port.
pub proof fn targets_have_a_port(req: RequestView, is_https: bool)
    requires
        relay_target(req, is_https) is Some,
    ensures
        relay_target(req, is_https)->Some_0.contains(':'),
{
    reveal_strlit(":443");
    reveal_strlit(":80");
    let t = relay_target(req, is_https)->Some_0;
    let host = host_header(req);
    let target = if host.len() > 0 {
        host
    } else {
        path_target(req.path, is_https)
    };
    if !target.contains(':') {
        assert(t[target.len() as int] == ':');
    }
}

/// A request that is relayed as it is reaches the remote side whole: however what was taken off the
/// client's connection is divided into the head and what came with it, all of it is sent first. A
/// client that asks for a tunnel is answered, and nothing is sent for it.
pub proof fn relayed_request_is_whole(p: ParseView, taken: Seq<u8>, at: int)
    requires
        0 <= at <= taken.len(),
    ensures
        plan_of(p, false, taken.take(at), taken.skip(at)) matches Ok(plan) ==> plan.2 == Some(taken)
            && !plan.1,
        plan_of(p, true, taken.take(at), taken.skip(at)) matches Ok(plan) ==> plan.2 is None
            && plan.1,
{
    assert(taken.take(at) + taken.skip(at) =~= taken);
}

/// The first header that is called `host`, in any case, names the target: with the port that it
/// has, or else with the port of HTTP, or of HTTPS for a tunnel. It goes before the path.
pub proof fn host_header_names_the_target(
    req: RequestView,
    i: int,
    consumed: int,
    is_https: bool,
    head: Seq<u8>,
    body: Seq<u8>,
)
    requires
        0 <= i < req.headers.len(),
        http::same_but_case(req.headers[i].0, "host"@),
        forall|j: int|
            0 <= j < i ==> !http::same_but_case((#[trigger] req.headers[j]).0, "host"@),
        text::lossy_utf8(req.headers[i].1).len() > 0,
    ensures
        ({
            let host = text::lossy_utf8(req.headers[i].1);
            let plan = plan_of(ParseView::Complete(consumed, req), is_https, head, body);
            &&& plan is Ok
            &&& host.contains(':') ==> plan->Ok_0.0 == host
            &&& !host.contains(':') && is_https ==> plan->Ok_0.0 == host + seq![
                ':',
                '4',
                '4',
                '3',
            ]
            &&& !host.contains(':') && !is_https ==> plan->Ok_0.0 == host + seq![':', '8', '0']
        }),
{
    reveal_strlit(":443");
    reveal_strlit(":80");
    assert(":443"@ =~= seq![':', '4', '4', '3']);
    assert(":80"@ =~= seq![':', '8', '0']);
    http::first_header_is_found(req, "host"@, i, 0);
}

/// A request without a host header goes to the host and port of its path's address: an address
/// with a scheme stands for itself, any other is completed with the scheme of the connection. A
/// request that names no target is refused, and so are bytes that are no request.
pub proof fn path_names_the_target(
    req: RequestView,
    consumed: int,
    is_https: bool,
    head: Seq<u8>,
    body: Seq<u8>,
)
    requires
        forall|j: int|
            0 <= j < req.headers.len() ==> !http::same_but_case(
                (#[trigger] req.headers[j]).0,
                "host"@,
            ),
    ensures
        ({
            let plan = plan_of(ParseView::Complete(consumed, req), is_https, head, body);
            let url = match req.path {
                Some(path) => if exists|k: int|
                    0 <= k && k + 3 <= path.len() && #[trigger] path.subrange(k, k + 3) == seq![
                        ':',
                        '/',
                        '/',
                    ] {
                    path
                } else if is_https {
                    seq!['h', 't', 't', 'p', 's', ':', '/', '/'] + path
                } else {
                    seq!['h', 't', 't', 'p', ':', '/', '/'] + path
                },
                None => Seq::empty(),
            };
            let parts = utils::url_parts(url);
            if req.path is Some && parts is Some && utils::hostport(parts->Some_0) is Some
                && utils::hostport(parts->Some_0)->Some_0.len() > 0 {
                &&& plan is Ok
                &&& utils::hostport(parts->Some_0)->Some_0.contains(':') ==> plan->Ok_0.0
                    == utils::hostport(parts->Some_0)->Some_0
            } else {
                plan == Err::<(Seq<char>, bool, Option<Seq<u8>>), RelayError>(RelayError::NoTarget)
            }
        }),
        plan_of(ParseView::Partial, is_https, head, body) == Err::<
            (Seq<char>, bool, Option<Seq<u8>>),
            RelayError,
        >(RelayError::BadRequest),
        plan_of(ParseView::Failed, is_https, head, body) == Err::<
            (Seq<char>, bool, Option<Seq<u8>>),
            RelayError,
        >(RelayError::BadRequest),
{
    reveal_strlit("://");
    reveal_strlit("http://");
    reveal_strlit("https://");
    assert("://"@ =~= seq![':', '/', '/']);
    assert("http://"@ =~= seq!['h', 't', 't', 'p', ':', '/', '/']);
    assert("https://"@ =~= seq!['h', 't', 't', 'p', 's', ':', '/', '/']);
    http::missing_header_is_not_found(req, "host"@, 0);
    if let Some(path) = req.path {
        let mark = "://"@;
        text::lemma_first_at(path, mark, 0);
        match text::first_at(path, mark, 0) {
            Some(k) => {
                assert(text::occurs_at(path, mark, k));
                assert(path.subrange(k, k + 3) == mark);
            },
            None => {
                assert forall|k: int| 0 <= k && k + 3 <= path.len() implies #[trigger] path.subrange(
                    k,
                    k + 3,
                ) != mark by {
                    assert(!text::occurs_at(path, mark, k));
                }
            },
        }
    }
}

} // verus!
