//! Setting up a data directory: the configuration files, and the questions that lead to them.

use vstd::prelude::*;
use crate::parts;
use crate::text;
use crate::common::http;
use crate::common::http::same_name;
use crate::parts::{split, trim, Separator};
use crate::text::same_text;

verus! {

/// The configuration of a server.
pub open spec fn server_toml(
    cert: Seq<char>,
    key: Seq<char>,
    listen: Seq<char>,
    admin_listen: Seq<char>,
    tunnel_port_range: Seq<char>,
) -> Seq<char> {
    "# === Server Configuration ===\n# Server listens on TLS (TCP) + QUIC (UDP) simultaneously on the same port.\nrole = \"server\"\nlisten = \""@
        + listen + "\"\nadmin_listen = \""@ + admin_listen + "\"\ncert = \""@ + cert
        + "\"\nkey = \""@ + key + "\"\ntunnel_port_range = \""@ + tunnel_port_range
        + "\"\n\n# === Optional (uncomment to customize) ===\n# concurrent = 5\n# threads = 2\n# idle_timeout_secs = 120\n# mux_stream_window = 262144\n# max_connections = 256\n# log = \"\"\n# NOTE: If enabling file logging to /data/, remove :ro from the volume mount.\n"@
}

pub fn render_server_toml(
    cert: &str,
    key: &str,
    listen: &str,
    admin_listen: &str,
    tunnel_port_range: &str,
) -> (r: String)
    ensures
        r@ == server_toml(cert@, key@, listen@, admin_listen@, tunnel_port_range@),
{
    let mut s: String =
        "# === Server Configuration ===\n# Server listens on TLS (TCP) + QUIC (UDP) simultaneously on the same port.\nrole = \"server\"\nlisten = \"".to_owned();
    s.push_str(listen);
    s.push_str("\"\nadmin_listen = \"");
    s.push_str(admin_listen);
    s.push_str("\"\ncert = \"");
    s.push_str(cert);
    s.push_str("\"\nkey = \"");
    s.push_str(key);
    s.push_str("\"\ntunnel_port_range = \"");
    s.push_str(tunnel_port_range);
    s.push_str(
        "\"\n\n# === Optional (uncomment to customize) ===\n# concurrent = 5\n# threads = 2\n# idle_timeout_secs = 120\n# mux_stream_window = 262144\n# max_connections = 256\n# log = \"\"\n# NOTE: If enabling file logging to /data/, remove :ro from the volume mount.\n",
    );
    s
}

/// The configuration of a client that is a proxy.
pub open spec fn client_proxy_toml(
    tls_host: Seq<char>,
    cert: Seq<char>,
    remote: Seq<char>,
    listen: Seq<char>,
    admin_listen: Seq<char>,
) -> Seq<char> {
    "# === Client Proxy Configuration ===\nrole = \"client\"\nremote = \""@ + remote
        + "\"\nlisten = \""@ + listen + "\"\nadmin_listen = \""@ + admin_listen + "\"\ncert = \""@
        + cert + "\"\ntls_host = \""@ + tls_host
        + "\"\n\n# === Optional (uncomment to customize) ===\n# concurrent = 5\n# threads = 2\n# idle_timeout_secs = 120\n# mux_stream_window = 262144\n# max_connections = 256\n# log = \"\"\n# NOTE: \"remote\" uses Docker DNS name \"server\". For standalone docker run,\n# replace with actual IP or host.docker.internal.\n# NOTE: If enabling file logging to /data/, remove :ro from the volume mount.\n"@
}

pub fn render_client_proxy_toml(
    tls_host: &str,
    cert: &str,
    remote: &str,
    listen: &str,
    admin_listen: &str,
) -> (r: String)
    ensures
        r@ == client_proxy_toml(tls_host@, cert@, remote@, listen@, admin_listen@),
{
    let mut s: String =
        "# === Client Proxy Configuration ===\nrole = \"client\"\nremote = \"".to_owned();
    s.push_str(remote);
    s.push_str("\"\nlisten = \"");
    s.push_str(listen);
    s.push_str("\"\nadmin_listen = \"");
    s.push_str(admin_listen);
    s.push_str("\"\ncert = \"");
    s.push_str(cert);
    s.push_str("\"\ntls_host = \"");
    s.push_str(tls_host);
    s.push_str(
        "\"\n\n# === Optional (uncomment to customize) ===\n# concurrent = 5\n# threads = 2\n# idle_timeout_secs = 120\n# mux_stream_window = 262144\n# max_connections = 256\n# log = \"\"\n# NOTE: \"remote\" uses Docker DNS name \"server\". For standalone docker run,\n# replace with actual IP or host.docker.internal.\n# NOTE: If enabling file logging to /data/, remove :ro from the volume mount.\n",
    );
    s
}

/// The texts in quotes, with commas between them.
pub open spec fn quoted_list(p: Seq<Seq<char>>) -> Seq<char>
    decreases p.len(),
{
    if p.len() == 0 {
        Seq::empty()
    } else if p.len() == 1 {
        "\""@ + p[0] + "\""@
    } else {
        quoted_list(p.drop_last()) + ", "@ + ("\""@ + p.last() + "\""@)
    }
}

fn quoted(s: &str) -> (r: String)
    ensures
        r@ == "\""@ + s@ + "\""@,
{
    let mut out: String = "\"".to_owned();
    out.push_str(s);
    out.push_str("\"");
    out
}

fn render_list(v: &Vec<String>) -> (r: String)
    ensures
        r@ == quoted_list(parts::texts(v@)),
{
    let ghost all = parts::texts(v@);
    if v.len() == 0 {
        let r: String = String::new();
        assert(r@ =~= Seq::empty());
        return r;
    }
    let mut out: String = quoted(v[0].as_str());
    let mut i: usize = 1;
    proof {
        assert(all.take(1)[0] == v@[0]@);
    }
    while i < v.len()
        invariant
            1 <= i <= v@.len(),
            all == parts::texts(v@),
            out@ == quoted_list(all.take(i as int)),
        decreases v@.len() - i,
    {
        proof {
            assert(all.take(i + 1).drop_last() =~= all.take(i as int));
            assert(all.take(i + 1).last() == v@[i as int]@);
        }
        out.push_str(", ");
        out.push_str(quoted(v[i].as_str()).as_str());
        i += 1;
    }
    assert(all.take(i as int) =~= all);
    out
}

/// The configuration of a client with tunnels.
pub open spec fn client_tunnel_toml(
    tls_host: Seq<char>,
    cert: Seq<char>,
    remote: Seq<char>,
    admin_listen: Seq<char>,
    tunnel_client_id: Seq<char>,
    tunnel_entries: Seq<Seq<char>>,
) -> Seq<char> {
    "# === Client Tunnel Configuration ===\nrole = \"client\"\nremote = \""@ + remote
        + "\"\nadmin_listen = \""@ + admin_listen + "\"\ncert = \""@ + cert + "\"\ntls_host = \""@
        + tls_host + "\"\ntunnel_client_id = \""@ + tunnel_client_id
        + "\"\n# Formats: \"port\" | \"local:remote\" | \"host:local:remote\" | \"host:local:remote:sni\"\ntunnel = ["@
        + quoted_list(tunnel_entries)
        + "]\n\n# === Optional (uncomment to customize) ===\n# threads = 2\n# idle_timeout_secs = 120\n# mux_stream_window = 262144\n# log = \"\"\n# NOTE: If enabling file logging to /data/, remove :ro from the volume mount.\n"@
}

pub fn render_client_tunnel_toml(
    tls_host: &str,
    cert: &str,
    remote: &str,
    admin_listen: &str,
    tunnel_client_id: &str,
    tunnel_entries: &Vec<String>,
) -> (r: String)
    ensures
        r@ == client_tunnel_toml(
            tls_host@,
            cert@,
            remote@,
            admin_listen@,
            tunnel_client_id@,
            parts::texts(tunnel_entries@),
        ),
{
    let mut s: String =
        "# === Client Tunnel Configuration ===\nrole = \"client\"\nremote = \"".to_owned();
    s.push_str(remote);
    s.push_str("\"\nadmin_listen = \"");
    s.push_str(admin_listen);
    s.push_str("\"\ncert = \"");
    s.push_str(cert);
    s.push_str("\"\ntls_host = \"");
    s.push_str(tls_host);
    s.push_str("\"\ntunnel_client_id = \"");
    s.push_str(tunnel_client_id);
    s.push_str(
        "\"\n# Formats: \"port\" | \"local:remote\" | \"host:local:remote\" | \"host:local:remote:sni\"\ntunnel = [",
    );
    s.push_str(render_list(tunnel_entries).as_str());
    s.push_str(
        "]\n\n# === Optional (uncomment to customize) ===\n# threads = 2\n# idle_timeout_secs = 120\n# mux_stream_window = 262144\n# log = \"\"\n# NOTE: If enabling file logging to /data/, remove :ro from the volume mount.\n",
    );
    s
}

/// What the file system says of the output directory.
pub struct OutputDir {
    /// The directory is `/data` itself.
    pub is_data_root: bool,
    /// The last part of its path.
    pub file_name: Option<String>,
    /// The path of `cert.pem` in it.
    pub cert_pem: String,
    /// The path of `key.pem` in it.
    pub key_pem: String,
}

/// The directory is mounted at `/data` when the program runs in a container.
pub open spec fn is_docker_dir(dir: OutputDir) -> bool {
    ||| dir.is_data_root
    ||| match dir.file_name {
        Some(name) => name@ == "rsnova_data"@ || name@ == "data"@,
        None => false,
    }
}

pub fn use_docker_data_paths(dir: &OutputDir) -> (r: bool)
    ensures
        r == is_docker_dir(*dir),
{
    if dir.is_data_root {
        return true;
    }
    match &dir.file_name {
        Some(name) => same_text(name.as_str(), "rsnova_data") || same_text(name.as_str(), "data"),
        None => false,
    }
}

/// The path of the certificate in the configuration files.
pub open spec fn cert_path(dir: OutputDir) -> Seq<char> {
    if is_docker_dir(dir) {
        "/data/cert.pem"@
    } else {
        dir.cert_pem@
    }
}

/// The path of the key in the configuration files.
pub open spec fn key_path(dir: OutputDir) -> Seq<char> {
    if is_docker_dir(dir) {
        "/data/key.pem"@
    } else {
        dir.key_pem@
    }
}

pub fn default_cert_path(dir: &OutputDir) -> (r: String)
    ensures
        r@ == cert_path(*dir),
{
    if use_docker_data_paths(dir) {
        "/data/cert.pem".to_owned()
    } else {
        dir.cert_pem.clone()
    }
}

pub fn default_key_path(dir: &OutputDir) -> (r: String)
    ensures
        r@ == key_path(*dir),
{
    if use_docker_data_paths(dir) {
        "/data/key.pem".to_owned()
    } else {
        dir.key_pem.clone()
    }
}

/// A certificate to be made, and where it goes.
pub struct CertPlan {
    pub cert_pem: String,
    pub key_pem: String,
    pub tls_host: String,
}

/// Whether a certificate is to be made: one that is there stays, unless it is to be replaced.
pub fn rcgen(dir: &OutputDir, tls_host: &str, force: bool, certs_exist: bool) -> (r: Option<
    CertPlan,
>)
    ensures
        match r {
            Some(p) => {
                &&& force || !certs_exist
                &&& p.cert_pem@ == dir.cert_pem@
                &&& p.key_pem@ == dir.key_pem@
                &&& p.tls_host@ == tls_host@
            },
            None => certs_exist && !force,
        },
{
    if certs_exist && !force {
        return None;
    }
    Some(
        CertPlan {
            cert_pem: dir.cert_pem.clone(),
            key_pem: dir.key_pem.clone(),
            tls_host: tls_host.to_owned(),
        },
    )
}

/// The certificate for this host in the current directory; one that is there is replaced.
pub fn rcgen_current_dir(tls_host: &str) -> (r: CertPlan)
    ensures
        r.cert_pem@ == "./cert.pem"@,
        r.key_pem@ == "./key.pem"@,
        r.tls_host@ == tls_host@,
{
    CertPlan {
        cert_pem: "./cert.pem".to_owned(),
        key_pem: "./key.pem".to_owned(),
        tls_host: tls_host.to_owned(),
    }
}

/// A configuration file.
#[derive(Debug, PartialEq, Eq, Structural, Clone, Copy)]
pub enum InitFile {
    Server,
    ClientProxy,
    ClientTunnel,
}

impl InitFile {
    pub open spec fn name(self) -> Seq<char> {
        match self {
            InitFile::Server => "server.toml"@,
            InitFile::ClientProxy => "client_proxy.toml"@,
            InitFile::ClientTunnel => "client_tunnel.toml"@,
        }
    }

    pub fn file_name(&self) -> (r: &'static str)
        ensures
            r@ == self.name(),
    {
        match self {
            InitFile::Server => "server.toml",
            InitFile::ClientProxy => "client_proxy.toml",
            InitFile::ClientTunnel => "client_tunnel.toml",
        }
    }
}

/// What is in the directory already.
#[derive(Debug, PartialEq, Eq, Structural, Clone, Copy)]
pub struct Present {
    /// Both the certificate and its key.
    pub certs: bool,
    pub server: bool,
    pub client_proxy: bool,
    pub client_tunnel: bool,
}

impl Present {
    pub open spec fn holds(self, file: InitFile) -> bool {
        match file {
            InitFile::Server => self.server,
            InitFile::ClientProxy => self.client_proxy,
            InitFile::ClientTunnel => self.client_tunnel,
        }
    }

    pub fn has(&self, file: InitFile) -> (r: bool)
        ensures
            r == self.holds(file),
    {
        match file {
            InitFile::Server => self.server,
            InitFile::ClientProxy => self.client_proxy,
            InitFile::ClientTunnel => self.client_tunnel,
        }
    }
}

/// The content of a file where no questions can be asked.
pub open spec fn default_content(file: InitFile, dir: OutputDir, tls_host: Seq<char>) -> Seq<char> {
    match file {
        InitFile::Server => server_toml(
            cert_path(dir),
            key_path(dir),
            "0.0.0.0:48100"@,
            "0.0.0.0:48102"@,
            "8000-9000"@,
        ),
        InitFile::ClientProxy => client_proxy_toml(
            tls_host,
            cert_path(dir),
            "tls://server:48100"@,
            "0.0.0.0:48101"@,
            "0.0.0.0:48103"@,
        ),
        InitFile::ClientTunnel => client_tunnel_toml(
            tls_host,
            cert_path(dir),
            "tls://127.0.0.1:48100"@,
            "0.0.0.0:48104"@,
            "my-client"@,
            seq!["8080:80"@, "8443:443"@],
        ),
    }
}

/// What is to be made in the directory.
pub struct InitPlan {
    pub certs: Option<CertPlan>,
    pub server: Option<String>,
    pub client_proxy: Option<String>,
    pub client_tunnel: Option<String>,
}

/// A file gets this content, unless it is there and stays.
pub open spec fn writes(
    w: Option<String>,
    file: InitFile,
    dir: OutputDir,
    tls_host: Seq<char>,
    force: bool,
    present: Present,
) -> bool {
    match w {
        Some(content) => (force || !present.holds(file)) && content@ == default_content(
            file,
            dir,
            tls_host,
        ),
        None => present.holds(file) && !force,
    }
}

/// What is made in a directory without asking.
pub open spec fn plans_init(
    dir: OutputDir,
    tls_host: Seq<char>,
    force: bool,
    present: Present,
    r: InitPlan,
) -> bool {
    &&& r.certs is Some <==> force || !present.certs
    &&& r.certs matches Some(p) ==> p.cert_pem@ == dir.cert_pem@ && p.key_pem@ == dir.key_pem@
        && p.tls_host@ == tls_host
    &&& writes(r.server, InitFile::Server, dir, tls_host, force, present)
    &&& writes(r.client_proxy, InitFile::ClientProxy, dir, tls_host, force, present)
    &&& writes(r.client_tunnel, InitFile::ClientTunnel, dir, tls_host, force, present)
}

/// What is to be made where no questions can be asked: everything that is not there, or all of
/// it where it is to be replaced.
pub fn init_data_dir_noninteractive(
    dir: &OutputDir,
    tls_host: &str,
    force: bool,
    present: Present,
) -> (r: InitPlan)
    ensures
        plans_init(*dir, tls_host@, force, present, r),
{
    let cert = default_cert_path(dir);
    let key = default_key_path(dir);
    let server = if present.server && !force {
        None
    } else {
        Some(
            render_server_toml(
                cert.as_str(),
                key.as_str(),
                "0.0.0.0:48100",
                "0.0.0.0:48102",
                "8000-9000",
            ),
        )
    };
    let client_proxy = if present.client_proxy && !force {
        None
    } else {
        Some(
            render_client_proxy_toml(
                tls_host,
                cert.as_str(),
                "tls://server:48100",
                "0.0.0.0:48101",
                "0.0.0.0:48103",
            ),
        )
    };
    let mut entries: Vec<String> = Vec::new();
    entries.push("8080:80".to_owned());
    entries.push("8443:443".to_owned());
    assert(parts::texts(entries@) =~= seq!["8080:80"@, "8443:443"@]);
    let client_tunnel = if present.client_tunnel && !force {
        None
    } else {
        Some(
            render_client_tunnel_toml(
                tls_host,
                cert.as_str(),
                "tls://127.0.0.1:48100",
                "0.0.0.0:48104",
                "my-client",
                &entries,
            ),
        )
    };
    InitPlan {
        certs: rcgen(dir, tls_host, force, present.certs),
        server,
        client_proxy,
        client_tunnel,
    }
}

/// The answer to a question that is settled by yes or no; `None` where it is neither.
pub open spec fn yes_no(line: Seq<char>, default_yes: bool) -> Option<bool> {
    let t = parts::trimmed(line);
    if t.len() == 0 {
        Some(default_yes)
    } else if http::same_but_case(t, "y"@) || http::same_but_case(t, "yes"@) {
        Some(true)
    } else if http::same_but_case(t, "n"@) || http::same_but_case(t, "no"@) {
        Some(false)
    } else {
        None
    }
}

/// The answer to a question for a text.
pub open spec fn text_answer(line: Seq<char>, default: Seq<char>) -> Seq<char> {
    let t = parts::trimmed(line);
    if t.len() == 0 {
        default
    } else {
        t
    }
}

/// Reads the answer to a question that is settled by yes or no.
pub fn read_yes_no(line: &str, default_yes: bool) -> (r: Option<bool>)
    ensures
        r == yes_no(line@, default_yes),
{
    let t = trim(line);
    if t.as_str().is_empty() {
        return Some(default_yes);
    }
    if same_name(t.as_str(), "y") || same_name(t.as_str(), "yes") {
        Some(true)
    } else if same_name(t.as_str(), "n") || same_name(t.as_str(), "no") {
        Some(false)
    } else {
        None
    }
}

/// Reads the answer to a question for a text.
pub fn read_text(line: &str, default: &str) -> (r: String)
    ensures
        r@ == text_answer(line@, default@),
{
    let t = trim(line);
    if t.as_str().is_empty() {
        default.to_owned()
    } else {
        t
    }
}

/// The texts without white space at their ends.
pub open spec fn all_trimmed(p: Seq<Seq<char>>) -> Seq<Seq<char>> {
    Seq::new(p.len(), |i: int| parts::trimmed(p[i]))
}

/// The tunnels that an answer names, with commas between them.
pub open spec fn named_tunnels(raw: Seq<char>) -> Seq<Seq<char>> {
    parts::filled(all_trimmed(parts::pieces(raw, Separator::Char(','))))
}

/// The tunnels that an answer names, with commas between them.
pub fn split_tunnels(raw: &str) -> (r: Vec<String>)
    ensures
        parts::texts(r@) == named_tunnels(raw@),
{
    let p = split(raw, Separator::Char(','));
    let ghost all = all_trimmed(parts::texts(p@));
    let mut r: Vec<String> = Vec::new();
    let mut i: usize = 0;
    proof {
        assert(all.take(0) =~= Seq::empty());
        assert(parts::texts(r@) =~= Seq::empty());
    }
    while i < p.len()
        invariant
            i <= p@.len(),
            all == all_trimmed(parts::texts(p@)),
            parts::texts(r@) == parts::filled(all.take(i as int)),
        decreases p@.len() - i,
    {
        let ghost before = r@;
        let t = trim(p[i].as_str());
        proof {
            assert(all.take(i + 1).drop_last() =~= all.take(i as int));
            assert(parts::texts(p@)[i as int] == p@[i as int]@);
            assert(all.take(i + 1).last() == t@);
        }
        if !t.as_str().is_empty() {
            let ghost text = t@;
            r.push(t);
            assert(parts::texts(r@) =~= parts::texts(before).push(text));
        }
        i += 1;
    }
    assert(all.take(i as int) =~= all);
    r
}

/// A setting in a configuration file: on a line of its own, its name and its value in quotes.
pub open spec fn setting(name: Seq<char>, value: Seq<char>) -> Seq<char> {
    seq!['\n'] + name + " = \""@ + value + "\"\n"@
}

proof fn lemma_setting(
    before: Seq<char>,
    a: Seq<char>,
    name: Seq<char>,
    value: Seq<char>,
    b: Seq<char>,
    after: Seq<char>,
)
    requires
        ({
            let k = seq!['\n'] + name + " = \""@;
            &&& a.len() >= k.len()
            &&& a.skip(a.len() - k.len()) == k
            &&& b.len() >= 2
            &&& b.take(2) == "\"\n"@
        }),
    ensures
        text::has_part(before + a + value + b + after, setting(name, value)),
{
    reveal_strlit("\"\n");
    let k = seq!['\n'] + name + " = \""@;
    let q = "\"\n"@;
    assert(setting(name, value) == k + value + q);
    assert(a =~= a.take(a.len() - k.len()) + k);
    assert(b =~= q + b.skip(2));
    lemma_middle(before, a.take(a.len() - k.len()), k, value, q, b.skip(2), after);
}

proof fn lemma_middle(
    before: Seq<char>,
    a: Seq<char>,
    k: Seq<char>,
    value: Seq<char>,
    q: Seq<char>,
    b: Seq<char>,
    after: Seq<char>,
)
    ensures
        text::has_part(before + (a + k) + value + (q + b) + after, k + value + q),
{
    let part = k + value + q;
    text::lemma_whole_part(part);
    text::lemma_part_between(before + a, part, b + after, part);
    assert(before + (a + k) + value + (q + b) + after =~= (before + a) + part + (b + after));
}

/// The file of a server holds each of its settings, under its name.
pub proof fn server_file_holds_its_settings(cert: Seq<char>, key: Seq<char>, listen: Seq<char>, admin_listen: Seq<char>, tunnel_port_range: Seq<char>)
    ensures
        text::has_part(server_toml(cert, key, listen, admin_listen, tunnel_port_range), setting("listen"@, listen)),
        text::has_part(server_toml(cert, key, listen, admin_listen, tunnel_port_range), setting("admin_listen"@, admin_listen)),
        text::has_part(server_toml(cert, key, listen, admin_listen, tunnel_port_range), setting("cert"@, cert)),
        text::has_part(server_toml(cert, key, listen, admin_listen, tunnel_port_range), setting("key"@, key)),
        text::has_part(server_toml(cert, key, listen, admin_listen, tunnel_port_range), setting("tunnel_port_range"@, tunnel_port_range)),
{
    reveal_strlit("# === Server Configuration ===\n# Server listens on TLS (TCP) + QUIC (UDP) simultaneously on the same port.\nrole = \"server\"\nlisten = \"");
    reveal_strlit("\"\nadmin_listen = \"");
    reveal_strlit("\"\ncert = \"");
    reveal_strlit("\"\nkey = \"");
    reveal_strlit("\"\ntunnel_port_range = \"");
    reveal_strlit("\"\n\n# === Optional (uncomment to customize) ===\n# concurrent = 5\n# threads = 2\n# idle_timeout_secs = 120\n# mux_stream_window = 262144\n# max_connections = 256\n# log = \"\"\n# NOTE: If enabling file logging to /data/, remove :ro from the volume mount.\n");
    reveal_strlit(" = \"");
    reveal_strlit("\"\n");
    reveal_strlit("listen");
    reveal_strlit("admin_listen");
    reveal_strlit("cert");
    reveal_strlit("key");
    reveal_strlit("tunnel_port_range");
    let s = server_toml(cert, key, listen, admin_listen, tunnel_port_range);
    {
        let before = Seq::<char>::empty();
        let after = admin_listen + "\"\ncert = \""@ + cert + "\"\nkey = \""@ + key + "\"\ntunnel_port_range = \""@ + tunnel_port_range + "\"\n\n# === Optional (uncomment to customize) ===\n# concurrent = 5\n# threads = 2\n# idle_timeout_secs = 120\n# mux_stream_window = 262144\n# max_connections = 256\n# log = \"\"\n# NOTE: If enabling file logging to /data/, remove :ro from the volume mount.\n"@;
        assert("# === Server Configuration ===\n# Server listens on TLS (TCP) + QUIC (UDP) simultaneously on the same port.\nrole = \"server\"\nlisten = \""@.skip("# === Server Configuration ===\n# Server listens on TLS (TCP) + QUIC (UDP) simultaneously on the same port.\nrole = \"server\"\nlisten = \""@.len() - ("listen"@.len() + 5)) =~= seq!['\n'] + "listen"@ + " = \""@);
        assert("\"\nadmin_listen = \""@.take(2) =~= "\"\n"@);
        lemma_setting(before, "# === Server Configuration ===\n# Server listens on TLS (TCP) + QUIC (UDP) simultaneously on the same port.\nrole = \"server\"\nlisten = \""@, "listen"@, listen, "\"\nadmin_listen = \""@, after);
        assert(s =~= before + "# === Server Configuration ===\n# Server listens on TLS (TCP) + QUIC (UDP) simultaneously on the same port.\nrole = \"server\"\nlisten = \""@ + listen + "\"\nadmin_listen = \""@ + after);
    }
    {
        let before = "# === Server Configuration ===\n# Server listens on TLS (TCP) + QUIC (UDP) simultaneously on the same port.\nrole = \"server\"\nlisten = \""@ + listen;
        let after = cert + "\"\nkey = \""@ + key + "\"\ntunnel_port_range = \""@ + tunnel_port_range + "\"\n\n# === Optional (uncomment to customize) ===\n# concurrent = 5\n# threads = 2\n# idle_timeout_secs = 120\n# mux_stream_window = 262144\n# max_connections = 256\n# log = \"\"\n# NOTE: If enabling file logging to /data/, remove :ro from the volume mount.\n"@;
        assert("\"\nadmin_listen = \""@.skip("\"\nadmin_listen = \""@.len() - ("admin_listen"@.len() + 5)) =~= seq!['\n'] + "admin_listen"@ + " = \""@);
        assert("\"\ncert = \""@.take(2) =~= "\"\n"@);
        lemma_setting(before, "\"\nadmin_listen = \""@, "admin_listen"@, admin_listen, "\"\ncert = \""@, after);
        assert(s =~= before + "\"\nadmin_listen = \""@ + admin_listen + "\"\ncert = \""@ + after);
    }
    {
        let before = "# === Server Configuration ===\n# Server listens on TLS (TCP) + QUIC (UDP) simultaneously on the same port.\nrole = \"server\"\nlisten = \""@ + listen + "\"\nadmin_listen = \""@ + admin_listen;
        let after = key + "\"\ntunnel_port_range = \""@ + tunnel_port_range + "\"\n\n# === Optional (uncomment to customize) ===\n# concurrent = 5\n# threads = 2\n# idle_timeout_secs = 120\n# mux_stream_window = 262144\n# max_connections = 256\n# log = \"\"\n# NOTE: If enabling file logging to /data/, remove :ro from the volume mount.\n"@;
        assert("\"\ncert = \""@.skip("\"\ncert = \""@.len() - ("cert"@.len() + 5)) =~= seq!['\n'] + "cert"@ + " = \""@);
        assert("\"\nkey = \""@.take(2) =~= "\"\n"@);
        lemma_setting(before, "\"\ncert = \""@, "cert"@, cert, "\"\nkey = \""@, after);
        assert(s =~= before + "\"\ncert = \""@ + cert + "\"\nkey = \""@ + after);
    }
    {
        let before = "# === Server Configuration ===\n# Server listens on TLS (TCP) + QUIC (UDP) simultaneously on the same port.\nrole = \"server\"\nlisten = \""@ + listen + "\"\nadmin_listen = \""@ + admin_listen + "\"\ncert = \""@ + cert;
        let after = tunnel_port_range + "\"\n\n# === Optional (uncomment to customize) ===\n# concurrent = 5\n# threads = 2\n# idle_timeout_secs = 120\n# mux_stream_window = 262144\n# max_connections = 256\n# log = \"\"\n# NOTE: If enabling file logging to /data/, remove :ro from the volume mount.\n"@;
        assert("\"\nkey = \""@.skip("\"\nkey = \""@.len() - ("key"@.len() + 5)) =~= seq!['\n'] + "key"@ + " = \""@);
        assert("\"\ntunnel_port_range = \""@.take(2) =~= "\"\n"@);
        lemma_setting(before, "\"\nkey = \""@, "key"@, key, "\"\ntunnel_port_range = \""@, after);
        assert(s =~= before + "\"\nkey = \""@ + key + "\"\ntunnel_port_range = \""@ + after);
    }
    {
        let before = "# === Server Configuration ===\n# Server listens on TLS (TCP) + QUIC (UDP) simultaneously on the same port.\nrole = \"server\"\nlisten = \""@ + listen + "\"\nadmin_listen = \""@ + admin_listen + "\"\ncert = \""@ + cert + "\"\nkey = \""@ + key;
        let after = Seq::<char>::empty();
        assert("\"\ntunnel_port_range = \""@.skip("\"\ntunnel_port_range = \""@.len() - ("tunnel_port_range"@.len() + 5)) =~= seq!['\n'] + "tunnel_port_range"@ + " = \""@);
        assert("\"\n\n# === Optional (uncomment to customize) ===\n# concurrent = 5\n# threads = 2\n# idle_timeout_secs = 120\n# mux_stream_window = 262144\n# max_connections = 256\n# log = \"\"\n# NOTE: If enabling file logging to /data/, remove :ro from the volume mount.\n"@.take(2) =~= "\"\n"@);
        lemma_setting(before, "\"\ntunnel_port_range = \""@, "tunnel_port_range"@, tunnel_port_range, "\"\n\n# === Optional (uncomment to customize) ===\n# concurrent = 5\n# threads = 2\n# idle_timeout_secs = 120\n# mux_stream_window = 262144\n# max_connections = 256\n# log = \"\"\n# NOTE: If enabling file logging to /data/, remove :ro from the volume mount.\n"@, after);
        assert(s =~= before + "\"\ntunnel_port_range = \""@ + tunnel_port_range + "\"\n\n# === Optional (uncomment to customize) ===\n# concurrent = 5\n# threads = 2\n# idle_timeout_secs = 120\n# mux_stream_window = 262144\n# max_connections = 256\n# log = \"\"\n# NOTE: If enabling file logging to /data/, remove :ro from the volume mount.\n"@ + after);
    }
}

/// The file of a proxy holds each of its settings, under its name.
pub proof fn proxy_file_holds_its_settings(tls_host: Seq<char>, cert: Seq<char>, remote: Seq<char>, listen: Seq<char>, admin_listen: Seq<char>)
    ensures
        text::has_part(client_proxy_toml(tls_host, cert, remote, listen, admin_listen), setting("remote"@, remote)),
        text::has_part(client_proxy_toml(tls_host, cert, remote, listen, admin_listen), setting("listen"@, listen)),
        text::has_part(client_proxy_toml(tls_host, cert, remote, listen, admin_listen), setting("admin_listen"@, admin_listen)),
        text::has_part(client_proxy_toml(tls_host, cert, remote, listen, admin_listen), setting("cert"@, cert)),
        text::has_part(client_proxy_toml(tls_host, cert, remote, listen, admin_listen), setting("tls_host"@, tls_host)),
{
    reveal_strlit("# === Client Proxy Configuration ===\nrole = \"client\"\nremote = \"");
    reveal_strlit("\"\nlisten = \"");
    reveal_strlit("\"\nadmin_listen = \"");
    reveal_strlit("\"\ncert = \"");
    reveal_strlit("\"\ntls_host = \"");
    reveal_strlit("\"\n\n# === Optional (uncomment to customize) ===\n# concurrent = 5\n# threads = 2\n# idle_timeout_secs = 120\n# mux_stream_window = 262144\n# max_connections = 256\n# log = \"\"\n# NOTE: \"remote\" uses Docker DNS name \"server\". For standalone docker run,\n# replace with actual IP or host.docker.internal.\n# NOTE: If enabling file logging to /data/, remove :ro from the volume mount.\n");
    reveal_strlit(" = \"");
    reveal_strlit("\"\n");
    reveal_strlit("remote");
    reveal_strlit("listen");
    reveal_strlit("admin_listen");
    reveal_strlit("cert");
    reveal_strlit("tls_host");
    let s = client_proxy_toml(tls_host, cert, remote, listen, admin_listen);
    {
        let before = Seq::<char>::empty();
        let after = listen + "\"\nadmin_listen = \""@ + admin_listen + "\"\ncert = \""@ + cert + "\"\ntls_host = \""@ + tls_host + "\"\n\n# === Optional (uncomment to customize) ===\n# concurrent = 5\n# threads = 2\n# idle_timeout_secs = 120\n# mux_stream_window = 262144\n# max_connections = 256\n# log = \"\"\n# NOTE: \"remote\" uses Docker DNS name \"server\". For standalone docker run,\n# replace with actual IP or host.docker.internal.\n# NOTE: If enabling file logging to /data/, remove :ro from the volume mount.\n"@;
        assert("# === Client Proxy Configuration ===\nrole = \"client\"\nremote = \""@.skip("# === Client Proxy Configuration ===\nrole = \"client\"\nremote = \""@.len() - ("remote"@.len() + 5)) =~= seq!['\n'] + "remote"@ + " = \""@);
        assert("\"\nlisten = \""@.take(2) =~= "\"\n"@);
        lemma_setting(before, "# === Client Proxy Configuration ===\nrole = \"client\"\nremote = \""@, "remote"@, remote, "\"\nlisten = \""@, after);
        assert(s =~= before + "# === Client Proxy Configuration ===\nrole = \"client\"\nremote = \""@ + remote + "\"\nlisten = \""@ + after);
    }
    {
        let before = "# === Client Proxy Configuration ===\nrole = \"client\"\nremote = \""@ + remote;
        let after = admin_listen + "\"\ncert = \""@ + cert + "\"\ntls_host = \""@ + tls_host + "\"\n\n# === Optional (uncomment to customize) ===\n# concurrent = 5\n# threads = 2\n# idle_timeout_secs = 120\n# mux_stream_window = 262144\n# max_connections = 256\n# log = \"\"\n# NOTE: \"remote\" uses Docker DNS name \"server\". For standalone docker run,\n# replace with actual IP or host.docker.internal.\n# NOTE: If enabling file logging to /data/, remove :ro from the volume mount.\n"@;
        assert("\"\nlisten = \""@.skip("\"\nlisten = \""@.len() - ("listen"@.len() + 5)) =~= seq!['\n'] + "listen"@ + " = \""@);
        assert("\"\nadmin_listen = \""@.take(2) =~= "\"\n"@);
        lemma_setting(before, "\"\nlisten = \""@, "listen"@, listen, "\"\nadmin_listen = \""@, after);
        assert(s =~= before + "\"\nlisten = \""@ + listen + "\"\nadmin_listen = \""@ + after);
    }
    {
        let before = "# === Client Proxy Configuration ===\nrole = \"client\"\nremote = \""@ + remote + "\"\nlisten = \""@ + listen;
        let after = cert + "\"\ntls_host = \""@ + tls_host + "\"\n\n# === Optional (uncomment to customize) ===\n# concurrent = 5\n# threads = 2\n# idle_timeout_secs = 120\n# mux_stream_window = 262144\n# max_connections = 256\n# log = \"\"\n# NOTE: \"remote\" uses Docker DNS name \"server\". For standalone docker run,\n# replace with actual IP or host.docker.internal.\n# NOTE: If enabling file logging to /data/, remove :ro from the volume mount.\n"@;
        assert("\"\nadmin_listen = \""@.skip("\"\nadmin_listen = \""@.len() - ("admin_listen"@.len() + 5)) =~= seq!['\n'] + "admin_listen"@ + " = \""@);
        assert("\"\ncert = \""@.take(2) =~= "\"\n"@);
        lemma_setting(before, "\"\nadmin_listen = \""@, "admin_listen"@, admin_listen, "\"\ncert = \""@, after);
        assert(s =~= before + "\"\nadmin_listen = \""@ + admin_listen + "\"\ncert = \""@ + after);
    }
    {
        let before = "# === Client Proxy Configuration ===\nrole = \"client\"\nremote = \""@ + remote + "\"\nlisten = \""@ + listen + "\"\nadmin_listen = \""@ + admin_listen;
        let after = tls_host + "\"\n\n# === Optional (uncomment to customize) ===\n# concurrent = 5\n# threads = 2\n# idle_timeout_secs = 120\n# mux_stream_window = 262144\n# max_connections = 256\n# log = \"\"\n# NOTE: \"remote\" uses Docker DNS name \"server\". For standalone docker run,\n# replace with actual IP or host.docker.internal.\n# NOTE: If enabling file logging to /data/, remove :ro from the volume mount.\n"@;
        assert("\"\ncert = \""@.skip("\"\ncert = \""@.len() - ("cert"@.len() + 5)) =~= seq!['\n'] + "cert"@ + " = \""@);
        assert("\"\ntls_host = \""@.take(2) =~= "\"\n"@);
        lemma_setting(before, "\"\ncert = \""@, "cert"@, cert, "\"\ntls_host = \""@, after);
        assert(s =~= before + "\"\ncert = \""@ + cert + "\"\ntls_host = \""@ + after);
    }
    {
        let before = "# === Client Proxy Configuration ===\nrole = \"client\"\nremote = \""@ + remote + "\"\nlisten = \""@ + listen + "\"\nadmin_listen = \""@ + admin_listen + "\"\ncert = \""@ + cert;
        let after = Seq::<char>::empty();
        assert("\"\ntls_host = \""@.skip("\"\ntls_host = \""@.len() - ("tls_host"@.len() + 5)) =~= seq!['\n'] + "tls_host"@ + " = \""@);
        assert("\"\n\n# === Optional (uncomment to customize) ===\n# concurrent = 5\n# threads = 2\n# idle_timeout_secs = 120\n# mux_stream_window = 262144\n# max_connections = 256\n# log = \"\"\n# NOTE: \"remote\" uses Docker DNS name \"server\". For standalone docker run,\n# replace with actual IP or host.docker.internal.\n# NOTE: If enabling file logging to /data/, remove :ro from the volume mount.\n"@.take(2) =~= "\"\n"@);
        lemma_setting(before, "\"\ntls_host = \""@, "tls_host"@, tls_host, "\"\n\n# === Optional (uncomment to customize) ===\n# concurrent = 5\n# threads = 2\n# idle_timeout_secs = 120\n# mux_stream_window = 262144\n# max_connections = 256\n# log = \"\"\n# NOTE: \"remote\" uses Docker DNS name \"server\". For standalone docker run,\n# replace with actual IP or host.docker.internal.\n# NOTE: If enabling file logging to /data/, remove :ro from the volume mount.\n"@, after);
        assert(s =~= before + "\"\ntls_host = \""@ + tls_host + "\"\n\n# === Optional (uncomment to customize) ===\n# concurrent = 5\n# threads = 2\n# idle_timeout_secs = 120\n# mux_stream_window = 262144\n# max_connections = 256\n# log = \"\"\n# NOTE: \"remote\" uses Docker DNS name \"server\". For standalone docker run,\n# replace with actual IP or host.docker.internal.\n# NOTE: If enabling file logging to /data/, remove :ro from the volume mount.\n"@ + after);
    }
}

/// The file of a client with tunnels holds each of its settings, under its name.
pub proof fn tunnel_file_holds_its_settings(
    tls_host: Seq<char>,
    cert: Seq<char>,
    remote: Seq<char>,
    admin_listen: Seq<char>,
    tunnel_client_id: Seq<char>,
    tunnel_entries: Seq<Seq<char>>,
)
    ensures
        text::has_part(client_tunnel_toml(tls_host, cert, remote, admin_listen, tunnel_client_id, tunnel_entries), setting("remote"@, remote)),
        text::has_part(client_tunnel_toml(tls_host, cert, remote, admin_listen, tunnel_client_id, tunnel_entries), setting("admin_listen"@, admin_listen)),
        text::has_part(client_tunnel_toml(tls_host, cert, remote, admin_listen, tunnel_client_id, tunnel_entries), setting("cert"@, cert)),
        text::has_part(client_tunnel_toml(tls_host, cert, remote, admin_listen, tunnel_client_id, tunnel_entries), setting("tls_host"@, tls_host)),
        text::has_part(client_tunnel_toml(tls_host, cert, remote, admin_listen, tunnel_client_id, tunnel_entries), setting("tunnel_client_id"@, tunnel_client_id)),
{
    reveal_strlit("# === Client Tunnel Configuration ===\nrole = \"client\"\nremote = \"");
    reveal_strlit("\"\nadmin_listen = \"");
    reveal_strlit("\"\ncert = \"");
    reveal_strlit("\"\ntls_host = \"");
    reveal_strlit("\"\ntunnel_client_id = \"");
    reveal_strlit("\"\n# Formats: \"port\" | \"local:remote\" | \"host:local:remote\" | \"host:local:remote:sni\"\ntunnel = [");
    reveal_strlit("]\n\n# === Optional (uncomment to customize) ===\n# threads = 2\n# idle_timeout_secs = 120\n# mux_stream_window = 262144\n# log = \"\"\n# NOTE: If enabling file logging to /data/, remove :ro from the volume mount.\n");
    reveal_strlit(" = \"");
    reveal_strlit("\"\n");
    reveal_strlit("remote");
    reveal_strlit("admin_listen");
    reveal_strlit("cert");
    reveal_strlit("tls_host");
    reveal_strlit("tunnel_client_id");
    let s = client_tunnel_toml(tls_host, cert, remote, admin_listen, tunnel_client_id, tunnel_entries);
    {
        let before = Seq::<char>::empty();
        let after = admin_listen + "\"\ncert = \""@ + cert + "\"\ntls_host = \""@ + tls_host + "\"\ntunnel_client_id = \""@ + tunnel_client_id + "\"\n# Formats: \"port\" | \"local:remote\" | \"host:local:remote\" | \"host:local:remote:sni\"\ntunnel = ["@ + quoted_list(tunnel_entries) + "]\n\n# === Optional (uncomment to customize) ===\n# threads = 2\n# idle_timeout_secs = 120\n# mux_stream_window = 262144\n# log = \"\"\n# NOTE: If enabling file logging to /data/, remove :ro from the volume mount.\n"@;
        assert("# === Client Tunnel Configuration ===\nrole = \"client\"\nremote = \""@.skip("# === Client Tunnel Configuration ===\nrole = \"client\"\nremote = \""@.len() - ("remote"@.len() + 5)) =~= seq!['\n'] + "remote"@ + " = \""@);
        assert("\"\nadmin_listen = \""@.take(2) =~= "\"\n"@);
        lemma_setting(before, "# === Client Tunnel Configuration ===\nrole = \"client\"\nremote = \""@, "remote"@, remote, "\"\nadmin_listen = \""@, after);
        assert(s =~= before + "# === Client Tunnel Configuration ===\nrole = \"client\"\nremote = \""@ + remote + "\"\nadmin_listen = \""@ + after);
    }
    {
        let before = "# === Client Tunnel Configuration ===\nrole = \"client\"\nremote = \""@ + remote;
        let after = cert + "\"\ntls_host = \""@ + tls_host + "\"\ntunnel_client_id = \""@ + tunnel_client_id + "\"\n# Formats: \"port\" | \"local:remote\" | \"host:local:remote\" | \"host:local:remote:sni\"\ntunnel = ["@ + quoted_list(tunnel_entries) + "]\n\n# === Optional (uncomment to customize) ===\n# threads = 2\n# idle_timeout_secs = 120\n# mux_stream_window = 262144\n# log = \"\"\n# NOTE: If enabling file logging to /data/, remove :ro from the volume mount.\n"@;
        assert("\"\nadmin_listen = \""@.skip("\"\nadmin_listen = \""@.len() - ("admin_listen"@.len() + 5)) =~= seq!['\n'] + "admin_listen"@ + " = \""@);
        assert("\"\ncert = \""@.take(2) =~= "\"\n"@);
        lemma_setting(before, "\"\nadmin_listen = \""@, "admin_listen"@, admin_listen, "\"\ncert = \""@, after);
        assert(s =~= before + "\"\nadmin_listen = \""@ + admin_listen + "\"\ncert = \""@ + after);
    }
    {
        let before = "# === Client Tunnel Configuration ===\nrole = \"client\"\nremote = \""@ + remote + "\"\nadmin_listen = \""@ + admin_listen;
        let after = tls_host + "\"\ntunnel_client_id = \""@ + tunnel_client_id + "\"\n# Formats: \"port\" | \"local:remote\" | \"host:local:remote\" | \"host:local:remote:sni\"\ntunnel = ["@ + quoted_list(tunnel_entries) + "]\n\n# === Optional (uncomment to customize) ===\n# threads = 2\n# idle_timeout_secs = 120\n# mux_stream_window = 262144\n# log = \"\"\n# NOTE: If enabling file logging to /data/, remove :ro from the volume mount.\n"@;
        assert("\"\ncert = \""@.skip("\"\ncert = \""@.len() - ("cert"@.len() + 5)) =~= seq!['\n'] + "cert"@ + " = \""@);
        assert("\"\ntls_host = \""@.take(2) =~= "\"\n"@);
        lemma_setting(before, "\"\ncert = \""@, "cert"@, cert, "\"\ntls_host = \""@, after);
        assert(s =~= before + "\"\ncert = \""@ + cert + "\"\ntls_host = \""@ + after);
    }
    {
        let before = "# === Client Tunnel Configuration ===\nrole = \"client\"\nremote = \""@ + remote + "\"\nadmin_listen = \""@ + admin_listen + "\"\ncert = \""@ + cert;
        let after = tunnel_client_id + "\"\n# Formats: \"port\" | \"local:remote\" | \"host:local:remote\" | \"host:local:remote:sni\"\ntunnel = ["@ + quoted_list(tunnel_entries) + "]\n\n# === Optional (uncomment to customize) ===\n# threads = 2\n# idle_timeout_secs = 120\n# mux_stream_window = 262144\n# log = \"\"\n# NOTE: If enabling file logging to /data/, remove :ro from the volume mount.\n"@;
        assert("\"\ntls_host = \""@.skip("\"\ntls_host = \""@.len() - ("tls_host"@.len() + 5)) =~= seq!['\n'] + "tls_host"@ + " = \""@);
        assert("\"\ntunnel_client_id = \""@.take(2) =~= "\"\n"@);
        lemma_setting(before, "\"\ntls_host = \""@, "tls_host"@, tls_host, "\"\ntunnel_client_id = \""@, after);
        assert(s =~= before + "\"\ntls_host = \""@ + tls_host + "\"\ntunnel_client_id = \""@ + after);
    }
    {
        let before = "# === Client Tunnel Configuration ===\nrole = \"client\"\nremote = \""@ + remote + "\"\nadmin_listen = \""@ + admin_listen + "\"\ncert = \""@ + cert + "\"\ntls_host = \""@ + tls_host;
        let after = quoted_list(tunnel_entries) + "]\n\n# === Optional (uncomment to customize) ===\n# threads = 2\n# idle_timeout_secs = 120\n# mux_stream_window = 262144\n# log = \"\"\n# NOTE: If enabling file logging to /data/, remove :ro from the volume mount.\n"@;
        assert("\"\ntunnel_client_id = \""@.skip("\"\ntunnel_client_id = \""@.len() - ("tunnel_client_id"@.len() + 5)) =~= seq!['\n'] + "tunnel_client_id"@ + " = \""@);
        assert("\"\n# Formats: \"port\" | \"local:remote\" | \"host:local:remote\" | \"host:local:remote:sni\"\ntunnel = ["@.take(2) =~= "\"\n"@);
        lemma_setting(before, "\"\ntunnel_client_id = \""@, "tunnel_client_id"@, tunnel_client_id, "\"\n# Formats: \"port\" | \"local:remote\" | \"host:local:remote\" | \"host:local:remote:sni\"\ntunnel = ["@, after);
        assert(s =~= before + "\"\ntunnel_client_id = \""@ + tunnel_client_id + "\"\n# Formats: \"port\" | \"local:remote\" | \"host:local:remote\" | \"host:local:remote:sni\"\ntunnel = ["@ + after);
    }
}

/// The file of a client with tunnels holds the list of them, on a line of its own.
pub proof fn tunnel_file_lists_the_tunnels(
    tls_host: Seq<char>,
    cert: Seq<char>,
    remote: Seq<char>,
    admin_listen: Seq<char>,
    tunnel_client_id: Seq<char>,
    tunnel_entries: Seq<Seq<char>>,
)
    ensures
        text::has_part(client_tunnel_toml(tls_host, cert, remote, admin_listen, tunnel_client_id, tunnel_entries), "\ntunnel = ["@ + quoted_list(tunnel_entries) + "]\n"@),
{
    reveal_strlit("\"\n# Formats: \"port\" | \"local:remote\" | \"host:local:remote\" | \"host:local:remote:sni\"\ntunnel = [");
    reveal_strlit("]\n\n# === Optional (uncomment to customize) ===\n# threads = 2\n# idle_timeout_secs = 120\n# mux_stream_window = 262144\n# log = \"\"\n# NOTE: If enabling file logging to /data/, remove :ro from the volume mount.\n");
    let s = client_tunnel_toml(tls_host, cert, remote, admin_listen, tunnel_client_id, tunnel_entries);
    reveal_strlit("\ntunnel = [");
    reveal_strlit("]\n");
    let start = "\"\n# Formats: \"port\" | \"local:remote\" | \"host:local:remote\" | \"host:local:remote:sni\"\ntunnel = ["@;
    let end = "]\n\n# === Optional (uncomment to customize) ===\n# threads = 2\n# idle_timeout_secs = 120\n# mux_stream_window = 262144\n# log = \"\"\n# NOTE: If enabling file logging to /data/, remove :ro from the volume mount.\n"@;
    let k = "\ntunnel = ["@.len() as int;
    assert(start.skip(start.len() - k) =~= "\ntunnel = ["@);
    assert(start =~= start.take(start.len() - k) + "\ntunnel = ["@);
    assert(end =~= "]\n"@ + end.skip(2));
    let none = Seq::<char>::empty();
    let x = "# === Client Tunnel Configuration ===\nrole = \"client\"\nremote = \""@ + remote + "\"\nadmin_listen = \""@ + admin_listen + "\"\ncert = \""@ + cert + "\"\ntls_host = \""@ + tls_host + "\"\ntunnel_client_id = \""@ + tunnel_client_id;
    lemma_middle(
        x,
        start.take(start.len() - k),
        "\ntunnel = ["@,
        quoted_list(tunnel_entries),
        "]\n"@,
        end.skip(2),
        none,
    );
    assert(s == x + start + quoted_list(tunnel_entries) + end + none);
}

/// The tunnels of a list stand in quotes, one after the other, with a comma between them.
pub proof fn listed_tunnels_are_quoted(p: Seq<Seq<char>>, t: Seq<char>)
    ensures
        quoted_list(Seq::empty()) == Seq::<char>::empty(),
        quoted_list(seq![t]) == seq!['"'] + t + seq!['"'],
        p.len() > 0 ==> quoted_list(p.push(t)) == quoted_list(p) + seq![',', ' ', '"'] + t + seq!['"'],
{
    reveal_strlit("\"");
    reveal_strlit(", ");
    assert("\""@ =~= seq!['"']);
    assert(", "@ =~= seq![',', ' ']);
    assert(seq![t][0] == t);
    assert(p.push(t).drop_last() =~= p);
    if p.len() > 0 {
        assert(quoted_list(p.push(t)) =~= quoted_list(p) + seq![',', ' ', '"'] + t + seq!['"']);
    }
}

/// In a directory of a container the files name the paths of the container, elsewhere those of
/// the directory.
pub proof fn paths_follow_the_directory(dir: OutputDir)
    ensures
        ({
            let docker = dir.is_data_root || (dir.file_name matches Some(name) && (name@ == seq![
                'd',
                'a',
                't',
                'a',
            ] || name@ == seq!['r', 's', 'n', 'o', 'v', 'a', '_', 'd', 'a', 't', 'a']));
            &&& docker ==> cert_path(dir) == seq![
                '/',
                'd',
                'a',
                't',
                'a',
                '/',
                'c',
                'e',
                'r',
                't',
                '.',
                'p',
                'e',
                'm',
            ] && key_path(dir) == seq![
                '/',
                'd',
                'a',
                't',
                'a',
                '/',
                'k',
                'e',
                'y',
                '.',
                'p',
                'e',
                'm',
            ]
            &&& !docker ==> cert_path(dir) == dir.cert_pem@ && key_path(dir) == dir.key_pem@
        }),
{
    reveal_strlit("data");
    reveal_strlit("rsnova_data");
    reveal_strlit("/data/cert.pem");
    reveal_strlit("/data/key.pem");
    assert("data"@ =~= seq!['d', 'a', 't', 'a']);
    assert("rsnova_data"@ =~= seq!['r', 's', 'n', 'o', 'v', 'a', '_', 'd', 'a', 't', 'a']);
    assert("/data/cert.pem"@ =~= seq![
        '/',
        'd',
        'a',
        't',
        'a',
        '/',
        'c',
        'e',
        'r',
        't',
        '.',
        'p',
        'e',
        'm',
    ]);
    assert("/data/key.pem"@ =~= seq![
        '/',
        'd',
        'a',
        't',
        'a',
        '/',
        'k',
        'e',
        'y',
        '.',
        'p',
        'e',
        'm',
    ]);
}

/// The characters are blanks.
pub open spec fn is_blank(s: Seq<char>) -> bool {
    forall|i: int|
        0 <= i < s.len() ==> #[trigger] s[i] == ' ' || s[i] == '\t' || s[i] == '\r' || s[i] == '\n'
}

proof fn lemma_blank_is_trimmed(a: Seq<char>)
    requires
        is_blank(a),
    ensures
        parts::trimmed(a).len() == 0,
    decreases a.len(),
{
    if a.len() > 0 {
        let rest = a.skip(1);
        assert(a[0] == ' ' || a[0] == '\t' || a[0] == '\r' || a[0] == '\n');
        assert forall|i: int| 0 <= i < rest.len() implies #[trigger] rest[i] == ' ' || rest[i]
            == '\t' || rest[i] == '\r' || rest[i] == '\n' by {
            assert(a[i + 1] == ' ' || a[i + 1] == '\t' || a[i + 1] == '\r' || a[i + 1] == '\n');
        }
        lemma_blank_is_trimmed(rest);
    }
}

/// An answer of nothing but blanks is the default; `y` and `yes` are a yes and `n` and `no` a no,
/// in either case and with blanks around them.
pub proof fn answers_are_understood(a: Seq<char>, w: Seq<char>, b: Seq<char>, default_yes: bool)
    requires
        is_blank(a),
        is_blank(b),
    ensures
        yes_no(a, default_yes) == Some(default_yes),
        (w == seq!['y'] || w == seq!['Y'] || w == seq!['y', 'e', 's'] || w == seq!['Y', 'e', 's']
            || w == seq!['Y', 'E', 'S']) ==> yes_no(a + w + b, default_yes) == Some(true),
        (w == seq!['n'] || w == seq!['N'] || w == seq!['n', 'o'] || w == seq!['N', 'o'] || w
            == seq!['N', 'O']) ==> yes_no(a + w + b, default_yes) == Some(false),
{
    reveal_strlit("y");
    reveal_strlit("yes");
    reveal_strlit("n");
    reveal_strlit("no");
    lemma_blank_is_trimmed(a);
    if w.len() > 0 && '!' <= w[0] <= '~' && '!' <= w.last() <= '~' {
        parts::trimming_leaves_the_text(a, w, b);
    }
    let e = seq!['y', 'e', 's'];
    assert(e[0] == 'y' && e[2] == 's');
    assert(http::lower('Y') == 'y' && http::lower('y') == 'y' && http::lower('E') == 'e'
        && http::lower('e') == 'e' && http::lower('S') == 's' && http::lower('s') == 's'
        && http::lower('N') == 'n' && http::lower('n') == 'n' && http::lower('O') == 'o'
        && http::lower('o') == 'o');
}

/// An answer of another text than a yes or a no is none, so that the question is asked again.
pub proof fn other_answers_are_not_understood(w: Seq<char>, default_yes: bool)
    requires
        w.len() > 3,
        '!' <= w[0] <= '~',
        '!' <= w.last() <= '~',
    ensures
        yes_no(w, default_yes) is None,
{
    reveal_strlit("y");
    reveal_strlit("yes");
    reveal_strlit("n");
    reveal_strlit("no");
    let none = Seq::<char>::empty();
    parts::trimming_leaves_the_text(none, w, none);
    assert(none + w + none =~= w);
}

/// The answer to a question for a text is the text without the blanks around it; nothing but
/// blanks is the default.
pub proof fn text_is_taken_or_the_default(
    a: Seq<char>,
    s: Seq<char>,
    b: Seq<char>,
    default: Seq<char>,
)
    requires
        is_blank(a),
        is_blank(b),
        s.len() > 0,
        '!' <= s[0] <= '~',
        '!' <= s.last() <= '~',
    ensures
        text_answer(a + s + b, default) == s,
        text_answer(a, default) == default,
{
    parts::trimming_leaves_the_text(a, s, b);
    lemma_blank_is_trimmed(a);
}

/// Tunnels in an answer stand between commas: those before a comma are followed by those behind
/// it, and each is taken without the blanks around it.
pub proof fn tunnels_stand_between_commas(
    a: Seq<char>,
    b: Seq<char>,
    x: Seq<char>,
    t: Seq<char>,
    y: Seq<char>,
)
    requires
        is_blank(x),
        is_blank(y),
        t.len() > 0,
        !t.contains(','),
        '!' <= t[0] <= '~',
        '!' <= t.last() <= '~',
    ensures
        named_tunnels(a + seq![','] + b) == named_tunnels(a) + named_tunnels(b),
        named_tunnels(x + t + y) == seq![t],
        named_tunnels(x) == Seq::<Seq<char>>::empty(),
{
    let sep = Separator::Char(',');
    let p = parts::pieces(a, sep);
    let q = parts::pieces(b, sep);
    parts::pieces_meet_at_separators(a, ',', b, sep);
    assert(all_trimmed(p + q) =~= all_trimmed(p) + all_trimmed(q));
    lemma_filled_joined(all_trimmed(p), all_trimmed(q));
    let w = x + t + y;
    assert forall|i: int| 0 <= i < w.len() implies w[i] != ',' by {
        if i < x.len() {
            assert(x[i] == ' ' || x[i] == '\t' || x[i] == '\r' || x[i] == '\n');
        } else if i < x.len() + t.len() {
            assert(t.contains(t[i - x.len()]));
        } else {
            let k = i - x.len() - t.len();
            assert(y[k] == ' ' || y[k] == '\t' || y[k] == '\r' || y[k] == '\n');
        }
    }
    parts::pieces_of_one(w, ',');
    parts::trimming_leaves_the_text(x, t, y);
    assert(all_trimmed(seq![w]) =~= seq![t]);
    assert(seq![t].drop_last() =~= Seq::empty());
    assert(parts::filled(Seq::<Seq<char>>::empty()) =~= Seq::empty());
    assert(parts::filled(seq![t]) =~= seq![t]);
    assert forall|i: int| 0 <= i < x.len() implies x[i] != ',' by {
        assert(x[i] == ' ' || x[i] == '\t' || x[i] == '\r' || x[i] == '\n');
    }
    parts::pieces_of_one(x, ',');
    lemma_blank_is_trimmed(x);
    let none = Seq::<char>::empty();
    assert(parts::trimmed(x) =~= none);
    assert(all_trimmed(seq![x]) =~= seq![none]);
    assert(seq![none].drop_last() =~= Seq::empty());
    assert(parts::filled(seq![none]) =~= Seq::empty());
}

proof fn lemma_filled_joined(p: Seq<Seq<char>>, q: Seq<Seq<char>>)
    ensures
        parts::filled(p + q) == parts::filled(p) + parts::filled(q),
    decreases q.len(),
{
    if q.len() == 0 {
        assert(p + q =~= p);
        assert(parts::filled(p) + parts::filled(q) =~= parts::filled(p));
    } else {
        assert((p + q).drop_last() =~= p + q.drop_last());
        lemma_filled_joined(p, q.drop_last());
        assert(parts::filled(p + q) =~= parts::filled(p) + parts::filled(q));
    }
}

/// A file is written exactly when it is not there or everything is replaced.
pub proof fn files_are_kept_or_written(
    w: Option<String>,
    file: InitFile,
    dir: OutputDir,
    tls_host: Seq<char>,
    force: bool,
    present: Present,
)
    requires
        writes(w, file, dir, tls_host, force, present),
    ensures
        w is Some <==> force || !(match file {
            InitFile::Server => present.server,
            InitFile::ClientProxy => present.client_proxy,
            InitFile::ClientTunnel => present.client_tunnel,
        }),
        w matches Some(content) ==> match file {
            InitFile::Server => text::has_part(content@, setting("cert"@, cert_path(dir)))
                && text::has_part(content@, setting("key"@, key_path(dir))) && text::has_part(
                content@,
                setting("listen"@, "0.0.0.0:48100"@),
            ),
            InitFile::ClientProxy => text::has_part(content@, setting("cert"@, cert_path(dir)))
                && text::has_part(content@, setting("tls_host"@, tls_host)) && text::has_part(
                content@,
                setting("listen"@, "0.0.0.0:48101"@),
            ),
            InitFile::ClientTunnel => text::has_part(content@, setting("cert"@, cert_path(dir)))
                && text::has_part(content@, setting("tls_host"@, tls_host)),
        },
{
    match file {
        InitFile::Server => {
            server_file_holds_its_settings(
                cert_path(dir),
                key_path(dir),
                "0.0.0.0:48100"@,
                "0.0.0.0:48102"@,
                "8000-9000"@,
            );
        },
        InitFile::ClientProxy => {
            proxy_file_holds_its_settings(
                tls_host,
                cert_path(dir),
                "tls://server:48100"@,
                "0.0.0.0:48101"@,
                "0.0.0.0:48103"@,
            );
        },
        InitFile::ClientTunnel => {
            tunnel_file_holds_its_settings(
                tls_host,
                cert_path(dir),
                "tls://127.0.0.1:48100"@,
                "0.0.0.0:48104"@,
                "my-client"@,
                seq!["8080:80"@, "8443:443"@],
            );
        },
    }
}

/// Without asking, nothing that is there is replaced unless everything is: what is missing is
/// made, the certificate for the host that was given and next to the files.
pub proof fn nothing_is_replaced_without_force(
    dir: OutputDir,
    tls_host: Seq<char>,
    force: bool,
    present: Present,
    r: InitPlan,
)
    requires
        plans_init(dir, tls_host, force, present, r),
    ensures
        r.certs is Some <==> force || !present.certs,
        r.server is Some <==> force || !present.server,
        r.client_proxy is Some <==> force || !present.client_proxy,
        r.client_tunnel is Some <==> force || !present.client_tunnel,
        r.certs matches Some(p) ==> p.tls_host@ == tls_host && p.cert_pem@ == dir.cert_pem@
            && p.key_pem@ == dir.key_pem@,
        r.server matches Some(content) ==> text::has_part(
            content@,
            setting("cert"@, cert_path(dir)),
        ),
{
    files_are_kept_or_written(r.server, InitFile::Server, dir, tls_host, force, present);
    files_are_kept_or_written(r.client_proxy, InitFile::ClientProxy, dir, tls_host, force, present);
    files_are_kept_or_written(
        r.client_tunnel,
        InitFile::ClientTunnel,
        dir,
        tls_host,
        force,
        present,
    );
}

} // verus!
