//! The admin server: its pages, and the settings that it takes.

use vstd::prelude::*;
use crate::tunnel_config;
use crate::text;
use crate::parts;
use crate::mux::event;
use crate::form;
use crate::app_config;
use crate::app_config::{ReloadableConfig, StaticArgs};
use crate::form::{extract_body, html_escape, parse_form_value};
use crate::mux::event::TunnelEntry;
use crate::parts::{lines, trim, words};
use crate::text::{decimal, from_utf8_lossy, replace_all, same_text, starts_with};
use crate::tunnel_config::{parse_tunnel_arg, EntryView, TunnelArgError};

verus! {

/// A field that is only shown.
pub open spec fn field_html(class: Seq<char>, label: Seq<char>, value: Seq<char>) -> Seq<char> {
    "<div class=\"form-group"@ + class + "\"><label>"@ + label
        + "</label><input type=\"text\" value=\""@ + value + "\" disabled /></div>"@
}

/// Two fields side by side.
pub open spec fn row2_html(a: Seq<char>, b: Seq<char>) -> Seq<char> {
    "<div class=\"form-row\">\n      "@ + a + "\n      "@ + b + "\n    </div>"@
}

/// Three fields side by side.
pub open spec fn row3_html(a: Seq<char>, b: Seq<char>, c: Seq<char>) -> Seq<char> {
    "<div class=\"form-row\">\n      "@ + a + "\n      "@ + b + "\n      "@ + c + "\n    </div>"@
}

fn field(class: &str, label: &str, value: &str) -> (r: String)
    ensures
        r@ == field_html(class@, label@, value@),
{
    let mut s: String = "<div class=\"form-group".to_owned();
    s.push_str(class);
    s.push_str("\"><label>");
    s.push_str(label);
    s.push_str("</label><input type=\"text\" value=\"");
    s.push_str(value);
    s.push_str("\" disabled /></div>");
    s
}

fn row2(a: String, b: String) -> (r: String)
    ensures
        r@ == row2_html(a@, b@),
{
    let mut s: String = "<div class=\"form-row\">\n      ".to_owned();
    s.push_str(a.as_str());
    s.push_str("\n      ");
    s.push_str(b.as_str());
    s.push_str("\n    </div>");
    s
}

fn row3(a: String, b: String, c: String) -> (r: String)
    ensures
        r@ == row3_html(a@, b@, c@),
{
    let mut s: String = "<div class=\"form-row\">\n      ".to_owned();
    s.push_str(a.as_str());
    s.push_str("\n      ");
    s.push_str(b.as_str());
    s.push_str("\n      ");
    s.push_str(c.as_str());
    s.push_str("\n    </div>");
    s
}

/// A truth value as it is shown.
pub open spec fn shown(b: bool) -> Seq<char> {
    if b {
        "true"@
    } else {
        "false"@
    }
}

/// The remote address, or nothing.
pub open spec fn remote_text(s: StaticArgs) -> Seq<char> {
    match s.remote {
        Some(r) => r@,
        None => ""@,
    }
}

/// The settings of a server.
pub open spec fn server_fields(s: StaticArgs) -> Seq<char> {
    row2_html(
        field_html(" half"@, "Listen"@, form::escaped(s.listen@)),
        field_html(" half"@, "Admin Listen"@, form::escaped(s.admin_listen@)),
    ) + "\n    "@ + row2_html(
        field_html(" half"@, "Certificate"@, form::escaped(s.cert@)),
        field_html(" half"@, "Key"@, form::escaped(s.key@)),
    ) + "\n    "@ + row2_html(
        field_html(" half"@, "TLS Host"@, form::escaped(s.tls_host@)),
        field_html(" half"@, "Threads"@, text::digits(s.threads as nat)),
    ) + "\n    "@ + row2_html(
        field_html(" third"@, "Idle Timeout"@, text::digits(s.idle_timeout_secs as nat)),
        field_html(" third"@, "Max Connections"@, text::digits(s.max_connections as nat)),
    )
}

/// The settings of a client with tunnels.
pub open spec fn tunnel_fields(s: StaticArgs) -> Seq<char> {
    row2_html(
        field_html(" half"@, "Remote"@, form::escaped(remote_text(s))),
        field_html(" half"@, "TLS Host"@, form::escaped(s.tls_host@)),
    ) + "\n    "@ + row2_html(
        field_html(" half"@, "Certificate"@, form::escaped(s.cert@)),
        field_html(" half"@, "Threads"@, text::digits(s.threads as nat)),
    ) + "\n    "@ + field_html(""@, "Idle Timeout"@, text::digits(s.idle_timeout_secs as nat))
}

/// The settings of a client that is a proxy.
pub open spec fn proxy_fields(s: StaticArgs) -> Seq<char> {
    row2_html(
        field_html(" half"@, "Listen"@, form::escaped(s.listen@)),
        field_html(" half"@, "Remote"@, form::escaped(remote_text(s))),
    ) + "\n    "@ + row2_html(
        field_html(" half"@, "Certificate"@, form::escaped(s.cert@)),
        field_html(" half"@, "TLS Host"@, form::escaped(s.tls_host@)),
    ) + "\n    "@ + row3_html(
        field_html(" third"@, "Concurrent"@, text::digits(s.concurrent as nat)),
        field_html(" third"@, "Threads"@, text::digits(s.threads as nat)),
        field_html(" third"@, "Idle Timeout"@, text::digits(s.idle_timeout_secs as nat)),
    ) + "\n    "@ + row2_html(
        field_html(" third"@, "Max Connections"@, text::digits(s.max_connections as nat)),
        field_html(" third"@, "Transparent Proxy"@, shown(s.tproxy)),
    )
}

/// The settings of the connection.
pub open spec fn connection_fields(s: StaticArgs) -> Seq<char> {
    if s.role@ == "server"@ {
        server_fields(s)
    } else if s.is_tunnel {
        tunnel_fields(s)
    } else {
        proxy_fields(s)
    }
}

fn render_connection_fields(s: &StaticArgs) -> (r: String)
    ensures
        r@ == connection_fields(*s),
{
    let remote: String = match &s.remote {
        Some(r) => r.clone(),
        None => "".to_owned(),
    };
    let threads = decimal(s.threads as u64);
    let idle = decimal(s.idle_timeout_secs as u64);
    let max_conn = decimal(s.max_connections as u64);
    if same_text(s.role.as_str(), "server") {
        let mut out = row2(
            field(" half", "Listen", html_escape(s.listen.as_str()).as_str()),
            field(" half", "Admin Listen", html_escape(s.admin_listen.as_str()).as_str()),
        );
        out.push_str("\n    ");
        out.push_str(
            row2(
                field(" half", "Certificate", html_escape(s.cert.as_str()).as_str()),
                field(" half", "Key", html_escape(s.key.as_str()).as_str()),
            ).as_str(),
        );
        out.push_str("\n    ");
        out.push_str(
            row2(
                field(" half", "TLS Host", html_escape(s.tls_host.as_str()).as_str()),
                field(" half", "Threads", threads.as_str()),
            ).as_str(),
        );
        out.push_str("\n    ");
        out.push_str(
            row2(
                field(" third", "Idle Timeout", idle.as_str()),
                field(" third", "Max Connections", max_conn.as_str()),
            ).as_str(),
        );
        out
    } else if s.is_tunnel {
        let mut out = row2(
            field(" half", "Remote", html_escape(remote.as_str()).as_str()),
            field(" half", "TLS Host", html_escape(s.tls_host.as_str()).as_str()),
        );
        out.push_str("\n    ");
        out.push_str(
            row2(
                field(" half", "Certificate", html_escape(s.cert.as_str()).as_str()),
                field(" half", "Threads", threads.as_str()),
            ).as_str(),
        );
        out.push_str("\n    ");
        out.push_str(field("", "Idle Timeout", idle.as_str()).as_str());
        out
    } else {
        let mut out = row2(
            field(" half", "Listen", html_escape(s.listen.as_str()).as_str()),
            field(" half", "Remote", html_escape(remote.as_str()).as_str()),
        );
        out.push_str("\n    ");
        out.push_str(
            row2(
                field(" half", "Certificate", html_escape(s.cert.as_str()).as_str()),
                field(" half", "TLS Host", html_escape(s.tls_host.as_str()).as_str()),
            ).as_str(),
        );
        out.push_str("\n    ");
        out.push_str(
            row3(
                field(" third", "Concurrent", decimal(s.concurrent as u64).as_str()),
                field(" third", "Threads", threads.as_str()),
                field(" third", "Idle Timeout", idle.as_str()),
            ).as_str(),
        );
        out.push_str("\n    ");
        let tproxy: &str = if s.tproxy {
            "true"
        } else {
            "false"
        };
        out.push_str(
            row2(
                field(" third", "Max Connections", max_conn.as_str()),
                field(" third", "Transparent Proxy", tproxy),
            ).as_str(),
        );
        out
    }
}

/// A tunnel as a row of inputs.
pub open spec fn tunnel_row(e: EntryView) -> Seq<char> {
    "<div class=\"tunnel-row\"><input type=\"text\" class=\"t-local\" placeholder=\"host:port\" value=\""@
        + form::escaped(e.0)
        + "\" /><input type=\"text\" class=\"t-remote\" placeholder=\"remote port\" value=\""@
        + text::digits(e.1 as nat)
        + "\" /><input type=\"text\" class=\"t-sni\" placeholder=\"optional\" value=\""@ + (
    match e.2 {
        Some(sni) => sni,
        None => ""@,
    })
        + "\" /><button type=\"button\" class=\"btn btn-remove\" onclick=\"this.parentElement.remove()\">✕</button></div>"@
}

/// The rows of the tunnels, one to a line.
pub open spec fn tunnel_rows(es: Seq<EntryView>) -> Seq<char>
    decreases es.len(),
{
    if es.len() == 0 {
        Seq::empty()
    } else if es.len() == 1 {
        tunnel_row(es[0])
    } else {
        tunnel_rows(es.drop_last()) + "\n"@ + tunnel_row(es.last())
    }
}

fn render_row(e: &TunnelEntry) -> (r: String)
    ensures
        r@ == tunnel_row(e@),
{
    let mut s: String =
        "<div class=\"tunnel-row\"><input type=\"text\" class=\"t-local\" placeholder=\"host:port\" value=\"".to_owned();
    s.push_str(html_escape(e.local_addr.as_str()).as_str());
    s.push_str("\" /><input type=\"text\" class=\"t-remote\" placeholder=\"remote port\" value=\"");
    s.push_str(decimal(e.remote_port as u64).as_str());
    s.push_str("\" /><input type=\"text\" class=\"t-sni\" placeholder=\"optional\" value=\"");
    match &e.sni {
        Some(sni) => s.push_str(sni.as_str()),
        None => s.push_str(""),
    }
    s.push_str(
        "\" /><button type=\"button\" class=\"btn btn-remove\" onclick=\"this.parentElement.remove()\">✕</button></div>",
    );
    s
}

fn render_rows(entries: &Vec<TunnelEntry>) -> (r: String)
    ensures
        r@ == tunnel_rows(app_config::entry_views(entries@)),
{
    let ghost all = app_config::entry_views(entries@);
    if entries.len() == 0 {
        let r: String = String::new();
        assert(r@ =~= Seq::empty());
        return r;
    }
    let mut out: String = render_row(&entries[0]);
    let mut i: usize = 1;
    proof {
        assert(all.take(1)[0] == entries@[0]@);
    }
    while i < entries.len()
        invariant
            1 <= i <= entries@.len(),
            all == app_config::entry_views(entries@),
            out@ == tunnel_rows(all.take(i as int)),
        decreases entries@.len() - i,
    {
        proof {
            assert(all.take(i + 1).drop_last() =~= all.take(i as int));
            assert(all.take(i + 1).last() == entries@[i as int]@);
        }
        out.push_str("\n");
        out.push_str(render_row(&entries[i]).as_str());
        i += 1;
    }
    assert(all.take(i as int) =~= all);
    out
}

/// The part of the page that changes the tunnels; only a client with tunnels has it.
pub open spec fn tunnel_section(
    s: StaticArgs,
    config: (Seq<EntryView>, Seq<char>),
) -> Seq<char> {
    if s.role@ != "server"@ && s.is_tunnel {
        "<div class=\"section-title\">Tunnel</div>\n    <div class=\"form-group\">\n      <label for=\"tunnel_client_id\">Client ID</label>\n      <input type=\"text\" id=\"tunnel_client_id\" name=\"tunnel_client_id\" value=\""@
            + form::escaped(config.1)
            + "\" placeholder=\"unique identifier for this client\" />\n    </div>\n    <div class=\"tunnel-header\">\n      <span class=\"th-local\">Local Address</span>\n      <span class=\"th-remote\">Remote Port</span>\n      <span class=\"th-sni\">SNI</span>\n      <span class=\"th-action\"></span>\n    </div>\n    <div id=\"tunnel-rows\">\n      "@
            + tunnel_rows(config.0)
            + "\n    </div>\n    <button type=\"button\" class=\"btn btn-add\" onclick=\"addTunnelRow()\">+ Add Tunnel</button>\n    <input type=\"hidden\" id=\"tunnel\" name=\"tunnel\" />"@
    } else {
        Seq::empty()
    }
}

fn render_tunnel_section(s: &StaticArgs, config: &ReloadableConfig) -> (r: String)
    ensures
        r@ == tunnel_section(*s, config@),
{
    if same_text(s.role.as_str(), "server") || !s.is_tunnel {
        let r: String = String::new();
        assert(r@ =~= Seq::empty());
        return r;
    }
    let mut out: String =
        "<div class=\"section-title\">Tunnel</div>\n    <div class=\"form-group\">\n      <label for=\"tunnel_client_id\">Client ID</label>\n      <input type=\"text\" id=\"tunnel_client_id\" name=\"tunnel_client_id\" value=\"".to_owned();
    out.push_str(html_escape(config.tunnel_client_id.as_str()).as_str());
    out.push_str(
        "\" placeholder=\"unique identifier for this client\" />\n    </div>\n    <div class=\"tunnel-header\">\n      <span class=\"th-local\">Local Address</span>\n      <span class=\"th-remote\">Remote Port</span>\n      <span class=\"th-sni\">SNI</span>\n      <span class=\"th-action\"></span>\n    </div>\n    <div id=\"tunnel-rows\">\n      ",
    );
    out.push_str(render_rows(&config.tunnel_entries).as_str());
    out.push_str(
        "\n    </div>\n    <button type=\"button\" class=\"btn btn-add\" onclick=\"addTunnelRow()\">+ Add Tunnel</button>\n    <input type=\"hidden\" id=\"tunnel\" name=\"tunnel\" />",
    );
    out
}

/// A message at the top of the page.
pub open spec fn alert_html(alert: Option<Seq<char>>) -> Seq<char> {
    match alert {
        Some(msg) => if text::occurs_at(msg, "Error"@, 0) {
            "<div class=\"alert alert-error\">"@ + msg + "</div>"@
        } else {
            "<div class=\"alert alert-success\">"@ + msg + "</div>"@
        },
        None => Seq::empty(),
    }
}

fn render_alert(alert: Option<&str>) -> (r: String)
    ensures
        r@ == alert_html(
            match alert {
                Some(msg) => Some(msg@),
                None => None,
            },
        ),
{
    match alert {
        Some(msg) => {
            let mut out: String = if starts_with(msg, "Error") {
                "<div class=\"alert alert-error\">".to_owned()
            } else {
                "<div class=\"alert alert-success\">".to_owned()
            };
            out.push_str(msg);
            out.push_str("</div>");
            out
        },
        None => {
            let r: String = String::new();
            assert(r@ =~= Seq::empty());
            r
        },
    }
}

/// What the program is running as.
pub open spec fn role_label(s: StaticArgs) -> Seq<char> {
    if s.role@ == "server"@ {
        "Server"@
    } else if s.is_tunnel {
        "Client (Tunnel)"@
    } else {
        "Client (Proxy)"@
    }
}

/// The page: the template with each of its marks replaced, one after the other.
pub open spec fn config_page(
    template: Seq<char>,
    css: Seq<char>,
    s: StaticArgs,
    config: (Seq<EntryView>, Seq<char>),
    alert: Option<Seq<char>>,
) -> Seq<char> {
    let p1 = text::replaced(template, "{{CSS}}"@, css);
    let p2 = text::replaced(p1, "{{ROLE_LABEL}}"@, role_label(s));
    let p3 = text::replaced(p2, "{{ADMIN_LISTEN}}"@, s.admin_listen@);
    let p4 = text::replaced(p3, "{{CONNECTION_FIELDS}}"@, connection_fields(s));
    let p5 = text::replaced(p4, "{{TUNNEL_SECTION}}"@, tunnel_section(s, config));
    text::replaced(p5, "{{ALERT}}"@, alert_html(alert))
}

/// The template of the page and its style sheet.
pub struct PageAssets {
    pub template: String,
    pub css: String,
}

/// Renders the page with the settings.
pub fn render_config_page(
    assets: &PageAssets,
    s: &StaticArgs,
    config: &ReloadableConfig,
    alert: Option<&str>,
) -> (r: String)
    ensures
        r@ == config_page(
            assets.template@,
            assets.css@,
            *s,
            config@,
            match alert {
                Some(msg) => Some(msg@),
                None => None,
            },
        ),
{
    proof {
        reveal_strlit("{{CSS}}");
        reveal_strlit("{{ROLE_LABEL}}");
        reveal_strlit("{{ADMIN_LISTEN}}");
        reveal_strlit("{{CONNECTION_FIELDS}}");
        reveal_strlit("{{TUNNEL_SECTION}}");
        reveal_strlit("{{ALERT}}");
    }
    let label: &str = if same_text(s.role.as_str(), "server") {
        "Server"
    } else if s.is_tunnel {
        "Client (Tunnel)"
    } else {
        "Client (Proxy)"
    };
    let fields = render_connection_fields(s);
    let tunnels = render_tunnel_section(s, config);
    let message = render_alert(alert);
    let p1 = replace_all(assets.template.as_str(), "{{CSS}}", assets.css.as_str());
    let p2 = replace_all(p1.as_str(), "{{ROLE_LABEL}}", label);
    let p3 = replace_all(p2.as_str(), "{{ADMIN_LISTEN}}", s.admin_listen.as_str());
    let p4 = replace_all(p3.as_str(), "{{CONNECTION_FIELDS}}", fields.as_str());
    let p5 = replace_all(p4.as_str(), "{{TUNNEL_SECTION}}", tunnels.as_str());
    replace_all(p5.as_str(), "{{ALERT}}", message.as_str())
}

/// Why settings are not taken.
#[derive(Debug, PartialEq, Eq, Structural, Clone, Copy)]
pub enum SaveError {
    /// A tunnel cannot be read.
    Entry(TunnelArgError),
    /// There are tunnels, but no client id.
    ClientId,
}

impl SaveError {
    pub open spec fn text(self) -> Seq<char> {
        match self {
            SaveError::Entry(e) => e.text(),
            SaveError::ClientId => "tunnel_client_id is required when tunnel entries are specified"@,
        }
    }

    pub fn message(&self) -> (r: &'static str)
        ensures
            r@ == self.text(),
    {
        match self {
            SaveError::Entry(e) => e.message(),
            SaveError::ClientId => "tunnel_client_id is required when tunnel entries are specified",
        }
    }
}

/// The tunnels in some lines, without the empty ones; the first that cannot be read decides.
pub open spec fn entries_in(lines: Seq<Seq<char>>) -> Result<Seq<EntryView>, TunnelArgError>
    decreases lines.len(),
{
    if lines.len() == 0 {
        Ok(Seq::empty())
    } else {
        match entries_in(lines.drop_last()) {
            Ok(before) => {
                let line = parts::trimmed(lines.last());
                if line.len() == 0 {
                    Ok(before)
                } else {
                    match tunnel_config::tunnel_entry(line) {
                        Ok(e) => Ok(before.push(e)),
                        Err(e) => Err(e),
                    }
                }
            },
            Err(e) => Err(e),
        }
    }
}

/// The value of a field; empty where it is not there.
pub open spec fn field_of(body: Seq<char>, key: Seq<char>) -> Seq<char> {
    match form::form_value(body, key) {
        Some(v) => v,
        None => Seq::empty(),
    }
}

/// The settings that a form gives: its tunnels and the client's id.
pub open spec fn settings_in(body: Seq<char>) -> Result<(Seq<EntryView>, Seq<char>), SaveError> {
    let client_id = field_of(body, "tunnel_client_id"@);
    match entries_in(parts::lines_of(field_of(body, "tunnel"@))) {
        Ok(entries) => if entries.len() > 0 && client_id.len() == 0 {
            Err(SaveError::ClientId)
        } else {
            Ok((entries, client_id))
        },
        Err(e) => Err(SaveError::Entry(e)),
    }
}

proof fn lemma_entry_error_stays(lines: Seq<Seq<char>>, i: int)
    requires
        0 <= i <= lines.len(),
        entries_in(lines.take(i)) is Err,
    ensures
        entries_in(lines) == entries_in(lines.take(i)),
    decreases lines.len(),
{
    if i == lines.len() {
        assert(lines.take(i) =~= lines);
    } else {
        assert(lines.drop_last().take(i) =~= lines.take(i));
        lemma_entry_error_stays(lines.drop_last(), i);
    }
}

fn parse_entries(raw: &str) -> (r: Result<Vec<TunnelEntry>, TunnelArgError>)
    ensures
        match entries_in(parts::lines_of(raw@)) {
            Ok(es) => r is Ok && app_config::entry_views(r->Ok_0@) == es,
            Err(e) => r is Err && r->Err_0 == e,
        },
{
    let all = lines(raw);
    let ghost texts = parts::texts(all@);
    let mut entries: Vec<TunnelEntry> = Vec::new();
    let mut i: usize = 0;
    proof {
        assert(texts.take(0) =~= Seq::empty());
        assert(app_config::entry_views(entries@) =~= Seq::empty());
    }
    while i < all.len()
        invariant
            i <= all@.len(),
            texts == parts::texts(all@),
            texts == parts::lines_of(raw@),
            entries_in(texts.take(i as int)) == Ok::<Seq<EntryView>, TunnelArgError>(
                app_config::entry_views(entries@),
            ),
        decreases all@.len() - i,
    {
        let ghost before = entries@;
        proof {
            assert(texts.take(i + 1).drop_last() =~= texts.take(i as int));
            assert(texts.take(i + 1).last() == all@[i as int]@);
        }
        let line = trim(all[i].as_str());
        if !line.as_str().is_empty() {
            match parse_tunnel_arg(line.as_str()) {
                Ok(e) => {
                    let ghost view = e@;
                    entries.push(e);
                    assert(app_config::entry_views(entries@) =~= app_config::entry_views(
                        before,
                    ).push(view));
                },
                Err(e) => {
                    proof {
                        lemma_entry_error_stays(texts, i + 1);
                    }
                    return Err(e);
                },
            }
        }
        i += 1;
    }
    assert(texts.take(i as int) =~= texts);
    Ok(entries)
}

fn form_field(body: &str, key: &str) -> (r: String)
    ensures
        r@ == field_of(body@, key@),
{
    match parse_form_value(body, key) {
        Some(v) => v,
        None => {
            let r: String = String::new();
            assert(r@ =~= Seq::empty());
            r
        },
    }
}

/// Takes the settings of a submitted form; what cannot be taken changes nothing.
pub fn handle_config_save(config: &mut ReloadableConfig, body: &str) -> (r: Result<(), SaveError>)
    ensures
        match settings_in(body@) {
            Ok(settings) => r is Ok && final(config)@ == settings,
            Err(e) => r is Err && r->Err_0 == e && final(config)@ == old(config)@,
        },
{
    let tunnel_raw = form_field(body, "tunnel");
    let client_id = form_field(body, "tunnel_client_id");
    let entries = match parse_entries(tunnel_raw.as_str()) {
        Ok(entries) => entries,
        Err(e) => {
            return Err(SaveError::Entry(e));
        },
    };
    if entries.len() > 0 && client_id.as_str().is_empty() {
        return Err(SaveError::ClientId);
    }
    config.tunnel_entries = entries;
    config.tunnel_client_id = client_id;
    Ok(())
}

/// What a request asks for.
#[derive(Debug, PartialEq, Eq, Structural, Clone, Copy)]
pub enum Endpoint {
    Metrics,
    ShowConfig,
    SaveConfig,
    Index,
    NotFound,
}

/// The method and path of a request; without them, the index is asked for.
pub open spec fn request_line(request: Seq<char>) -> (Seq<char>, Seq<char>) {
    let lines = parts::lines_of(request);
    let words = parts::words_of(
        if lines.len() > 0 {
            lines[0]
        } else {
            ""@
        },
    );
    (
        if words.len() > 0 {
            words[0]
        } else {
            "GET"@
        },
        if words.len() > 1 {
            words[1]
        } else {
            "/"@
        },
    )
}

pub open spec fn endpoint_of(method: Seq<char>, path: Seq<char>) -> Endpoint {
    if method == "GET"@ && path == "/metrics"@ {
        Endpoint::Metrics
    } else if method == "GET"@ && path == "/config"@ {
        Endpoint::ShowConfig
    } else if method == "POST"@ && path == "/config"@ {
        Endpoint::SaveConfig
    } else if method == "GET"@ && path == "/"@ {
        Endpoint::Index
    } else {
        Endpoint::NotFound
    }
}

fn parse_endpoint(request: &str) -> (r: Endpoint)
    ensures
        r == endpoint_of(request_line(request@).0, request_line(request@).1),
{
    let all = lines(request);
    let ghost texts = parts::texts(all@);
    let first: &str = if all.len() > 0 {
        assert(texts[0] == all@[0]@);
        all[0].as_str()
    } else {
        ""
    };
    let line = words(first);
    let ghost parts_of_line = parts::texts(line@);
    let method: &str = if line.len() > 0 {
        assert(parts_of_line[0] == line@[0]@);
        line[0].as_str()
    } else {
        "GET"
    };
    let path: &str = if line.len() > 1 {
        assert(parts_of_line[1] == line@[1]@);
        line[1].as_str()
    } else {
        "/"
    };
    if same_text(method, "GET") && same_text(path, "/metrics") {
        Endpoint::Metrics
    } else if same_text(method, "GET") && same_text(path, "/config") {
        Endpoint::ShowConfig
    } else if same_text(method, "POST") && same_text(path, "/config") {
        Endpoint::SaveConfig
    } else if same_text(method, "GET") && same_text(path, "/") {
        Endpoint::Index
    } else {
        Endpoint::NotFound
    }
}

/// An answer of the server.
pub struct AdminResponse {
    pub status: &'static str,
    pub content_type: &'static str,
    pub body: String,
    /// The settings have changed, and the tunnels are to be made anew.
    pub reload: bool,
}

/// The text of the index.
pub open spec fn index_text() -> Seq<char> {
    "rsnova admin server\n\nEndpoints:\n  /metrics - Server metrics\n  /config - Configuration editor\n"@
}

/// The text for a path that is not there.
pub open spec fn not_found_text() -> Seq<char> {
    "404 Not Found\n\nAvailable endpoints:\n  /metrics - Server metrics\n  /config - Configuration editor\n"@
}

/// The message after the settings were saved, or not.
pub open spec fn save_alert(saved: Result<(Seq<EntryView>, Seq<char>), SaveError>) -> Seq<char> {
    match saved {
        Ok(_) => "Configuration saved. Tunnel client will reconnect."@,
        Err(e) => "Error: "@ + e.text(),
    }
}

/// The answer to a request, and the settings after it.
pub open spec fn answers(
    request: Seq<char>,
    metrics: Seq<char>,
    assets: PageAssets,
    s: StaticArgs,
    pre: (Seq<EntryView>, Seq<char>),
    post: (Seq<EntryView>, Seq<char>),
    r: AdminResponse,
) -> bool {
    let plain = "text/plain; charset=utf-8"@;
    let html = "text/html; charset=utf-8"@;
    let line = request_line(request);
    match endpoint_of(line.0, line.1) {
        Endpoint::Metrics => {
            &&& r.status@ == "200 OK"@ && r.content_type@ == plain && r.body@ == metrics
            &&& post == pre && !r.reload
        },
        Endpoint::ShowConfig => {
            &&& r.status@ == "200 OK"@ && r.content_type@ == html
            &&& r.body@ == config_page(assets.template@, assets.css@, s, pre, None)
            &&& post == pre && !r.reload
        },
        Endpoint::SaveConfig => {
            let saved = settings_in(form::body_of(request));
            &&& r.status@ == "200 OK"@ && r.content_type@ == html
            &&& r.body@ == config_page(
                assets.template@,
                assets.css@,
                s,
                post,
                Some(save_alert(saved)),
            )
            &&& r.reload == (saved is Ok)
            &&& post == match saved {
                Ok(settings) => settings,
                Err(_) => pre,
            }
        },
        Endpoint::Index => {
            &&& r.status@ == "200 OK"@ && r.content_type@ == plain && r.body@ == index_text()
            &&& post == pre && !r.reload
        },
        Endpoint::NotFound => {
            &&& r.status@ == "404 Not Found"@ && r.content_type@ == plain && r.body@
                == not_found_text()
            &&& post == pre && !r.reload
        },
    }
}

/// Answers a request of the admin server. `metrics` is what the metrics page shows.
pub fn respond(
    request: &str,
    metrics: &str,
    assets: &PageAssets,
    s: &StaticArgs,
    config: &mut ReloadableConfig,
) -> (r: AdminResponse)
    ensures
        answers(request@, metrics@, *assets, *s, old(config)@, final(config)@, r),
{
    let plain: &'static str = "text/plain; charset=utf-8";
    let html: &'static str = "text/html; charset=utf-8";
    match parse_endpoint(request) {
        Endpoint::Metrics => AdminResponse {
            status: "200 OK",
            content_type: plain,
            body: metrics.to_owned(),
            reload: false,
        },
        Endpoint::ShowConfig => AdminResponse {
            status: "200 OK",
            content_type: html,
            body: render_config_page(assets, s, config, None),
            reload: false,
        },
        Endpoint::SaveConfig => {
            let body = extract_body(request);
            let saved = handle_config_save(config, body.as_str());
            let mut alert: String = String::new();
            let reload: bool = match saved {
                Ok(()) => {
                    alert = "Configuration saved. Tunnel client will reconnect.".to_owned();
                    true
                },
                Err(e) => {
                    alert = "Error: ".to_owned();
                    alert.push_str(e.message());
                    false
                },
            };
            AdminResponse {
                status: "200 OK",
                content_type: html,
                body: render_config_page(assets, s, config, Some(alert.as_str())),
                reload,
            }
        },
        Endpoint::Index => AdminResponse {
            status: "200 OK",
            content_type: plain,
            body: "rsnova admin server\n\nEndpoints:\n  /metrics - Server metrics\n  /config - Configuration editor\n".to_owned(),
            reload: false,
        },
        Endpoint::NotFound => AdminResponse {
            status: "404 Not Found",
            content_type: plain,
            body: "404 Not Found\n\nAvailable endpoints:\n  /metrics - Server metrics\n  /config - Configuration editor\n".to_owned(),
            reload: false,
        },
    }
}

/// Answers the bytes that a client sent.
pub fn respond_to_bytes(
    request: &[u8],
    metrics: &str,
    assets: &PageAssets,
    s: &StaticArgs,
    config: &mut ReloadableConfig,
) -> (r: AdminResponse)
    ensures
        answers(
            text::lossy_utf8(request@),
            metrics@,
            *assets,
            *s,
            old(config)@,
            final(config)@,
            r,
        ),
{
    respond(from_utf8_lossy(request).as_str(), metrics, assets, s, config)
}

/// The head of an answer.
pub open spec fn response_head(status: Seq<char>, content_type: Seq<char>, len: nat) -> Seq<char> {
    "HTTP/1.1 "@ + status + "\r\nContent-Type: "@ + content_type + "\r\nContent-Length: "@
        + text::digits(len) + "\r\nConnection: close\r\n\r\n"@
}

impl AdminResponse {
    /// The bytes of the answer: its head, then its body.
    pub fn to_bytes(&self) -> (r: (Vec<u8>, Vec<u8>))
        ensures
            r.1@ == vstd::utf8::encode_utf8(self.body@),
            r.0@ == vstd::utf8::encode_utf8(
                response_head(self.status@, self.content_type@, r.1@.len()),
            ),
    {
        let body = vstd::slice::slice_to_vec(self.body.as_str().as_bytes());
        let mut head: String = "HTTP/1.1 ".to_owned();
        head.push_str(self.status);
        head.push_str("\r\nContent-Type: ");
        head.push_str(self.content_type);
        head.push_str("\r\nContent-Length: ");
        head.push_str(decimal(body.len() as u64).as_str());
        head.push_str("\r\nConnection: close\r\n\r\n");
        (vstd::slice::slice_to_vec(head.as_str().as_bytes()), body)
    }
}

/// Only a form that can be read changes the settings.
pub proof fn only_a_valid_save_changes_settings(
    request: Seq<char>,
    metrics: Seq<char>,
    assets: PageAssets,
    s: StaticArgs,
    pre: (Seq<EntryView>, Seq<char>),
    post: (Seq<EntryView>, Seq<char>),
    r: AdminResponse,
)
    requires
        answers(request, metrics, assets, s, pre, post, r),
        pre != post,
    ensures
        r.reload,
        request_line(request) == ("POST"@, "/config"@),
        settings_in(form::body_of(request)) is Ok,
{
}

/// Settings that hold tunnels always name the client.
pub proof fn saved_tunnels_name_the_client(body: Seq<char>)
    requires
        settings_in(body) is Ok,
    ensures
        settings_in(body)->Ok_0.0.len() > 0 ==> settings_in(body)->Ok_0.1.len() > 0,
{
}

/// A request as it is sent: a line of three words, and whatever else.
pub open spec fn request_text(
    method: Seq<char>,
    path: Seq<char>,
    version: Seq<char>,
    rest: Seq<char>,
) -> Seq<char> {
    method + seq![' '] + path + seq![' '] + version + seq!['\r', '\n'] + rest
}

/// A word of characters without blanks.
pub open spec fn is_word(s: Seq<char>) -> bool {
    s.len() > 0 && forall|i: int| 0 <= i < s.len() ==> '!' <= #[trigger] s[i] <= '~'
}

proof fn lemma_request_line(
    method: Seq<char>,
    path: Seq<char>,
    version: Seq<char>,
    rest: Seq<char>,
)
    requires
        is_word(method),
        is_word(path),
        is_word(version),
    ensures
        request_line(request_text(method, path, version, rest)) == (method, path),
{
    let line = method + seq![' '] + path + seq![' '] + version;
    assert forall|i: int| 0 <= i < line.len() implies line[i] != '\n' by {
        let k = method.len() as int;
        let l = k + 1 + path.len();
        if i < k {
            assert('!' <= method[i] <= '~');
        } else if k < i < l {
            assert('!' <= path[i - k - 1] <= '~');
        } else if i > l {
            assert('!' <= version[i - l - 1] <= '~');
        }
    }
    assert(line.last() == version[version.len() - 1]);
    assert('!' <= version[version.len() - 1] <= '~');
    parts::lines_go_up_to_their_ends(line, rest);
    assert(request_text(method, path, version, rest) =~= line + seq!['\r', '\n'] + rest);
    parts::words_stand_between_blanks(method + seq![' '] + path, ' ', version);
    parts::words_stand_between_blanks(method, ' ', path);
    parts::unbroken_text_is_one_word(method);
    parts::unbroken_text_is_one_word(path);
    parts::unbroken_text_is_one_word(version);
    assert(parts::words_of(line) =~= seq![method, path, version]);
    let lines = parts::lines_of(line + seq!['\r', '\n'] + rest);
    assert(lines[0] == line);
}

proof fn lemma_words_of_requests()
    ensures
        "GET"@ == seq!['G', 'E', 'T'],
        "POST"@ == seq!['P', 'O', 'S', 'T'],
        "/metrics"@ == seq!['/', 'm', 'e', 't', 'r', 'i', 'c', 's'],
        "/config"@ == seq!['/', 'c', 'o', 'n', 'f', 'i', 'g'],
        "/"@ == seq!['/'],
        "200 OK"@ == seq!['2', '0', '0', ' ', 'O', 'K'],
        "404 Not Found"@.take(3) == seq!['4', '0', '4'],
{
    reveal_strlit("GET");
    reveal_strlit("POST");
    reveal_strlit("/metrics");
    reveal_strlit("/config");
    reveal_strlit("/");
    reveal_strlit("200 OK");
    reveal_strlit("404 Not Found");
    assert("GET"@ =~= seq!['G', 'E', 'T']);
    assert("POST"@ =~= seq!['P', 'O', 'S', 'T']);
    assert("/metrics"@ =~= seq!['/', 'm', 'e', 't', 'r', 'i', 'c', 's']);
    assert("/config"@ =~= seq!['/', 'c', 'o', 'n', 'f', 'i', 'g']);
    assert("/"@ =~= seq!['/']);
    assert("200 OK"@ =~= seq!['2', '0', '0', ' ', 'O', 'K']);
    assert("404 Not Found"@.take(3) =~= seq!['4', '0', '4']);
}

/// Four things can be asked for: the metrics, which are given as they are, the settings, a change
/// of them, and the index. Anything else is not found, and only a change changes anything.
pub proof fn requests_get_what_they_ask_for(
    method: Seq<char>,
    path: Seq<char>,
    version: Seq<char>,
    rest: Seq<char>,
    metrics: Seq<char>,
    assets: PageAssets,
    s: StaticArgs,
    pre: (Seq<EntryView>, Seq<char>),
    post: (Seq<EntryView>, Seq<char>),
    r: AdminResponse,
)
    requires
        is_word(method),
        is_word(path),
        is_word(version),
        answers(request_text(method, path, version, rest), metrics, assets, s, pre, post, r),
    ensures
        ({
            let get = method == seq!['G', 'E', 'T'];
            let change = method == seq!['P', 'O', 'S', 'T'] && path == seq![
                '/',
                'c',
                'o',
                'n',
                'f',
                'i',
                'g',
            ];
            let metrics_asked = get && path == seq!['/', 'm', 'e', 't', 'r', 'i', 'c', 's'];
            let settings_asked = get && path == seq!['/', 'c', 'o', 'n', 'f', 'i', 'g'];
            let index_asked = get && path == seq!['/'];
            let known = metrics_asked || settings_asked || index_asked || change;
            &&& known ==> r.status@ == seq!['2', '0', '0', ' ', 'O', 'K']
            &&& !known ==> r.status@.take(3) == seq!['4', '0', '4'] && r.status@
                != seq!['2', '0', '0', ' ', 'O', 'K']
            &&& metrics_asked ==> r.body@ == metrics
            &&& settings_asked ==> r.body@ == config_page(
                assets.template@,
                assets.css@,
                s,
                pre,
                None,
            )
            &&& !change ==> post == pre && !r.reload
            &&& change ==> match settings_in(
                form::body_of(request_text(method, path, version, rest)),
            ) {
                Ok(settings) => post == settings && r.reload,
                Err(_) => post == pre && !r.reload,
            }
        }),
{
    lemma_request_line(method, path, version, rest);
    lemma_words_of_requests();
    assert(path == "/metrics"@ ==> path[1] == 'm');
    assert(path == "/config"@ ==> path[1] == 'c');
    assert(r.status@ == "404 Not Found"@ ==> r.status@.take(3)[0] == '4');
}

/// A form is taken when its tunnels can be read and, if there are any, it names the client: the
/// settings are then those tunnels and that name.
pub proof fn form_gives_the_settings(body: Seq<char>, es: Seq<EntryView>, id: Seq<char>)
    requires
        form::form_value(body, seq!['t', 'u', 'n', 'n', 'e', 'l']) matches Some(v)
            && entries_in(parts::lines_of(v)) == Ok::<Seq<EntryView>, TunnelArgError>(es),
        form::form_value(
            body,
            seq!['t', 'u', 'n', 'n', 'e', 'l', '_', 'c', 'l', 'i', 'e', 'n', 't', '_', 'i', 'd'],
        ) == Some(id),
    ensures
        settings_in(body) == if es.len() == 0 || id.len() > 0 {
            Ok::<(Seq<EntryView>, Seq<char>), SaveError>((es, id))
        } else {
            Err(SaveError::ClientId)
        },
{
    reveal_strlit("tunnel");
    reveal_strlit("tunnel_client_id");
    assert("tunnel"@ =~= seq!['t', 'u', 'n', 'n', 'e', 'l']);
    assert("tunnel_client_id"@ =~= seq![
        't',
        'u',
        'n',
        'n',
        'e',
        'l',
        '_',
        'c',
        'l',
        'i',
        'e',
        'n',
        't',
        '_',
        'i',
        'd',
    ]);
}

/// What a reader makes of each of some lines, one after the other; the first that cannot be read
/// decides.
pub open spec fn all_read(
    read: spec_fn(Seq<char>) -> Result<Seq<EntryView>, TunnelArgError>,
    lines: Seq<Seq<char>>,
) -> Result<Seq<EntryView>, TunnelArgError>
    decreases lines.len(),
{
    if lines.len() == 0 {
        Ok(Seq::empty())
    } else {
        match all_read(read, lines.drop_last()) {
            Ok(before) => match read(lines.last()) {
                Ok(es) => Ok(before + es),
                Err(e) => Err(e),
            },
            Err(e) => Err(e),
        }
    }
}

proof fn lemma_all_read_parts(
    read: spec_fn(Seq<char>) -> Result<Seq<EntryView>, TunnelArgError>,
    a: Seq<Seq<char>>,
    b: Seq<Seq<char>>,
)
    ensures
        all_read(read, a + b) == match all_read(read, a) {
            Ok(x) => match all_read(read, b) {
                Ok(y) => Ok::<Seq<EntryView>, TunnelArgError>(x + y),
                Err(e) => Err(e),
            },
            Err(e) => Err(e),
        },
    decreases b.len(),
{
    if b.len() == 0 {
        assert(a + b =~= a);
        if all_read(read, a) is Ok {
            let x = all_read(read, a)->Ok_0;
            assert(x + Seq::<EntryView>::empty() =~= x);
        }
    } else {
        let less = b.drop_last();
        assert((a + b).drop_last() =~= a + less);
        assert((a + b).last() == b.last());
        lemma_all_read_parts(read, a, less);
        if all_read(read, a) is Ok && all_read(read, less) is Ok && read(b.last()) is Ok {
            let x = all_read(read, a)->Ok_0;
            let y = all_read(read, less)->Ok_0;
            let z = read(b.last())->Ok_0;
            assert((x + y) + z =~= x + (y + z));
        }
    }
}

/// The tunnel of a line, if it is not blank.
pub open spec fn entry_in(line: Seq<char>) -> Result<Seq<EntryView>, TunnelArgError> {
    let t = parts::trimmed(line);
    if t.len() == 0 {
        Ok(Seq::empty())
    } else {
        match tunnel_config::tunnel_entry(t) {
            Ok(e) => Ok(seq![e]),
            Err(e) => Err(e),
        }
    }
}

proof fn lemma_entries_are_all_read(lines: Seq<Seq<char>>)
    ensures
        entries_in(lines) == all_read(|line: Seq<char>| entry_in(line), lines),
    decreases lines.len(),
{
    if lines.len() > 0 {
        lemma_entries_are_all_read(lines.drop_last());
        let r = entries_in(lines.drop_last());
        if r is Ok {
            let x = r->Ok_0;
            assert(x + Seq::<EntryView>::empty() =~= x);
            assert forall|e: EntryView| #[trigger] x.push(e) =~= x + seq![e] by {}
        }
    }
}

proof fn lemma_entries_parts(a: Seq<Seq<char>>, b: Seq<Seq<char>>)
    ensures
        entries_in(a + b) == match entries_in(a) {
            Ok(x) => match entries_in(b) {
                Ok(y) => Ok::<Seq<EntryView>, TunnelArgError>(x + y),
                Err(e) => Err(e),
            },
            Err(e) => Err(e),
        },
{
    let read = |line: Seq<char>| entry_in(line);
    lemma_entries_are_all_read(a);
    lemma_entries_are_all_read(b);
    lemma_entries_are_all_read(a + b);
    lemma_all_read_parts(read, a, b);
}

/// Every line of the form is a tunnel, read without the blanks around it, and stays in its place
/// among the others; a line of nothing but blanks is none.
pub proof fn each_line_is_a_tunnel(a: Seq<Seq<char>>, line: Seq<char>, b: Seq<Seq<char>>)
    ensures
        ({
            let t = parts::trimmed(line);
            let before = entries_in(a);
            let behind = entries_in(b);
            let all = entries_in(a + seq![line] + b);
            &&& before is Err ==> all == before
            &&& before is Ok && t.len() == 0 ==> match behind {
                Ok(y) => all == Ok::<Seq<EntryView>, TunnelArgError>(before->Ok_0 + y),
                Err(e) => all == Err::<Seq<EntryView>, TunnelArgError>(e),
            }
            &&& before is Ok && t.len() > 0 ==> match tunnel_config::tunnel_entry(t) {
                Ok(e) => match behind {
                    Ok(y) => all == Ok::<Seq<EntryView>, TunnelArgError>(
                        before->Ok_0 + seq![e] + y,
                    ),
                    Err(f) => all == Err::<Seq<EntryView>, TunnelArgError>(f),
                },
                Err(e) => all == Err::<Seq<EntryView>, TunnelArgError>(e),
            }
        }),
{
    lemma_entries_parts(a + seq![line], b);
    lemma_entries_parts(a, seq![line]);
    assert(seq![line].drop_last() =~= Seq::empty());
    assert(entries_in(Seq::<Seq<char>>::empty()) == Ok::<Seq<EntryView>, TunnelArgError>(
        Seq::empty(),
    ));
    if entries_in(a) is Ok {
        let x = entries_in(a)->Ok_0;
        assert(x + Seq::<EntryView>::empty() =~= x);
        let t = parts::trimmed(line);
        if t.len() > 0 && tunnel_config::tunnel_entry(t) is Ok {
            let e = tunnel_config::tunnel_entry(t)->Ok_0;
            assert(Seq::<EntryView>::empty().push(e) =~= seq![e]);
        }
    }
}

/// A field of the page with this label, that holds this value.
pub open spec fn shown_field(label: Seq<char>, value: Seq<char>) -> Seq<char> {
    "<label>"@ + label + "</label><input type=\"text\" value=\""@ + value + "\""@
}

proof fn lemma_field(class: Seq<char>, label: Seq<char>, value: Seq<char>)
    ensures
        text::has_part(field_html(class, label, value), shown_field(label, value)),
{
    reveal_strlit("<div class=\"form-group");
    reveal_strlit("\"><label>");
    reveal_strlit("</label><input type=\"text\" value=\"");
    reveal_strlit("\" disabled /></div>");
    reveal_strlit("<label>");
    reveal_strlit("\"");
    let part = shown_field(label, value);
    let a = "<div class=\"form-group"@ + class + seq!['"', '>'];
    let b = "\" disabled /></div>"@.skip(1);
    text::lemma_whole_part(part);
    text::lemma_part_between(a, part, b, part);
    assert("\"><label>"@ =~= seq!['"', '>'] + "<label>"@);
    assert("\" disabled /></div>"@ =~= "\""@ + b);
    assert(field_html(class, label, value) =~= a + part + b);
}

proof fn lemma_row2(a: Seq<char>, b: Seq<char>, part: Seq<char>)
    requires
        text::has_part(a, part) || text::has_part(b, part),
    ensures
        text::has_part(row2_html(a, b), part),
{
    let s = "<div class=\"form-row\">\n      "@;
    let m = "\n      "@;
    let e = "\n    </div>"@;
    if text::has_part(a, part) {
        text::lemma_part_between(s, a, m + b + e, part);
        assert(row2_html(a, b) =~= s + a + (m + b + e));
    } else {
        text::lemma_part_between(s + a + m, b, e, part);
        assert(row2_html(a, b) =~= s + a + m + b + e);
    }
}

proof fn lemma_row3(a: Seq<char>, b: Seq<char>, c: Seq<char>, part: Seq<char>)
    requires
        text::has_part(a, part) || text::has_part(b, part) || text::has_part(c, part),
    ensures
        text::has_part(row3_html(a, b, c), part),
{
    let s = "<div class=\"form-row\">\n      "@;
    let m = "\n      "@;
    let e = "\n    </div>"@;
    if text::has_part(a, part) {
        text::lemma_part_between(s, a, m + b + m + c + e, part);
        assert(row3_html(a, b, c) =~= s + a + (m + b + m + c + e));
    } else if text::has_part(b, part) {
        text::lemma_part_between(s + a + m, b, m + c + e, part);
        assert(row3_html(a, b, c) =~= s + a + m + b + (m + c + e));
    } else {
        text::lemma_part_between(s + a + m + b + m, c, e, part);
        assert(row3_html(a, b, c) =~= s + a + m + b + m + c + e);
    }
}

proof fn lemma_rows(
    a: Seq<char>,
    b: Seq<char>,
    c: Seq<char>,
    d: Seq<char>,
    gap: Seq<char>,
    part: Seq<char>,
)
    requires
        text::has_part(a, part) || text::has_part(b, part) || text::has_part(c, part) || text::has_part(d, part),
    ensures
        text::has_part(a + gap + b + gap + c + gap + d, part),
{
    let none = Seq::<char>::empty();
    if text::has_part(a, part) {
        text::lemma_part_between(none, a, gap + b + gap + c + gap + d, part);
        assert(none + a + (gap + b + gap + c + gap + d) =~= a + gap + b + gap + c + gap + d);
    } else if text::has_part(b, part) {
        text::lemma_part_between(a + gap, b, gap + c + gap + d, part);
        assert(a + gap + b + (gap + c + gap + d) =~= a + gap + b + gap + c + gap + d);
    } else if text::has_part(c, part) {
        text::lemma_part_between(a + gap + b + gap, c, gap + d, part);
        assert(a + gap + b + gap + c + (gap + d) =~= a + gap + b + gap + c + gap + d);
    } else {
        text::lemma_part_between(a + gap + b + gap + c + gap, d, none, part);
        assert(a + gap + b + gap + c + gap + d + none =~= a + gap + b + gap + c + gap + d);
    }
}

proof fn lemma_server_row(s: StaticArgs, row: int, first: bool, part: Seq<char>)
    requires
        0 <= row < 4,
        part == if row == 0 {
            if first {
                shown_field("Listen"@, form::escaped(s.listen@))
            } else {
                shown_field("Admin Listen"@, form::escaped(s.admin_listen@))
            }
        } else if row == 1 {
            if first {
                shown_field("Certificate"@, form::escaped(s.cert@))
            } else {
                shown_field("Key"@, form::escaped(s.key@))
            }
        } else if row == 2 {
            if first {
                shown_field("TLS Host"@, form::escaped(s.tls_host@))
            } else {
                shown_field("Threads"@, text::digits(s.threads as nat))
            }
        } else {
            if first {
                shown_field("Idle Timeout"@, text::digits(s.idle_timeout_secs as nat))
            } else {
                shown_field("Max Connections"@, text::digits(s.max_connections as nat))
            }
        },
    ensures
        text::has_part(server_fields(s), part),
{
    let f1 = field_html(" half"@, "Listen"@, form::escaped(s.listen@));
    let f2 = field_html(" half"@, "Admin Listen"@, form::escaped(s.admin_listen@));
    let f3 = field_html(" half"@, "Certificate"@, form::escaped(s.cert@));
    let f4 = field_html(" half"@, "Key"@, form::escaped(s.key@));
    let f5 = field_html(" half"@, "TLS Host"@, form::escaped(s.tls_host@));
    let f6 = field_html(" half"@, "Threads"@, text::digits(s.threads as nat));
    let f7 = field_html(" third"@, "Idle Timeout"@, text::digits(s.idle_timeout_secs as nat));
    let f8 = field_html(" third"@, "Max Connections"@, text::digits(s.max_connections as nat));
    if row == 0 {
        lemma_field(" half"@, "Listen"@, form::escaped(s.listen@));
        lemma_field(" half"@, "Admin Listen"@, form::escaped(s.admin_listen@));
        lemma_row2(f1, f2, part);
    } else if row == 1 {
        lemma_field(" half"@, "Certificate"@, form::escaped(s.cert@));
        lemma_field(" half"@, "Key"@, form::escaped(s.key@));
        lemma_row2(f3, f4, part);
    } else if row == 2 {
        lemma_field(" half"@, "TLS Host"@, form::escaped(s.tls_host@));
        lemma_field(" half"@, "Threads"@, text::digits(s.threads as nat));
        lemma_row2(f5, f6, part);
    } else {
        lemma_field(" third"@, "Idle Timeout"@, text::digits(s.idle_timeout_secs as nat));
        lemma_field(" third"@, "Max Connections"@, text::digits(s.max_connections as nat));
        lemma_row2(f7, f8, part);
    }
    lemma_rows(
        row2_html(f1, f2),
        row2_html(f3, f4),
        row2_html(f5, f6),
        row2_html(f7, f8),
        "\n    "@,
        part,
    );
}

/// The page of a server shows each of its settings under its label, the texts among them escaped.
pub proof fn server_page_shows_its_settings(s: StaticArgs)
    requires
        s.role@ == seq!['s', 'e', 'r', 'v', 'e', 'r'],
    ensures
        text::has_part(connection_fields(s), shown_field("Listen"@, form::escaped(s.listen@))),
        text::has_part(connection_fields(s), shown_field("Admin Listen"@, form::escaped(s.admin_listen@))),
        text::has_part(connection_fields(s), shown_field("Certificate"@, form::escaped(s.cert@))),
        text::has_part(connection_fields(s), shown_field("Key"@, form::escaped(s.key@))),
        text::has_part(connection_fields(s), shown_field("TLS Host"@, form::escaped(s.tls_host@))),
        text::has_part(connection_fields(s), shown_field("Threads"@, text::digits(s.threads as nat))),
        text::has_part(
            connection_fields(s),
            shown_field("Idle Timeout"@, text::digits(s.idle_timeout_secs as nat)),
        ),
        text::has_part(
            connection_fields(s),
            shown_field("Max Connections"@, text::digits(s.max_connections as nat)),
        ),
{
    reveal_strlit("server");
    assert("server"@ =~= seq!['s', 'e', 'r', 'v', 'e', 'r']);
    lemma_server_row(s, 0, true, shown_field("Listen"@, form::escaped(s.listen@)));
    lemma_server_row(s, 0, false, shown_field("Admin Listen"@, form::escaped(s.admin_listen@)));
    lemma_server_row(s, 1, true, shown_field("Certificate"@, form::escaped(s.cert@)));
    lemma_server_row(s, 1, false, shown_field("Key"@, form::escaped(s.key@)));
    lemma_server_row(s, 2, true, shown_field("TLS Host"@, form::escaped(s.tls_host@)));
    lemma_server_row(s, 2, false, shown_field("Threads"@, text::digits(s.threads as nat)));
    lemma_server_row(
        s,
        3,
        true,
        shown_field("Idle Timeout"@, text::digits(s.idle_timeout_secs as nat)),
    );
    lemma_server_row(
        s,
        3,
        false,
        shown_field("Max Connections"@, text::digits(s.max_connections as nat)),
    );
}

/// The page of a client shows where its server is, under which name, with which certificate, and
/// its limits; that of a proxy also where it listens.
pub proof fn client_page_shows_its_settings(s: StaticArgs)
    requires
        s.role@ != seq!['s', 'e', 'r', 'v', 'e', 'r'],
    ensures
        s.remote is Some ==> text::has_part(
            connection_fields(s),
            shown_field("Remote"@, form::escaped(s.remote->Some_0@)),
        ),
        text::has_part(connection_fields(s), shown_field("TLS Host"@, form::escaped(s.tls_host@))),
        text::has_part(connection_fields(s), shown_field("Certificate"@, form::escaped(s.cert@))),
        text::has_part(connection_fields(s), shown_field("Threads"@, text::digits(s.threads as nat))),
        text::has_part(
            connection_fields(s),
            shown_field("Idle Timeout"@, text::digits(s.idle_timeout_secs as nat)),
        ),
        !s.is_tunnel ==> {
            &&& text::has_part(connection_fields(s), shown_field("Listen"@, form::escaped(s.listen@)))
            &&& text::has_part(
                connection_fields(s),
                shown_field("Concurrent"@, text::digits(s.concurrent as nat)),
            )
            &&& text::has_part(
                connection_fields(s),
                shown_field("Max Connections"@, text::digits(s.max_connections as nat)),
            )
            &&& text::has_part(connection_fields(s), shown_field("Transparent Proxy"@, shown(s.tproxy)))
        },
{
    reveal_strlit("server");
    assert("server"@ =~= seq!['s', 'e', 'r', 'v', 'e', 'r']);
    let remote = form::escaped(remote_text(s));
    let host = form::escaped(s.tls_host@);
    let cert = form::escaped(s.cert@);
    let listen = form::escaped(s.listen@);
    let threads = text::digits(s.threads as nat);
    let idle = text::digits(s.idle_timeout_secs as nat);
    let concurrent = text::digits(s.concurrent as nat);
    let most = text::digits(s.max_connections as nat);
    let half = " half"@;
    let third = " third"@;
    let gap = "\n    "@;
    lemma_field(half, "Remote"@, remote);
    lemma_field(half, "TLS Host"@, host);
    lemma_field(half, "Certificate"@, cert);
    lemma_field(half, "Threads"@, threads);
    lemma_field(third, "Threads"@, threads);
    lemma_field(""@, "Idle Timeout"@, idle);
    lemma_field(third, "Idle Timeout"@, idle);
    lemma_field(half, "Listen"@, listen);
    lemma_field(third, "Concurrent"@, concurrent);
    lemma_field(third, "Max Connections"@, most);
    lemma_field(third, "Transparent Proxy"@, shown(s.tproxy));
    let p_remote = shown_field("Remote"@, remote);
    let p_host = shown_field("TLS Host"@, host);
    let p_cert = shown_field("Certificate"@, cert);
    let p_threads = shown_field("Threads"@, threads);
    let p_idle = shown_field("Idle Timeout"@, idle);
    let p_listen = shown_field("Listen"@, listen);
    let p_concurrent = shown_field("Concurrent"@, concurrent);
    let p_most = shown_field("Max Connections"@, most);
    let p_tproxy = shown_field("Transparent Proxy"@, shown(s.tproxy));
    if s.is_tunnel {
        let fr = field_html(half, "Remote"@, remote);
        let fh = field_html(half, "TLS Host"@, host);
        let fc = field_html(half, "Certificate"@, cert);
        let ft = field_html(half, "Threads"@, threads);
        let r1 = row2_html(fr, fh);
        let r2 = row2_html(fc, ft);
        let r3 = field_html(""@, "Idle Timeout"@, idle);
        lemma_row2(fr, fh, p_remote);
        lemma_row2(fr, fh, p_host);
        lemma_row2(fc, ft, p_cert);
        lemma_row2(fc, ft, p_threads);
        lemma_three_rows(r1, r2, r3, gap, p_remote);
        lemma_three_rows(r1, r2, r3, gap, p_host);
        lemma_three_rows(r1, r2, r3, gap, p_cert);
        lemma_three_rows(r1, r2, r3, gap, p_threads);
        lemma_three_rows(r1, r2, r3, gap, p_idle);
    } else {
        let fl = field_html(half, "Listen"@, listen);
        let fr = field_html(half, "Remote"@, remote);
        let fc = field_html(half, "Certificate"@, cert);
        let fh = field_html(half, "TLS Host"@, host);
        let fo = field_html(third, "Concurrent"@, concurrent);
        let ft = field_html(third, "Threads"@, threads);
        let fi = field_html(third, "Idle Timeout"@, idle);
        let fm = field_html(third, "Max Connections"@, most);
        let fp = field_html(third, "Transparent Proxy"@, shown(s.tproxy));
        let r1 = row2_html(fl, fr);
        let r2 = row2_html(fc, fh);
        let r3 = row3_html(fo, ft, fi);
        let r4 = row2_html(fm, fp);
        lemma_row2(fl, fr, p_listen);
        lemma_row2(fl, fr, p_remote);
        lemma_row2(fc, fh, p_cert);
        lemma_row2(fc, fh, p_host);
        lemma_row3(fo, ft, fi, p_concurrent);
        lemma_row3(fo, ft, fi, p_threads);
        lemma_row3(fo, ft, fi, p_idle);
        lemma_row2(fm, fp, p_most);
        lemma_row2(fm, fp, p_tproxy);
        lemma_rows(r1, r2, r3, r4, gap, p_listen);
        lemma_rows(r1, r2, r3, r4, gap, p_remote);
        lemma_rows(r1, r2, r3, r4, gap, p_cert);
        lemma_rows(r1, r2, r3, r4, gap, p_host);
        lemma_rows(r1, r2, r3, r4, gap, p_concurrent);
        lemma_rows(r1, r2, r3, r4, gap, p_threads);
        lemma_rows(r1, r2, r3, r4, gap, p_idle);
        lemma_rows(r1, r2, r3, r4, gap, p_most);
        lemma_rows(r1, r2, r3, r4, gap, p_tproxy);
    }
}

proof fn lemma_three_rows(a: Seq<char>, b: Seq<char>, c: Seq<char>, gap: Seq<char>, part: Seq<char>)
    requires
        text::has_part(a, part) || text::has_part(b, part) || text::has_part(c, part),
    ensures
        text::has_part(a + gap + b + gap + c, part),
{
    let none = Seq::<char>::empty();
    if text::has_part(a, part) {
        text::lemma_part_between(none, a, gap + b + gap + c, part);
        assert(none + a + (gap + b + gap + c) =~= a + gap + b + gap + c);
    } else if text::has_part(b, part) {
        text::lemma_part_between(a + gap, b, gap + c, part);
        assert(a + gap + b + (gap + c) =~= a + gap + b + gap + c);
    } else {
        text::lemma_part_between(a + gap + b + gap, c, none, part);
        assert(a + gap + b + gap + c + none =~= a + gap + b + gap + c);
    }
}

/// The head of an answer gives its status in the first line, the kind and the length of the body,
/// and ends with an empty line.
pub proof fn head_gives_status_and_length(status: Seq<char>, content_type: Seq<char>, len: nat)
    ensures
        ({
            let h = response_head(status, content_type, len);
            let first = seq!['H', 'T', 'T', 'P', '/', '1', '.', '1', ' '] + status + seq![
                '\r',
                '\n',
            ];
            &&& h.len() >= first.len() + 4
            &&& h.take(first.len() as int) == first
            &&& h.skip(h.len() - 4) == seq!['\r', '\n', '\r', '\n']
            &&& text::has_part(h, "\r\nContent-Length: "@ + text::digits(len) + "\r\n"@)
            &&& text::has_part(h, "\r\nContent-Type: "@ + content_type + "\r\n"@)
        }),
{
    reveal_strlit("HTTP/1.1 ");
    reveal_strlit("\r\nContent-Type: ");
    reveal_strlit("\r\nContent-Length: ");
    reveal_strlit("\r\nConnection: close\r\n\r\n");
    reveal_strlit("\r\n");
    let h = response_head(status, content_type, len);
    let first = seq!['H', 'T', 'T', 'P', '/', '1', '.', '1', ' '] + status + seq!['\r', '\n'];
    assert(h.take(first.len() as int) =~= first);
    assert(h.skip(h.len() - 4) =~= seq!['\r', '\n', '\r', '\n']);
    let d = text::digits(len);
    let a = "HTTP/1.1 "@ + status;
    let ty = "\r\nContent-Type: "@;
    let le = "\r\nContent-Length: "@;
    let e = "\r\nConnection: close\r\n\r\n"@;
    let p1 = ty + content_type + "\r\n"@;
    let p2 = le + d + "\r\n"@;
    text::lemma_whole_part(p1);
    text::lemma_whole_part(p2);
    assert(le =~= "\r\n"@ + le.skip(2));
    assert(e =~= "\r\n"@ + e.skip(2));
    text::lemma_part_between(a, p1, le.skip(2) + d + e, p1);
    assert(h =~= a + p1 + (le.skip(2) + d + e));
    text::lemma_part_between(a + ty + content_type, p2, e.skip(2), p2);
    assert(h =~= a + ty + content_type + p2 + e.skip(2));
}

/// A tunnel's row holds its local address, escaped, its port on the server and its domain where it
/// has one, each in an input of its own.
pub proof fn row_holds_the_tunnel(e: EntryView)
    ensures
        text::has_part(
            tunnel_row(e),
            "class=\"t-local\" placeholder=\"host:port\" value=\""@ + form::escaped(e.0) + "\""@,
        ),
        text::has_part(
            tunnel_row(e),
            "class=\"t-remote\" placeholder=\"remote port\" value=\""@ + text::digits(e.1 as nat)
                + "\""@,
        ),
        text::has_part(
            tunnel_row(e),
            "class=\"t-sni\" placeholder=\"optional\" value=\""@ + (match e.2 {
                Some(sni) => sni,
                None => Seq::empty(),
            }) + "\""@,
        ),
{
    reveal_strlit("");
    let l1 = "<div class=\"tunnel-row\"><input type=\"text\" class=\"t-local\" placeholder=\"host:port\" value=\""@;
    let l2 = "\" /><input type=\"text\" class=\"t-remote\" placeholder=\"remote port\" value=\""@;
    let l3 = "\" /><input type=\"text\" class=\"t-sni\" placeholder=\"optional\" value=\""@;
    let l4 = "\" /><button type=\"button\" class=\"btn btn-remove\" onclick=\"this.parentElement.remove()\">✕</button></div>"@;
    let v1 = form::escaped(e.0);
    let v2 = text::digits(e.1 as nat);
    let v3 = match e.2 {
        Some(sni) => sni,
        None => Seq::empty(),
    };
    assert(""@ =~= Seq::empty());
    let row = tunnel_row(e);
    assert(row =~= l1 + v1 + l2 + v2 + l3 + v3 + l4);
    lemma_row_ends();
    let k1 = "class=\"t-local\" placeholder=\"host:port\" value=\""@;
    let k2 = "class=\"t-remote\" placeholder=\"remote port\" value=\""@;
    let k3 = "class=\"t-sni\" placeholder=\"optional\" value=\""@;
    let none = Seq::<char>::empty();
    lemma_in_the_row(none, l1, k1, v1, l2, v2 + l3 + v3 + l4);
    assert(row =~= none + l1 + v1 + l2 + (v2 + l3 + v3 + l4));
    lemma_in_the_row(l1 + v1, l2, k2, v2, l3, v3 + l4);
    assert(row =~= l1 + v1 + l2 + v2 + l3 + (v3 + l4));
    lemma_in_the_row(l1 + v1 + l2 + v2, l3, k3, v3, l4, none);
    assert(row =~= l1 + v1 + l2 + v2 + l3 + v3 + l4 + none);
}

proof fn lemma_row_ends()
    ensures
        ({
            let l1 = "<div class=\"tunnel-row\"><input type=\"text\" class=\"t-local\" placeholder=\"host:port\" value=\""@;
            let l2 = "\" /><input type=\"text\" class=\"t-remote\" placeholder=\"remote port\" value=\""@;
            let l3 = "\" /><input type=\"text\" class=\"t-sni\" placeholder=\"optional\" value=\""@;
            let l4 = "\" /><button type=\"button\" class=\"btn btn-remove\" onclick=\"this.parentElement.remove()\">✕</button></div>"@;
            let k1 = "class=\"t-local\" placeholder=\"host:port\" value=\""@;
            let k2 = "class=\"t-remote\" placeholder=\"remote port\" value=\""@;
            let k3 = "class=\"t-sni\" placeholder=\"optional\" value=\""@;
            &&& k1.len() <= l1.len() && l1.skip(l1.len() - k1.len()) == k1
            &&& k2.len() <= l2.len() && l2.skip(l2.len() - k2.len()) == k2
            &&& k3.len() <= l3.len() && l3.skip(l3.len() - k3.len()) == k3
            &&& l2.len() > 0 && l2[0] == '"'
            &&& l3.len() > 0 && l3[0] == '"'
            &&& l4.len() > 0 && l4[0] == '"'
        }),
{
    reveal_strlit("<div class=\"tunnel-row\"><input type=\"text\" class=\"t-local\" placeholder=\"host:port\" value=\"");
    reveal_strlit("\" /><input type=\"text\" class=\"t-remote\" placeholder=\"remote port\" value=\"");
    reveal_strlit("\" /><input type=\"text\" class=\"t-sni\" placeholder=\"optional\" value=\"");
    reveal_strlit("\" /><button type=\"button\" class=\"btn btn-remove\" onclick=\"this.parentElement.remove()\">✕</button></div>");
    reveal_strlit("class=\"t-local\" placeholder=\"host:port\" value=\"");
    reveal_strlit("class=\"t-remote\" placeholder=\"remote port\" value=\"");
    reveal_strlit("class=\"t-sni\" placeholder=\"optional\" value=\"");
    let l1 = "<div class=\"tunnel-row\"><input type=\"text\" class=\"t-local\" placeholder=\"host:port\" value=\""@;
    let l2 = "\" /><input type=\"text\" class=\"t-remote\" placeholder=\"remote port\" value=\""@;
    let l3 = "\" /><input type=\"text\" class=\"t-sni\" placeholder=\"optional\" value=\""@;
    let k1 = "class=\"t-local\" placeholder=\"host:port\" value=\""@;
    let k2 = "class=\"t-remote\" placeholder=\"remote port\" value=\""@;
    let k3 = "class=\"t-sni\" placeholder=\"optional\" value=\""@;
    assert(l1.skip(l1.len() - k1.len()) =~= k1);
    assert(l2.skip(l2.len() - k2.len()) =~= k2);
    assert(l3.skip(l3.len() - k3.len()) =~= k3);
}

proof fn lemma_in_the_row(
    before: Seq<char>,
    a: Seq<char>,
    k: Seq<char>,
    value: Seq<char>,
    b: Seq<char>,
    after: Seq<char>,
)
    requires
        k.len() <= a.len(),
        a.skip(a.len() - k.len()) == k,
        b.len() > 0,
        b[0] == '"',
    ensures
        text::has_part(before + a + value + b + after, k + value + "\""@),
{
    reveal_strlit("\"");
    let q = "\""@;
    let part = k + value + q;
    let x = before + a.take(a.len() - k.len());
    let y = b.skip(1) + after;
    assert(a =~= a.take(a.len() - k.len()) + k);
    assert(b =~= q + b.skip(1));
    assert(before + a + value + b + after =~= x + part + y);
    assert(text::has_part(x + part + y, part)) by {
        text::lemma_whole_part(part);
        text::lemma_part_between(x, part, y, part);
    }
}

/// Every tunnel has its row, in order, one to a line.
pub proof fn every_tunnel_has_its_row(es: Seq<EntryView>, e: EntryView)
    ensures
        tunnel_rows(Seq::empty()) == Seq::<char>::empty(),
        tunnel_rows(seq![e]) == tunnel_row(e),
        es.len() > 0 ==> tunnel_rows(es.push(e)) == tunnel_rows(es) + seq!['\n'] + tunnel_row(e),
{
    reveal_strlit("\n");
    assert("\n"@ =~= seq!['\n']);
    assert(seq![e][0] == e);
    assert(es.push(e).drop_last() =~= es);
}

/// Only a client with tunnels can change them on its page; what the page then shows is what is
/// set: the rows of the tunnels and the client's name, escaped.
pub proof fn tunnels_are_shown_to_their_client(
    s: StaticArgs,
    config: (Seq<EntryView>, Seq<char>),
)
    ensures
        s.role@ == seq!['s', 'e', 'r', 'v', 'e', 'r'] || !s.is_tunnel ==> tunnel_section(
            s,
            config,
        ).len() == 0,
        s.role@ != seq!['s', 'e', 'r', 'v', 'e', 'r'] && s.is_tunnel ==> {
            &&& text::has_part(tunnel_section(s, config), tunnel_rows(config.0))
            &&& text::has_part(tunnel_section(s, config), form::escaped(config.1))
        },
        s.role@ == seq!['s', 'e', 'r', 'v', 'e', 'r'] ==> role_label(s) == "Server"@,
        s.role@ != seq!['s', 'e', 'r', 'v', 'e', 'r'] && s.is_tunnel ==> role_label(s)
            == "Client (Tunnel)"@,
        s.role@ != seq!['s', 'e', 'r', 'v', 'e', 'r'] && !s.is_tunnel ==> role_label(s)
            == "Client (Proxy)"@,
{
    reveal_strlit("server");
    assert("server"@ =~= seq!['s', 'e', 'r', 'v', 'e', 'r']);
    if s.role@ != "server"@ && s.is_tunnel {
        let a = "<div class=\"section-title\">Tunnel</div>\n    <div class=\"form-group\">\n      <label for=\"tunnel_client_id\">Client ID</label>\n      <input type=\"text\" id=\"tunnel_client_id\" name=\"tunnel_client_id\" value=\""@;
        let id = form::escaped(config.1);
        let m = "\" placeholder=\"unique identifier for this client\" />\n    </div>\n    <div class=\"tunnel-header\">\n      <span class=\"th-local\">Local Address</span>\n      <span class=\"th-remote\">Remote Port</span>\n      <span class=\"th-sni\">SNI</span>\n      <span class=\"th-action\"></span>\n    </div>\n    <div id=\"tunnel-rows\">\n      "@;
        let rows = tunnel_rows(config.0);
        let e = "\n    </div>\n    <button type=\"button\" class=\"btn btn-add\" onclick=\"addTunnelRow()\">+ Add Tunnel</button>\n    <input type=\"hidden\" id=\"tunnel\" name=\"tunnel\" />"@;
        let all = tunnel_section(s, config);
        assert(all == a + id + m + rows + e);
        text::lemma_whole_part(id);
        text::lemma_whole_part(rows);
        text::lemma_part_between(a, id, m + rows + e, id);
        assert(all =~= a + id + (m + rows + e));
        text::lemma_part_between(a + id + m, rows, e, rows);
    }
}

/// An error is shown as one, with its text, and any other message as a success; no message shows
/// nothing.
pub proof fn messages_are_shown_as_what_they_are(msg: Seq<char>, rest: Seq<char>)
    ensures
        alert_html(None).len() == 0,
        text::has_part(alert_html(Some(msg)), msg),
        text::has_part(
            alert_html(Some(seq!['E', 'r', 'r', 'o', 'r'] + rest)),
            "alert-error"@,
        ),
        msg.len() < 5 || msg.take(5) != seq!['E', 'r', 'r', 'o', 'r'] ==> text::has_part(
            alert_html(Some(msg)),
            "alert-success"@,
        ),
{
    let word = seq!['E', 'r', 'r', 'o', 'r'];
    reveal_strlit("Error");
    assert("Error"@ =~= word);
    let bad = "<div class=\"alert alert-error\">"@;
    let good = "<div class=\"alert alert-success\">"@;
    let e = "</div>"@;
    text::lemma_whole_part(msg);
    text::lemma_part_between(bad, msg, e, msg);
    text::lemma_part_between(good, msg, e, msg);
    let m = word + rest;
    assert(m.subrange(0, 5) =~= word);
    reveal_strlit("<div class=\"alert alert-error\">");
    reveal_strlit("<div class=\"alert alert-success\">");
    reveal_strlit("alert-error");
    reveal_strlit("alert-success");
    assert(bad.subrange(18, 29) =~= "alert-error"@);
    assert(text::occurs_at(bad, "alert-error"@, 18));
    assert(good.subrange(18, 31) =~= "alert-success"@);
    assert(text::occurs_at(good, "alert-success"@, 18));
    let none = Seq::<char>::empty();
    text::lemma_part_between(none, bad, m + e, "alert-error"@);
    assert(bad + m + e =~= none + bad + (m + e));
    text::lemma_part_between(none, good, msg + e, "alert-success"@);
    assert(good + msg + e =~= none + good + (msg + e));
    if msg.len() >= 5 {
        assert(msg.subrange(0, 5) =~= msg.take(5));
    }
}

proof fn lemma_no_mark(s: Seq<char>, mark: Seq<char>)
    requires
        !s.contains('{'),
        mark.len() > 0,
        mark[0] == '{',
    ensures
        forall|i: int| 0 <= i ==> !text::occurs_at(s, mark, i),
{
    assert forall|i: int| 0 <= i implies !text::occurs_at(s, mark, i) by {
        if text::occurs_at(s, mark, i) {
            assert(s.subrange(i, i + mark.len())[0] == '{');
            assert(s[i] == '{');
            assert(s.contains(s[i]));
        }
    }
}

proof fn lemma_mark_is_filled(a: Seq<char>, mark: Seq<char>, b: Seq<char>, with: Seq<char>)
    requires
        !a.contains('{'),
        !b.contains('{'),
        mark.len() > 0,
        mark[0] == '{',
    ensures
        text::replaced(a + mark + b, mark, with) == a + with + b,
{
    let s = a + mark + b;
    assert forall|i: int| 0 <= i < a.len() implies !text::occurs_at(s, mark, i) by {
        if text::occurs_at(s, mark, i) {
            assert(s.subrange(i, i + mark.len())[0] == '{');
            assert(s[i] == a[i]);
            assert(a.contains(a[i]));
        }
    }
    text::pattern_is_exchanged(a, mark, b, with);
    lemma_no_mark(b, mark);
    text::other_text_is_kept(b, mark, with);
}

proof fn lemma_other_mark_stays(
    a: Seq<char>,
    mark: Seq<char>,
    b: Seq<char>,
    other: Seq<char>,
    with: Seq<char>,
)
    requires
        !a.contains('{'),
        !b.contains('{'),
        mark.len() > 3,
        mark[0] == '{' && mark[1] == '{' && mark[2] != '{',
        forall|i: int| 2 <= i < mark.len() ==> mark[i] != '{',
        other.len() > 3,
        other[0] == '{' && other[1] == '{',
        other[2] != mark[2],
    ensures
        text::replaced(a + mark + b, other, with) == a + mark + b,
{
    let s = a + mark + b;
    assert forall|i: int| 0 <= i implies !text::occurs_at(s, other, i) by {
        if text::occurs_at(s, other, i) {
            let t = s.subrange(i, i + other.len());
            assert(t[0] == '{' && t[1] == '{' && t[2] == other[2]);
            let n = a.len() as int;
            if i < n {
                assert(s[i] == a[i]);
                assert(a.contains(a[i]));
            } else if i < n + mark.len() {
                assert(s[i] == mark[i - n]);
                if i == n + 1 {
                    assert(s[i + 1] == mark[2]);
                } else if i == n {
                    assert(s[i + 2] == mark[2]);
                }
            } else {
                assert(s[i] == b[i - n - mark.len()]);
                assert(b.contains(b[i - n - mark.len()]));
            }
        }
    }
    text::other_text_is_kept(s, other, with);
}

/// The mark for a message is where the message stands on the page, and the rest of such a page
/// stays as it is.
pub proof fn message_stands_at_its_mark(
    a: Seq<char>,
    b: Seq<char>,
    css: Seq<char>,
    s: StaticArgs,
    config: (Seq<EntryView>, Seq<char>),
    alert: Option<Seq<char>>,
)
    requires
        !a.contains('{'),
        !b.contains('{'),
    ensures
        config_page(a + "{{ALERT}}"@ + b, css, s, config, alert) == a + alert_html(alert) + b,
{
    reveal_strlit("{{CSS}}");
    reveal_strlit("{{ROLE_LABEL}}");
    reveal_strlit("{{ADMIN_LISTEN}}");
    reveal_strlit("{{CONNECTION_FIELDS}}");
    reveal_strlit("{{TUNNEL_SECTION}}");
    reveal_strlit("{{ALERT}}");
    let mark = "{{ALERT}}"@;
    let page = a + mark + b;
    lemma_other_mark_stays(a, mark, b, "{{CSS}}"@, css);
    lemma_other_mark_stays(a, mark, b, "{{ROLE_LABEL}}"@, role_label(s));
    let listen = "{{ADMIN_LISTEN}}"@;
    assert forall|i: int| 0 <= i implies !text::occurs_at(page, listen, i) by {
        if text::occurs_at(page, listen, i) {
            let t = page.subrange(i, i + listen.len());
            assert(t[0] == '{' && t[1] == '{' && t[2] == 'A' && t[3] == 'D');
            let n = a.len() as int;
            if i < n {
                assert(page[i] == a[i]);
                assert(a.contains(a[i]));
            } else if i < n + mark.len() {
                assert(page[i] == mark[i - n]);
                assert(page[i + 1] == '{');
                if i == n {
                    assert(page[i + 3] == mark[3]);
                } else {
                    assert(i == n + 1);
                    assert(page[i + 1] == mark[2]);
                }
            } else {
                assert(page[i] == b[i - n - mark.len()]);
                assert(b.contains(b[i - n - mark.len()]));
            }
        }
    }
    text::other_text_is_kept(page, listen, s.admin_listen@);
    lemma_other_mark_stays(a, mark, b, "{{CONNECTION_FIELDS}}"@, connection_fields(s));
    lemma_other_mark_stays(a, mark, b, "{{TUNNEL_SECTION}}"@, tunnel_section(s, config));
    lemma_mark_is_filled(a, mark, b, alert_html(alert));
}

/// The mark for the settings of the connection is where they stand on the page, and that for the
/// tunnels is where these stand.
pub proof fn settings_stand_at_their_marks(
    a: Seq<char>,
    b: Seq<char>,
    css: Seq<char>,
    s: StaticArgs,
    config: (Seq<EntryView>, Seq<char>),
    alert: Option<Seq<char>>,
)
    requires
        !a.contains('{'),
        !b.contains('{'),
        !connection_fields(s).contains('{'),
        !tunnel_section(s, config).contains('{'),
    ensures
        config_page(a + "{{CONNECTION_FIELDS}}"@ + b, css, s, config, alert) == a
            + connection_fields(s) + b,
        config_page(a + "{{TUNNEL_SECTION}}"@ + b, css, s, config, alert) == a + tunnel_section(
            s,
            config,
        ) + b,
{
    reveal_strlit("{{CSS}}");
    reveal_strlit("{{ROLE_LABEL}}");
    reveal_strlit("{{ADMIN_LISTEN}}");
    reveal_strlit("{{CONNECTION_FIELDS}}");
    reveal_strlit("{{TUNNEL_SECTION}}");
    reveal_strlit("{{ALERT}}");
    let fields = connection_fields(s);
    let tunnels = tunnel_section(s, config);
    let css_mark = "{{CSS}}"@;
    let cf = "{{CONNECTION_FIELDS}}"@;
    let ts = "{{TUNNEL_SECTION}}"@;
    lemma_other_mark_stays(a, ts, b, css_mark, css);
    lemma_other_mark_stays(a, ts, b, "{{ROLE_LABEL}}"@, role_label(s));
    lemma_other_mark_stays(a, ts, b, "{{ADMIN_LISTEN}}"@, s.admin_listen@);
    lemma_other_mark_stays(a, ts, b, cf, fields);
    lemma_mark_is_filled(a, ts, b, tunnels);
    let done = a + tunnels + b;
    lemma_joined_without_brace(a, tunnels, b);
    lemma_no_mark(done, "{{ALERT}}"@);
    text::other_text_is_kept(done, "{{ALERT}}"@, alert_html(alert));
    let page = a + cf + b;
    assert forall|i: int| 0 <= i implies !text::occurs_at(page, css_mark, i) by {
        if text::occurs_at(page, css_mark, i) {
            let t = page.subrange(i, i + css_mark.len());
            assert(t[0] == '{' && t[1] == '{' && t[2] == 'C' && t[3] == 'S');
            let n = a.len() as int;
            if i < n {
                assert(page[i] == a[i]);
                assert(a.contains(a[i]));
            } else if i < n + cf.len() {
                assert(page[i] == cf[i - n]);
                assert(page[i + 1] == '{');
                if i == n {
                    assert(page[i + 3] == cf[3]);
                } else {
                    assert(i == n + 1);
                    assert(page[i + 1] == cf[2]);
                }
            } else {
                assert(page[i] == b[i - n - cf.len()]);
                assert(b.contains(b[i - n - cf.len()]));
            }
        }
    }
    text::other_text_is_kept(page, css_mark, css);
    lemma_other_mark_stays(a, cf, b, "{{ROLE_LABEL}}"@, role_label(s));
    lemma_other_mark_stays(a, cf, b, "{{ADMIN_LISTEN}}"@, s.admin_listen@);
    lemma_mark_is_filled(a, cf, b, fields);
    let shown = a + fields + b;
    lemma_joined_without_brace(a, fields, b);
    lemma_no_mark(shown, ts);
    text::other_text_is_kept(shown, ts, tunnels);
    lemma_no_mark(shown, "{{ALERT}}"@);
    text::other_text_is_kept(shown, "{{ALERT}}"@, alert_html(alert));
}

proof fn lemma_joined_without_brace(a: Seq<char>, m: Seq<char>, b: Seq<char>)
    requires
        !a.contains('{'),
        !m.contains('{'),
        !b.contains('{'),
    ensures
        !(a + m + b).contains('{'),
{
    let s = a + m + b;
    assert forall|i: int| 0 <= i < s.len() implies s[i] != '{' by {
        if i < a.len() {
            assert(a.contains(a[i]));
        } else if i < a.len() + m.len() {
            assert(m.contains(m[i - a.len()]));
        } else {
            assert(b.contains(b[i - a.len() - m.len()]));
        }
    }
}

} // verus!
