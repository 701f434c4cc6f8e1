//! The settings that the admin page shows, and those that it changes.

use vstd::prelude::*;
use crate::mux::event::TunnelEntry;
use crate::tunnel_config::EntryView;

verus! {

/// Parameters that can be changed while a client runs.
pub struct ReloadableConfig {
    pub tunnel_entries: Vec<TunnelEntry>,
    pub tunnel_client_id: String,
}

pub open spec fn entry_views(v: Seq<TunnelEntry>) -> Seq<EntryView> {
    Seq::new(v.len(), |i: int| v[i]@)
}

impl View for ReloadableConfig {
    type V = (Seq<EntryView>, Seq<char>);

    open spec fn view(&self) -> (Seq<EntryView>, Seq<char>) {
        (entry_views(self.tunnel_entries@), self.tunnel_client_id@)
    }
}

/// Parameters that are only shown.
pub struct StaticArgs {
    pub listen: String,
    pub role: String,
    pub is_tunnel: bool,
    pub remote: Option<String>,
    pub key: String,
    pub cert: String,
    pub tls_host: String,
    pub concurrent: usize,
    pub threads: usize,
    pub idle_timeout_secs: usize,
    pub max_connections: usize,
    pub admin_listen: String,
    pub tproxy: bool,
}

} // verus!
