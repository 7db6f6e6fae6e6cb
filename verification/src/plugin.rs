//! What a daemon tells its plugins.

use vstd::prelude::*;
use vstd::string::*;

use crate::error::{ErrorKind, NipartError, NipartErrorView};
use crate::merged_net_state::NipartApplyOption;
use crate::net_state::NetworkState;
use crate::wifi_client::NipartWifiControl;

verus! {

/// What to query. There is nothing to choose.
#[derive(Clone, Debug, PartialEq, Eq)]
pub struct NipartQueryOption {}

impl Default for NipartQueryOption {
    fn default() -> (res: Self)
        ensures
            res == (NipartQueryOption {  }),
    {
        NipartQueryOption {  }
    }
}

/// What to scan for.
#[derive(Clone, Debug, PartialEq, Eq)]
pub struct NipartWifiScanOption {
    /// The device to scan with; all of them when it is undefined.
    pub iface_name: Option<String>,
    /// Networks that do not broadcast their SSID.
    pub hidden_ssids: Vec<String>,
}

impl Default for NipartWifiScanOption {
    fn default() -> (res: Self)
        ensures
            res.iface_name is None,
            res.hidden_ssids@.len() == 0,
    {
        NipartWifiScanOption { iface_name: None, hidden_ssids: Vec::new() }
    }
}

/// Command send from daemon to plugin
#[derive(Clone, Debug, PartialEq, Eq)]
#[non_exhaustive]
pub enum NipartPluginCmd {
    /// Query plugin info.
    QueryPluginInfo,
    /// Query network state, should reply with [NetworkState].
    /// The [NipartQueryOption] and current kernel [NetworkState] are
    /// provided so plugins can use them instead of querying the kernel again.
    QueryNetworkState(Box<(NipartQueryOption, NetworkState)>),
    ApplyNetworkState(Box<(NetworkState, NipartApplyOption)>),
    WifiScan(Box<NipartWifiScanOption>),
    WifiControl(NipartWifiControl),
    /// The host resumed from system suspend. Plugins should re-check the
    /// state they manage in the kernel and cancel any retry backoff that
    /// was armed before the suspend.
    SystemResume,
    Quit,
}

impl NipartPluginCmd {
    /// The kind of the command as text.
    pub open spec fn kind_text(self) -> Seq<char> {
        match self {
            NipartPluginCmd::QueryPluginInfo => "query-plugin-info"@,
            NipartPluginCmd::QueryNetworkState(_) => "query-network-state"@,
            NipartPluginCmd::ApplyNetworkState(_) => "apply-network-state"@,
            NipartPluginCmd::WifiScan(_) => "wifi-scan"@,
            NipartPluginCmd::WifiControl(_) => "wifi-control"@,
            NipartPluginCmd::SystemResume => "system-resume"@,
            NipartPluginCmd::Quit => "quit"@,
        }
    }

    /// The kind of the command as text.
    pub fn ipc_kind(&self) -> (res: String)
        ensures
            res@ == self.kind_text(),
    {
        let kind = match self {
            NipartPluginCmd::QueryPluginInfo => "query-plugin-info",
            NipartPluginCmd::QueryNetworkState(_) => "query-network-state",
            NipartPluginCmd::ApplyNetworkState(_) => "apply-network-state",
            NipartPluginCmd::WifiScan(_) => "wifi-scan",
            NipartPluginCmd::WifiControl(_) => "wifi-control",
            NipartPluginCmd::SystemResume => "system-resume",
            NipartPluginCmd::Quit => "quit",
        };
        String::from_str(kind)
    }

    /// Replaces every secret of a state to apply.
    pub fn hide_secrets(&mut self)
        ensures
            match (*old(self), *final(self)) {
                (
                    NipartPluginCmd::ApplyNetworkState(before),
                    NipartPluginCmd::ApplyNetworkState(after),
                ) => (*after).0@ == (*before).0@.secrets_hidden() && (*after).1 == (*before).1,
                (before, after) => !(before is ApplyNetworkState) && after == before,
            },
    {
        if let NipartPluginCmd::ApplyNetworkState(state) = self {
            state.0.hide_secrets();
        }
    }
}

/// The error of a plugin that does not do what it is told.
pub fn no_support(plugin_name: &str, method: &str) -> (res: NipartError)
    ensures
        res@ == (NipartErrorView {
            kind: ErrorKind::NoSupport,
            msg: "Plugin "@ + plugin_name@ + " has not implemented "@ + method@ + "()"@,
        }),
{
    NipartError::new(
        ErrorKind::NoSupport,
        String::from_str("Plugin ").concat(plugin_name).concat(" has not implemented ").concat(
            method,
        ).concat("()"),
    )
}

} // verus!
