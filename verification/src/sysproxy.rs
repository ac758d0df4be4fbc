//! Reversible OS proxy settings: the backend interface, the manager, and the
//! verified decision logic of the macOS backend — which `networksetup`
//! commands to issue, how to read its answers, and how a snapshot restores.
//!
//! Running the commands is the caller's work; everything here is a function
//! from their plain-text output to the next commands.
use vstd::prelude::*;

use crate::text::{
    chars_to_string, eq_ignore_case, lower_seq, split_lines_spec, starts_with, str_to_chars,
    sub_vec, trim, trim_spec, u64_to_dec,
};

verus! {

/// An OS proxy mutation failure.
#[derive(Debug, Clone)]
pub struct SystemProxyError {
    message: String,
}

impl SystemProxyError {
    /// Wraps a failure message.
    pub fn new(message: String) -> (r: SystemProxyError)
        ensures
            r.message_spec() == message@,
    {
        SystemProxyError { message }
    }

    /// What [`SystemProxyError::message`] returns.
    pub closed spec fn message_spec(&self) -> Seq<char> {
        self.message@
    }

    /// The failure message.
    pub fn message(&self) -> (r: &str)
        ensures
            r@ == self.message_spec(),
    {
        self.message.as_str()
    }
}

pub type SystemProxyResult<T> = Result<T, SystemProxyError>;

/// Where the OS should send proxied traffic.
#[derive(Debug, Clone)]
pub struct SystemProxyConfig {
    pub host: String,
    pub port: u16,
}

impl SystemProxyConfig {
    /// A proxy endpoint.
    pub fn new(host: String, port: u16) -> (r: SystemProxyConfig)
        ensures
            r.host@ == host@,
            r.port == port,
    {
        SystemProxyConfig { host, port }
    }
}

/// A per-platform mutator of the OS proxy settings. Implementations live
/// with the caller; nothing is assumed of them.
pub trait SystemProxyBackend {
    fn enable(&mut self, config: &SystemProxyConfig) -> SystemProxyResult<()>;

    fn disable(&mut self) -> SystemProxyResult<()>;
}

/// The backend for platforms without an implementation: both operations
/// report a clear error rather than silently succeeding.
#[derive(Debug)]
pub struct UnsupportedSystemProxyBackend;

impl SystemProxyBackend for UnsupportedSystemProxyBackend {
    fn enable(&mut self, config: &SystemProxyConfig) -> SystemProxyResult<()> {
        Err(
            SystemProxyError::new(
                "system proxy manager is not implemented for this platform".to_owned(),
            ),
        )
    }

    fn disable(&mut self) -> SystemProxyResult<()> {
        Err(
            SystemProxyError::new(
                "system proxy manager is not implemented for this platform".to_owned(),
            ),
        )
    }
}

/// The manager: one backend, selected at construction.
#[derive(Debug)]
pub struct SystemProxyManager<B: SystemProxyBackend> {
    backend: B,
}

impl SystemProxyManager<UnsupportedSystemProxyBackend> {
    /// A manager with the no-platform backend; callers with a real platform
    /// construct one with [`SystemProxyManager::new_with_backend`].
    pub fn new() -> SystemProxyManager<UnsupportedSystemProxyBackend> {
        SystemProxyManager { backend: UnsupportedSystemProxyBackend }
    }
}

impl<B: SystemProxyBackend> SystemProxyManager<B> {
    /// A manager around the given backend.
    pub fn new_with_backend(backend: B) -> SystemProxyManager<B> {
        SystemProxyManager { backend }
    }

    /// Points the OS at `host:port`.
    pub fn enable(&mut self, host: String, port: u16) -> SystemProxyResult<()> {
        let config = SystemProxyConfig::new(host, port);
        self.enable_with_config(&config)
    }

    /// Points the OS at the given endpoint.
    pub fn enable_with_config(&mut self, config: &SystemProxyConfig) -> SystemProxyResult<()> {
        self.backend.enable(config)
    }

    /// Clears the OS proxy settings.
    pub fn disable(&mut self) -> SystemProxyResult<()> {
        self.backend.disable()
    }
}

/// The three proxy slots each network service carries.
#[derive(Debug, Clone, Copy, PartialEq, Eq, Structural)]
pub enum ProxyProtocol {
    Web,
    SecureWeb,
    Socks,
}

impl ProxyProtocol {
    /// What [`ProxyProtocol::get_cmd`] returns.
    pub open spec fn get_cmd_spec(self) -> Seq<char> {
        match self {
            ProxyProtocol::Web => "-getwebproxy"@,
            ProxyProtocol::SecureWeb => "-getsecurewebproxy"@,
            ProxyProtocol::Socks => "-getsocksfirewallproxy"@,
        }
    }

    /// The `networksetup` flag that reads this slot.
    pub fn get_cmd(self) -> (r: &'static str)
        ensures
            r@ == self.get_cmd_spec(),
    {
        match self {
            ProxyProtocol::Web => "-getwebproxy",
            ProxyProtocol::SecureWeb => "-getsecurewebproxy",
            ProxyProtocol::Socks => "-getsocksfirewallproxy",
        }
    }

    /// What [`ProxyProtocol::set_cmd`] returns.
    pub open spec fn set_cmd_spec(self) -> Seq<char> {
        match self {
            ProxyProtocol::Web => "-setwebproxy"@,
            ProxyProtocol::SecureWeb => "-setsecurewebproxy"@,
            ProxyProtocol::Socks => "-setsocksfirewallproxy"@,
        }
    }

    /// The `networksetup` flag that writes this slot's endpoint.
    pub fn set_cmd(self) -> (r: &'static str)
        ensures
            r@ == self.set_cmd_spec(),
    {
        match self {
            ProxyProtocol::Web => "-setwebproxy",
            ProxyProtocol::SecureWeb => "-setsecurewebproxy",
            ProxyProtocol::Socks => "-setsocksfirewallproxy",
        }
    }

    /// What [`ProxyProtocol::set_state_cmd`] returns.
    pub open spec fn set_state_cmd_spec(self) -> Seq<char> {
        match self {
            ProxyProtocol::Web => "-setwebproxystate"@,
            ProxyProtocol::SecureWeb => "-setsecurewebproxystate"@,
            ProxyProtocol::Socks => "-setsocksfirewallproxystate"@,
        }
    }

    /// The `networksetup` flag that switches this slot on or off.
    pub fn set_state_cmd(self) -> (r: &'static str)
        ensures
            r@ == self.set_state_cmd_spec(),
    {
        match self {
            ProxyProtocol::Web => "-setwebproxystate",
            ProxyProtocol::SecureWeb => "-setsecurewebproxystate",
            ProxyProtocol::Socks => "-setsocksfirewallproxystate",
        }
    }
}

/// One slot's captured settings.
#[derive(Debug, Clone)]
pub struct ProxyState {
    pub enabled: bool,
    pub server: String,
    pub port: u16,
}

/// Mathematical model of a [`ProxyState`].
#[verifier::ext_equal]
pub struct ProxyStateView {
    pub enabled: bool,
    pub server: Seq<char>,
    pub port: int,
}

impl View for ProxyState {
    type V = ProxyStateView;

    open spec fn view(&self) -> ProxyStateView {
        ProxyStateView { enabled: self.enabled, server: self.server@, port: self.port as int }
    }
}

/// One network service's three captured slots.
#[derive(Debug, Clone)]
pub struct ServiceProxyState {
    pub name: String,
    pub web: ProxyState,
    pub secure_web: ProxyState,
    pub socks: ProxyState,
}

/// The ordered per-service capture taken before the first mutation.
#[derive(Debug, Clone)]
pub struct SystemProxySnapshot {
    pub services: Vec<ServiceProxyState>,
}

/// The active network services named in `networksetup
/// -listallnetworkservices` output: every line after the banner that is
/// non-blank and not starred as disabled.
pub open spec fn services_spec(lines: Seq<Seq<char>>) -> Seq<Seq<char>>
    decreases lines.len(),
{
    if lines.len() == 0 {
        Seq::empty()
    } else {
        let rest = services_spec(lines.drop_first());
        let t = trim_spec(lines[0]);
        if t.len() == 0 || t[0] == '*' {
            rest
        } else {
            seq![t] + rest
        }
    }
}

/// The services a full listing output names: everything after the banner
/// line.
pub open spec fn listed_services(output: Seq<char>) -> Seq<Seq<char>> {
    let lines = split_lines_spec(output);
    if lines.len() == 0 {
        Seq::empty()
    } else {
        services_spec(lines.drop_first())
    }
}

/// Reads the active service names out of the service-listing output.
pub fn parse_active_services(output: &str) -> (r: Vec<String>)
    ensures
        r.deep_view() == listed_services(output@),
{
    let chars = str_to_chars(output);
    let lines = crate::text::split_lines(chars.as_slice());
    let mut r: Vec<String> = Vec::new();
    let n = lines.len();
    let ghost ls = split_lines_spec(output@);
    proof {
        if ls.len() > 0 {
            assert(ls.drop_first().skip(0) =~= ls.drop_first());
        }
    }
    if n == 0 {
        proof {
            assert(r.deep_view() =~= listed_services(output@));
        }
        return r;
    }
    let mut i: usize = 1;
    while i < n
        invariant
            1 <= i <= n,
            n == lines@.len(),
            ls == lines.deep_view(),
            n == ls.len(),
            services_spec(ls.drop_first()) =~= r.deep_view() + services_spec(
                ls.drop_first().skip(i - 1),
            ),
        decreases n - i,
    {
        let ghost rest = ls.drop_first().skip(i - 1);
        proof {
            assert(rest[0] == ls[i as int]);
            assert(rest.drop_first() =~= ls.drop_first().skip(i as int));
            assert(lines.deep_view()[i as int] == lines@[i as int]@);
        }
        let t = trim(lines[i].as_slice());
        if t.len() > 0 && t[0] != '*' {
            crate::text::push_deep(&mut r, chars_to_string(t.as_slice()));
        }
        proof {
            assert(services_spec(ls.drop_first()) =~= r.deep_view() + services_spec(
                ls.drop_first().skip(i as int),
            ));
        }
        i = i + 1;
    }
    proof {
        assert(ls.drop_first().skip(n - 1) =~= Seq::<Seq<char>>::empty());
        assert(r.deep_view() =~= listed_services(output@));
    }
    r
}

/// What one output line contributes to a slot's captured state.
pub open spec fn proxy_state_line(st: ProxyStateView, line: Seq<char>) -> ProxyStateView {
    let t = trim_spec(line);
    if "Enabled:"@.is_prefix_of(t) {
        ProxyStateView {
            enabled: lower_seq(trim_spec(t.skip(8))) == lower_seq("Yes"@),
            ..st
        }
    } else if "Server:"@.is_prefix_of(t) {
        ProxyStateView { server: trim_spec(t.skip(7)), ..st }
    } else if "Port:"@.is_prefix_of(t) {
        let p = trim_spec(t.skip(5));
        ProxyStateView {
            port: if crate::text::is_dec_seq(p) && crate::text::dec_val(p) <= u16::MAX {
                crate::text::dec_val(p)
            } else {
                0
            },
            ..st
        }
    } else {
        st
    }
}

/// The slot state the whole output folds to, starting from all-off.
pub open spec fn proxy_state_fold(st: ProxyStateView, lines: Seq<Seq<char>>) -> ProxyStateView
    decreases lines.len(),
{
    if lines.len() == 0 {
        st
    } else {
        proxy_state_fold(proxy_state_line(st, lines[0]), lines.drop_first())
    }
}

/// The state a `networksetup -get…proxy` output describes.
pub open spec fn parsed_proxy_state(output: Seq<char>) -> ProxyStateView {
    proxy_state_fold(
        ProxyStateView { enabled: false, server: Seq::empty(), port: 0 },
        split_lines_spec(output),
    )
}

/// Reads one slot's state out of a `networksetup -get…proxy` output.
pub fn parse_proxy_state(output: &str) -> (r: ProxyState)
    ensures
        r@ == parsed_proxy_state(output@),
{
    let chars = str_to_chars(output);
    let lines = crate::text::split_lines(chars.as_slice());
    let mut st = ProxyState { enabled: false, server: String::new(), port: 0 };
    assert(st@ =~= (ProxyStateView { enabled: false, server: Seq::empty(), port: 0 }));
    let n = lines.len();
    let ghost ls = lines.deep_view();
    proof {
        assert(ls.skip(0) =~= ls);
    }
    for i in 0..n
        invariant
            n == lines@.len(),
            ls == lines.deep_view(),
            parsed_proxy_state(output@) == proxy_state_fold(st@, ls.skip(i as int)),
    {
        let ghost rest = ls.skip(i as int);
        proof {
            assert(rest[0] == ls[i as int]);
            assert(rest.drop_first() =~= ls.skip(i + 1));
            assert(lines.deep_view()[i as int] == lines@[i as int]@);
        }
        let t = trim(lines[i].as_slice());
        let enabled_p = str_to_chars("Enabled:");
        let server_p = str_to_chars("Server:");
        let port_p = str_to_chars("Port:");
        let ghost before = st@;
        if starts_with(t.as_slice(), enabled_p.as_slice()) {
            proof {
                reveal_strlit("Enabled:");
            }
            let after = sub_vec(t.as_slice(), 8, t.len());
            let tv = trim(after.as_slice());
            let yes = str_to_chars("Yes");
            st.enabled = eq_ignore_case(tv.as_slice(), yes.as_slice());
            proof {
                assert(after@ =~= trim_spec(ls[i as int]).skip(8));
                assert(st@ =~= proxy_state_line(before, ls[i as int]));
            }
        } else if starts_with(t.as_slice(), server_p.as_slice()) {
            proof {
                reveal_strlit("Server:");
                reveal_strlit("Enabled:");
            }
            let after = sub_vec(t.as_slice(), 7, t.len());
            let tv = trim(after.as_slice());
            st.server = chars_to_string(tv.as_slice());
            proof {
                assert(after@ =~= trim_spec(ls[i as int]).skip(7));
                assert(st@ =~= proxy_state_line(before, ls[i as int]));
            }
        } else if starts_with(t.as_slice(), port_p.as_slice()) {
            proof {
                reveal_strlit("Port:");
                reveal_strlit("Server:");
                reveal_strlit("Enabled:");
            }
            let after = sub_vec(t.as_slice(), 5, t.len());
            let tv = trim(after.as_slice());
            st.port = match crate::text::parse_u64(tv.as_slice()) {
                Some(v) => {
                    if v <= u16::MAX as u64 {
                        v as u16
                    } else {
                        0
                    }
                },
                None => 0,
            };
            proof {
                assert(after@ =~= trim_spec(ls[i as int]).skip(5));
                assert(st@ =~= proxy_state_line(before, ls[i as int]));
            }
        } else {
            proof {
                assert(st@ =~= proxy_state_line(before, ls[i as int]));
            }
        }
    }
    proof {
        assert(proxy_state_fold(st@, ls.skip(n as int)) == st@);
    }
    st
}

/// How one slot restores from its captured state: a fully populated enabled
/// capture restores the endpoint and switches the slot on; anything else
/// switches the slot off.
pub enum RestoreAction {
    SetAndEnable { server: String, port: u16 },
    Off,
}

/// The restore rule.
pub fn restore_action(state: &ProxyState) -> (r: RestoreAction)
    ensures
        state@.enabled && state@.server.len() > 0 && state@.port > 0 <==> r is SetAndEnable,
        r matches RestoreAction::SetAndEnable { server, port } ==> server@ == state@.server && port
            == state@.port,
{
    if state.enabled && !state.server.as_str().is_empty() && state.port > 0 {
        RestoreAction::SetAndEnable { server: state.server.clone(), port: state.port }
    } else {
        RestoreAction::Off
    }
}

/// The `networksetup` arguments that write one slot's endpoint.
pub fn set_proxy_args(service: &str, protocol: ProxyProtocol, host: &str, port: u16) -> (r: Vec<
    String,
>)
    ensures
        r.deep_view() =~= seq![
            protocol.set_cmd_spec(),
            service@,
            host@,
            crate::text::dec_chars(port as int),
        ],
{
    let mut r: Vec<String> = Vec::new();
    crate::text::push_deep(&mut r, protocol.set_cmd().to_owned());
    crate::text::push_deep(&mut r, service.to_owned());
    crate::text::push_deep(&mut r, host.to_owned());
    crate::text::push_deep(&mut r, chars_to_string(u64_to_dec(port as u64).as_slice()));
    r
}

/// The `networksetup` arguments that switch one slot on or off.
pub fn set_proxy_state_args(service: &str, protocol: ProxyProtocol, enabled: bool) -> (r: Vec<
    String,
>)
    ensures
        r.deep_view() =~= seq![
            protocol.set_state_cmd_spec(),
            service@,
            if enabled {
                "on"@
            } else {
                "off"@
            },
        ],
{
    let mut r: Vec<String> = Vec::new();
    crate::text::push_deep(&mut r, protocol.set_state_cmd().to_owned());
    crate::text::push_deep(&mut r, service.to_owned());
    let state = if enabled {
        "on"
    } else {
        "off"
    };
    crate::text::push_deep(&mut r, state.to_owned());
    r
}

/// The `networksetup` arguments that read one slot.
pub fn get_proxy_args(service: &str, protocol: ProxyProtocol) -> (r: Vec<String>)
    ensures
        r.deep_view() =~= seq![protocol.get_cmd_spec(), service@],
{
    let mut r: Vec<String> = Vec::new();
    crate::text::push_deep(&mut r, protocol.get_cmd().to_owned());
    crate::text::push_deep(&mut r, service.to_owned());
    r
}

} // verus!

verus! {

/// The `host:port` value the Windows proxy settings store.
pub fn windows_proxy_server_value(host: &str, port: u16) -> (r: String)
    ensures
        r@ == host@ + ":"@ + crate::text::dec_chars(port as int),
{
    let mut out = str_to_chars(host);
    crate::text::append_str(&mut out, ":");
    let digits = u64_to_dec(port as u64);
    crate::text::append_slice(&mut out, digits.as_slice());
    proof {
        assert(out@ =~= host@ + ":"@ + crate::text::dec_chars(port as int));
    }
    chars_to_string(out.as_slice())
}

/// The two registry commands that point Windows at the proxy: the server
/// value, then the enable flag.
pub fn windows_enable_proxy_args(host: &str, port: u16) -> (r: (Vec<String>, Vec<String>))
    ensures
        r.0.deep_view() =~= seq![
            "add"@,
            "HKCU\\Software\\Microsoft\\Windows\\CurrentVersion\\Internet Settings"@,
            "/v"@,
            "ProxyServer"@,
            "/t"@,
            "REG_SZ"@,
            "/d"@,
            host@ + ":"@ + crate::text::dec_chars(port as int),
            "/f"@,
        ],
        r.1.deep_view() =~= seq![
            "add"@,
            "HKCU\\Software\\Microsoft\\Windows\\CurrentVersion\\Internet Settings"@,
            "/v"@,
            "ProxyEnable"@,
            "/t"@,
            "REG_DWORD"@,
            "/d"@,
            "1"@,
            "/f"@,
        ],
{
    let mut server: Vec<String> = Vec::new();
    crate::text::push_deep(&mut server, "add".to_owned());
    crate::text::push_deep(
        &mut server,
        "HKCU\\Software\\Microsoft\\Windows\\CurrentVersion\\Internet Settings".to_owned(),
    );
    crate::text::push_deep(&mut server, "/v".to_owned());
    crate::text::push_deep(&mut server, "ProxyServer".to_owned());
    crate::text::push_deep(&mut server, "/t".to_owned());
    crate::text::push_deep(&mut server, "REG_SZ".to_owned());
    crate::text::push_deep(&mut server, "/d".to_owned());
    crate::text::push_deep(&mut server, windows_proxy_server_value(host, port));
    crate::text::push_deep(&mut server, "/f".to_owned());
    let mut enable: Vec<String> = Vec::new();
    crate::text::push_deep(&mut enable, "add".to_owned());
    crate::text::push_deep(
        &mut enable,
        "HKCU\\Software\\Microsoft\\Windows\\CurrentVersion\\Internet Settings".to_owned(),
    );
    crate::text::push_deep(&mut enable, "/v".to_owned());
    crate::text::push_deep(&mut enable, "ProxyEnable".to_owned());
    crate::text::push_deep(&mut enable, "/t".to_owned());
    crate::text::push_deep(&mut enable, "REG_DWORD".to_owned());
    crate::text::push_deep(&mut enable, "/d".to_owned());
    crate::text::push_deep(&mut enable, "1".to_owned());
    crate::text::push_deep(&mut enable, "/f".to_owned());
    (server, enable)
}

/// The registry command that switches the Windows proxy off.
pub fn windows_disable_proxy_args() -> (r: Vec<String>)
    ensures
        r.deep_view() =~= seq![
            "add"@,
            "HKCU\\Software\\Microsoft\\Windows\\CurrentVersion\\Internet Settings"@,
            "/v"@,
            "ProxyEnable"@,
            "/t"@,
            "REG_DWORD"@,
            "/d"@,
            "0"@,
            "/f"@,
        ],
{
    let mut r: Vec<String> = Vec::new();
    crate::text::push_deep(&mut r, "add".to_owned());
    crate::text::push_deep(
        &mut r,
        "HKCU\\Software\\Microsoft\\Windows\\CurrentVersion\\Internet Settings".to_owned(),
    );
    crate::text::push_deep(&mut r, "/v".to_owned());
    crate::text::push_deep(&mut r, "ProxyEnable".to_owned());
    crate::text::push_deep(&mut r, "/t".to_owned());
    crate::text::push_deep(&mut r, "REG_DWORD".to_owned());
    crate::text::push_deep(&mut r, "/d".to_owned());
    crate::text::push_deep(&mut r, "0".to_owned());
    crate::text::push_deep(&mut r, "/f".to_owned());
    r
}

} // verus!
