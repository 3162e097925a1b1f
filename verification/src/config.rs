//! Settings: what the config file says, for all hosts and for one, and what
//! comes out when the layers are merged.

use vstd::prelude::*;
use crate::durations;
use crate::durations::parse_duration;
use crate::naming;
use crate::naming::sanitize_client_name;
use crate::order;
use crate::order::sort_texts;
use crate::outside;
use crate::paths;
use crate::paths::join_path;
use crate::protocol::{IDLE_EVICT_SAFETY_MARGIN, IDLE_EVICT_TIMEOUT};
use crate::text;
use crate::text::{append_all, cat2, cat4, cat5, cat7, copy, decimal_text, join_texts, lower, same};

verus! {

/// What a new file of settings holds: everything that can be set, commented out.
pub const DEFAULT_CONFIG: &'static str = "# gritty settings. What a command is told on the command line comes first, then\n# the section of the host, then [defaults], then what is built in (shown here).\n\n[defaults]\n# forward-agent = false\n# forward-open = true\n# no-escape = false\n# oauth-redirect = true\n# oauth-timeout = 180\n# oauth-tunnel-idle-timeout = 5\n# heartbeat-interval = 10\n# heartbeat-timeout = 60\n# ring-buffer-size = 1048576\n# client-name = \"laptop\"\n# linger = \"never\"\n# linger-unnamed = \"never\"\n\n[defaults.tunnel]\n# ssh-options = []\n# no-server-start = false\n# isolate-control-path = true\n# connect-timeout = 30\n\n# [host.devbox]\n# aliases = [\"devbox.example.com\"]\n# forward-agent = true\n\n# [host.devbox.tunnel]\n# ssh-options = [\"IdentityFile=~/.ssh/devbox\"]\n";

/// The most that interval and timeout of the heartbeat may add up to: the
/// server gives a silent client up after its idle limit, less a margin.
pub open spec fn idle_evict_ceiling() -> u64 {
    (IDLE_EVICT_TIMEOUT - IDLE_EVICT_SAFETY_MARGIN) as u64
}

pub open spec fn zero_linger() -> Seq<char> {
    "linger of 0 is ambiguous -- use \"never\" to disable auto-reap, or \"1s\" for immediate"@
}

/// The seconds that a `linger` setting stands for: `never` is 0.
pub open spec fn linger_secs(s: Seq<char>) -> Result<u64, Seq<char>> {
    if text::lowered(s) == "never"@ {
        Ok(0)
    } else {
        match durations::duration_secs(s) {
            Some(n) => if n == 0 {
                Err(zero_linger())
            } else {
                Ok(n)
            },
            None => Err(durations::bad_duration(s)),
        }
    }
}

/// Read a `linger` setting: `never`, in any case, or a span that is not zero.
pub fn parse_linger(s: &str) -> (r: Result<u64, String>)
    ensures
        r is Ok <==> linger_secs(s@) is Ok,
        r matches Ok(n) ==> linger_secs(s@) == Ok::<u64, Seq<char>>(n),
        r matches Err(e) ==> linger_secs(s@) == Err::<u64, Seq<char>>(e@),
{
    let small = lower(s);
    if same(small.as_str(), "never") {
        return Ok(0);
    }
    match parse_duration(s) {
        Ok(n) => {
            if n == 0 {
                Err(
                    copy(
                        "linger of 0 is ambiguous -- use \"never\" to disable auto-reap, or \"1s\" for immediate",
                    ),
                )
            } else {
                Ok(n)
            }
        },
        Err(e) => Err(e),
    }
}

/// The heartbeat interval that is used for the one that is set: at least one
/// second, and small enough that a longer timeout still fits.
pub open spec fn interval_of(raw: u64) -> u64 {
    let max = (idle_evict_ceiling() - 1) / 2;
    if raw < 1 {
        1
    } else if raw > max {
        max as u64
    } else {
        raw
    }
}

/// The timeout before the ceiling is looked at: longer than the interval.
pub open spec fn timeout_above(interval: u64, raw: u64) -> int {
    if raw <= interval {
        interval + 1
    } else {
        raw as int
    }
}

/// The heartbeat timeout that is used for the one that is set.
pub open spec fn timeout_of(interval: u64, raw: u64) -> u64 {
    let most = idle_evict_ceiling() - interval;
    if timeout_above(interval, raw) > most {
        most as u64
    } else {
        timeout_above(interval, raw) as u64
    }
}

pub open spec fn secs(n: int) -> Seq<char> {
    text::decimal(n as nat)
}

/// What is said about a heartbeat that had to be adjusted.
pub open spec fn heartbeat_warnings(raw_interval: u64, raw_timeout: u64) -> Seq<Seq<char>> {
    let i = interval_of(raw_interval);
    let t = timeout_above(i, raw_timeout);
    let most = idle_evict_ceiling() - i;
    let one = if i != raw_interval {
        seq![
            "heartbeat-interval clamped to "@ + secs(i as int) + "s (was "@ + secs(raw_interval as int) + "s)"@,
        ]
    } else {
        seq![]
    };
    let two = if raw_timeout <= i {
        seq![
            "heartbeat-timeout ("@ + secs(raw_timeout as int) + "s) must exceed heartbeat-interval ("@ + secs(i as int) + "s); clamped to "@ + secs(i + 1) + "s"@,
        ]
    } else {
        seq![]
    };
    let three = if t > most {
        seq![
            "heartbeat-interval ("@ + secs(i as int) + "s) + heartbeat-timeout ("@ + secs(t) + "s) exceeds server idle-evict ("@ + secs(IDLE_EVICT_TIMEOUT as int) + (
                "s); timeout clamped to "@ + secs(most) + "s"@),
        ]
    } else {
        seq![]
    };
    one + two + three
}

/// A heartbeat that client and server can both keep, and what to say about
/// the changes.
pub struct Heartbeat {
    pub interval: u64,
    pub timeout: u64,
    pub warnings: Vec<String>,
}

/// Adjust the heartbeat: the interval is at least a second, the timeout is
/// longer than the interval, and both together stay under the ceiling.
pub fn clamp_heartbeat(raw_interval: u64, raw_timeout: u64) -> (r: Heartbeat)
    ensures
        r.interval == interval_of(raw_interval),
        r.timeout == timeout_of(r.interval, raw_timeout),
        text::views(r.warnings@) == heartbeat_warnings(raw_interval, raw_timeout),
        1 <= r.interval < r.timeout,
        r.interval + r.timeout <= idle_evict_ceiling(),
{
    let mut warnings: Vec<String> = Vec::new();
    let ghost w0 = text::views(warnings@);
    assert(w0 == Seq::<Seq<char>>::empty());
    let ceiling: u64 = IDLE_EVICT_TIMEOUT - IDLE_EVICT_SAFETY_MARGIN;
    let max_interval: u64 = (ceiling - 1) / 2;
    let interval: u64 = if raw_interval < 1 {
        1
    } else if raw_interval > max_interval {
        max_interval
    } else {
        raw_interval
    };
    let shown = decimal_text(interval);
    if interval != raw_interval {
        let was = decimal_text(raw_interval);
        let line = cat5(
            "heartbeat-interval clamped to ",
            shown.as_str(),
            "s (was ",
            was.as_str(),
            "s)",
        );
        proof {
            text::lemma_views_push(warnings@, line);
        }
        warnings.push(line);
    }
    let ghost w1 = text::views(warnings@);
    let mut timeout: u64 = raw_timeout;
    if raw_timeout <= interval {
        timeout = interval + 1;
        let was = decimal_text(raw_timeout);
        let now = decimal_text(timeout);
        let line = cat7(
            "heartbeat-timeout (",
            was.as_str(),
            "s) must exceed heartbeat-interval (",
            shown.as_str(),
            "s); clamped to ",
            now.as_str(),
            "s",
        );
        proof {
            text::lemma_views_push(warnings@, line);
        }
        warnings.push(line);
    }
    let ghost w2 = text::views(warnings@);
    let most: u64 = ceiling - interval;
    if timeout > most {
        let was = decimal_text(timeout);
        let limit = decimal_text(IDLE_EVICT_TIMEOUT);
        let now = decimal_text(most);
        let end = text::cat3("s); timeout clamped to ", now.as_str(), "s");
        let line = cat7(
            "heartbeat-interval (",
            shown.as_str(),
            "s) + heartbeat-timeout (",
            was.as_str(),
            "s) exceeds server idle-evict (",
            limit.as_str(),
            end.as_str(),
        );
        proof {
            text::lemma_views_push(warnings@, line);
        }
        warnings.push(line);
        timeout = most;
    }
    proof {
        let e = Seq::<Seq<char>>::empty();
        assert(w1 + e == w1);
        assert(w2 + e == w2);
        assert(text::views(warnings@) == heartbeat_warnings(raw_interval, raw_timeout));
    }
    Heartbeat { interval, timeout, warnings }
}

/// A heartbeat that keeps the rules is left as it is, without a word.
pub proof fn law_sound_heartbeat_is_kept(interval: u64, timeout: u64)
    requires
        1 <= interval < timeout,
        interval + timeout <= idle_evict_ceiling(),
    ensures
        interval_of(interval) == interval,
        timeout_of(interval, timeout) == timeout,
        heartbeat_warnings(interval, timeout) == Seq::<Seq<char>>::empty(),
{
    assert(heartbeat_warnings(interval, timeout) =~= Seq::<Seq<char>>::empty());
}

/// Adjusting an adjusted heartbeat changes nothing.
pub proof fn law_clamp_is_stable(raw_interval: u64, raw_timeout: u64)
    ensures
        interval_of(interval_of(raw_interval)) == interval_of(raw_interval),
        timeout_of(
            interval_of(raw_interval),
            timeout_of(interval_of(raw_interval), raw_timeout),
        ) == timeout_of(interval_of(raw_interval), raw_timeout),
{
}

/// The settings of a session after all layers are merged.
#[derive(Debug, PartialEq, Eq)]
pub struct SessionSettings {
    pub forward_agent: bool,
    pub forward_open: bool,
    pub no_escape: bool,
    pub oauth_redirect: bool,
    pub oauth_timeout: u64,
    pub heartbeat_interval: u64,
    pub heartbeat_timeout: u64,
    pub ring_buffer_size: u64,
    pub oauth_tunnel_idle_timeout: u64,
    pub client_name: String,
    /// Seconds that a named session survives with no client; 0 is for ever.
    pub linger: u64,
    /// The same for a session whose name the user left out.
    pub linger_unnamed: u64,
}

/// The settings of a tunnel after all layers are merged.
#[derive(Debug, PartialEq, Eq)]
pub struct TunnelSettings {
    pub session: SessionSettings,
    pub ssh_options: Vec<String>,
    pub no_server_start: bool,
    pub isolate_control_path: bool,
    pub connect_timeout: u64,
}

/// The config file: settings for every host, and for single hosts.
pub struct ConfigFile {
    pub defaults: Defaults,
    /// The sections of single hosts, each name once.
    pub host: Vec<(String, HostConfig)>,
}

/// One section of the config file, for all hosts or for one.
pub struct Defaults {
    pub forward_agent: Option<bool>,
    pub forward_open: Option<bool>,
    pub no_escape: Option<bool>,
    pub oauth_redirect: Option<bool>,
    pub oauth_timeout: Option<u64>,
    pub heartbeat_interval: Option<u64>,
    pub heartbeat_timeout: Option<u64>,
    pub ring_buffer_size: Option<u64>,
    pub oauth_tunnel_idle_timeout: Option<u64>,
    pub client_name: Option<String>,
    pub linger: Option<String>,
    pub linger_unnamed: Option<String>,
    /// Other names of the host. The first is where a new tunnel leads.
    pub aliases: Option<Vec<String>>,
    pub tunnel: Option<TunnelDefaults>,
}

/// The tunnel part of a section.
pub struct TunnelDefaults {
    pub ssh_options: Option<Vec<String>>,
    pub no_server_start: Option<bool>,
    pub isolate_control_path: Option<bool>,
    pub connect_timeout: Option<u64>,
}

/// The section of one host overrides the same keys.
pub type HostConfig = Defaults;

/// A section that sets nothing.
pub open spec fn blank() -> Defaults {
    Defaults {
        forward_agent: None,
        forward_open: None,
        no_escape: None,
        oauth_redirect: None,
        oauth_timeout: None,
        heartbeat_interval: None,
        heartbeat_timeout: None,
        ring_buffer_size: None,
        oauth_tunnel_idle_timeout: None,
        client_name: None,
        linger: None,
        linger_unnamed: None,
        aliases: None,
        tunnel: None,
    }
}

impl Default for Defaults {
    fn default() -> (r: Defaults)
        ensures
            r == blank(),
    {
        Defaults {
            forward_agent: None,
            forward_open: None,
            no_escape: None,
            oauth_redirect: None,
            oauth_timeout: None,
            heartbeat_interval: None,
            heartbeat_timeout: None,
            ring_buffer_size: None,
            oauth_tunnel_idle_timeout: None,
            client_name: None,
            linger: None,
            linger_unnamed: None,
            aliases: None,
            tunnel: None,
        }
    }
}

/// A tunnel part that sets nothing.
pub open spec fn blank_tunnel() -> TunnelDefaults {
    TunnelDefaults {
        ssh_options: None,
        no_server_start: None,
        isolate_control_path: None,
        connect_timeout: None,
    }
}

impl Default for TunnelDefaults {
    fn default() -> (r: TunnelDefaults)
        ensures
            r == blank_tunnel(),
    {
        TunnelDefaults {
            ssh_options: None,
            no_server_start: None,
            isolate_control_path: None,
            connect_timeout: None,
        }
    }
}

impl Default for ConfigFile {
    fn default() -> (r: ConfigFile)
        ensures
            r.defaults == blank(),
            r.host@.len() == 0,
    {
        ConfigFile { defaults: Defaults::default(), host: Vec::new() }
    }
}

/// The name of this machine as the default client name; a machine without a
/// usable name counts as unknown.
pub open spec fn client_name_from(host_name: Option<Seq<char>>) -> Seq<char> {
    match host_name {
        Some(n) => naming::client_name_of(n),
        None => "unknown"@,
    }
}

/// The client name for a machine with this name.
pub fn client_name_for(host_name: Option<String>) -> (r: String)
    ensures
        r@ == client_name_from(text::owned_view(host_name)),
        naming::client_name_ok(r@),
{
    proof {
        reveal_strlit("");
        reveal_strlit("unknown");
    }
    let raw = match host_name {
        Some(n) => n,
        None => copy(""),
    };
    sanitize_client_name(raw)
}

/// The default client name of this machine.
pub fn default_client_name() -> (r: String)
    ensures
        naming::client_name_ok(r@),
{
    client_name_for(outside::host_name())
}

impl Default for SessionSettings {
    fn default() -> (r: SessionSettings)
        ensures
            !r.forward_agent,
            r.forward_open,
            !r.no_escape,
            r.oauth_redirect,
            r.oauth_timeout == 180,
            r.heartbeat_interval == 10,
            r.heartbeat_timeout == 60,
            r.ring_buffer_size == 1048576,
            r.oauth_tunnel_idle_timeout == 5,
            naming::client_name_ok(r.client_name@),
            r.linger == 0,
            r.linger_unnamed == 0,
    {
        SessionSettings {
            forward_agent: false,
            forward_open: true,
            no_escape: false,
            oauth_redirect: true,
            oauth_timeout: 180,
            heartbeat_interval: 10,
            heartbeat_timeout: 60,
            ring_buffer_size: 1048576,
            oauth_tunnel_idle_timeout: 5,
            client_name: default_client_name(),
            linger: 0,
            linger_unnamed: 0,
        }
    }
}

/// Where the config file is, given the directory for this program's settings.
pub open spec fn config_file(dir: Option<Seq<char>>) -> Seq<char> {
    match dir {
        Some(d) => paths::joined(d, "config.toml"@),
        None => ".config/gritty/config.toml"@,
    }
}

/// Where the config file is, given the directory for this program's settings.
pub fn config_path_in(dir: Option<String>) -> (r: String)
    ensures
        r@ == config_file(text::owned_view(dir)),
{
    match dir {
        Some(d) => join_path(d.as_str(), "config.toml"),
        None => copy(".config/gritty/config.toml"),
    }
}

/// Where the config file of this user is.
pub fn config_path() -> (r: String)
    ensures
        exists|dir: Option<Seq<char>>| r@ == config_file(dir),
{
    let dir = outside::settings_dir();
    let ghost d = text::owned_view(dir);
    let r = config_path_in(dir);
    assert(r@ == config_file(d));
    r
}

/// What came of reading the config file.
pub enum ConfigRead {
    Missing,
    Unreadable(String),
    Malformed(String),
    Parsed(ConfigFile),
}

/// What a strict look at the config file finds.
pub enum ConfigStatus {
    NotFound,
    Valid(Box<ConfigFile>),
    Invalid(String),
}

/// What a strict look at the config file finds: a file that cannot be read or
/// parsed is invalid, never absent.
pub fn config_status(file: ConfigRead) -> (r: ConfigStatus)
    ensures
        match file {
            ConfigRead::Missing => r is NotFound,
            ConfigRead::Unreadable(e) => r is Invalid && r->Invalid_0@ == "cannot read config: "@
                + e@,
            ConfigRead::Malformed(e) => r is Invalid && r->Invalid_0@ == e@,
            ConfigRead::Parsed(c) => r is Valid && *r->Valid_0 == c,
        },
{
    match file {
        ConfigRead::Missing => ConfigStatus::NotFound,
        ConfigRead::Unreadable(e) => ConfigStatus::Invalid(cat2("cannot read config: ", e.as_str())),
        ConfigRead::Malformed(e) => ConfigStatus::Invalid(e),
        ConfigRead::Parsed(c) => ConfigStatus::Valid(Box::new(c)),
    }
}

/// The section of a host: the first of that name.
pub open spec fn section(hosts: Seq<(String, Defaults)>, name: Seq<char>) -> Option<Defaults>
    decreases hosts.len(),
{
    if hosts.len() == 0 {
        None
    } else if hosts[0].0@ == name {
        Some(hosts[0].1)
    } else {
        section(hosts.skip(1), name)
    }
}

/// What is set for a host beyond the defaults.
pub open spec fn overrides(c: ConfigFile, host: Option<Seq<char>>) -> Defaults {
    match host {
        Some(h) => match section(c.host@, h) {
            Some(s) => s,
            None => blank(),
        },
        None => blank(),
    }
}

/// The most specific value: of the host, else of the defaults, else `last`.
pub open spec fn most_specific<T>(host: Option<T>, defaults: Option<T>, last: T) -> T {
    match host {
        Some(v) => v,
        None => match defaults {
            Some(v) => v,
            None => last,
        },
    }
}

/// Pick the most specific value: host override, else default, else false.
fn pick(host_val: Option<bool>, default_val: Option<bool>) -> (r: bool)
    ensures
        r == most_specific(host_val, default_val, false),
{
    pick_or(host_val, default_val, false)
}

fn pick_or<T: Copy>(host: Option<T>, defaults: Option<T>, last: T) -> (r: T)
    ensures
        r == most_specific(host, defaults, last),
{
    match host {
        Some(v) => v,
        None => match defaults {
            Some(v) => v,
            None => last,
        },
    }
}

/// A `linger` setting that is there and well formed.
pub open spec fn good_linger(raw: Option<Seq<char>>) -> Option<u64> {
    match raw {
        Some(s) => match linger_secs(s) {
            Ok(n) => Some(n),
            Err(_) => None,
        },
        None => None,
    }
}

/// What is said about a `linger` setting that is malformed.
pub open spec fn linger_warning(key: Seq<char>, raw: Option<Seq<char>>) -> Seq<Seq<char>> {
    match raw {
        Some(s) => match linger_secs(s) {
            Ok(_) => seq![],
            Err(e) => seq!["ignoring "@ + key + " = "@ + outside::debug_text(s) + (": "@ + e)],
        },
        None => seq![],
    }
}

pub open spec fn or<T>(a: Option<T>, b: Option<T>) -> Option<T> {
    if a is Some {
        a
    } else {
        b
    }
}

/// How long a named session lingers.
pub open spec fn linger_of(h: Defaults, d: Defaults) -> u64 {
    most_specific(good_linger(text::owned_view(h.linger)), good_linger(text::owned_view(d.linger)), 0)
}

/// How long an unnamed session lingers: anything that the host says comes
/// before anything that the defaults say.
pub open spec fn linger_unnamed_of(h: Defaults, d: Defaults) -> u64 {
    most_specific(
        or(good_linger(text::owned_view(h.linger_unnamed)), good_linger(text::owned_view(h.linger))),
        or(good_linger(text::owned_view(d.linger_unnamed)), good_linger(text::owned_view(d.linger))),
        0,
    )
}

/// What is said about the settings for a host.
pub open spec fn settings_warnings(h: Defaults, d: Defaults) -> Seq<Seq<char>> {
    heartbeat_warnings(
        most_specific(h.heartbeat_interval, d.heartbeat_interval, 10),
        most_specific(h.heartbeat_timeout, d.heartbeat_timeout, 60),
    ) + linger_warning("linger"@, text::owned_view(h.linger)) + linger_warning(
        "linger-unnamed"@,
        text::owned_view(h.linger_unnamed),
    ) + linger_warning("linger"@, text::owned_view(d.linger)) + linger_warning(
        "linger-unnamed"@,
        text::owned_view(d.linger_unnamed),
    )
}

/// The client name that is set for a host, made usable.
pub open spec fn set_client_name(h: Defaults, d: Defaults) -> Option<Seq<char>> {
    match or(text::owned_view(h.client_name), text::owned_view(d.client_name)) {
        Some(n) => Some(naming::client_name_of(n)),
        None => None,
    }
}

/// Whether `s` is what the sections of a host and of the defaults come to, for
/// a machine whose own client name is `own`.
pub open spec fn merged(s: SessionSettings, h: Defaults, d: Defaults, own: Seq<char>) -> bool {
    let interval = interval_of(most_specific(h.heartbeat_interval, d.heartbeat_interval, 10));
    &&& s.forward_agent == most_specific(h.forward_agent, d.forward_agent, false)
    &&& s.forward_open == most_specific(h.forward_open, d.forward_open, true)
    &&& s.no_escape == most_specific(h.no_escape, d.no_escape, false)
    &&& s.oauth_redirect == most_specific(h.oauth_redirect, d.oauth_redirect, true)
    &&& s.oauth_timeout == most_specific(h.oauth_timeout, d.oauth_timeout, 180)
    &&& s.heartbeat_interval == interval
    &&& s.heartbeat_timeout == timeout_of(
        interval,
        most_specific(h.heartbeat_timeout, d.heartbeat_timeout, 60),
    )
    &&& s.ring_buffer_size == most_specific(h.ring_buffer_size, d.ring_buffer_size, 1048576)
    &&& s.oauth_tunnel_idle_timeout == most_specific(
        h.oauth_tunnel_idle_timeout,
        d.oauth_tunnel_idle_timeout,
        5,
    )
    &&& s.client_name@ == most_specific(set_client_name(h, d), None, own)
    &&& s.linger == linger_of(h, d)
    &&& s.linger_unnamed == linger_unnamed_of(h, d)
}

/// Whether `s` is what the sections come to on this machine, which has some
/// usable client name.
pub open spec fn merged_here(s: SessionSettings, h: Defaults, d: Defaults) -> bool {
    exists|own: Seq<char>| naming::client_name_ok(own) && #[trigger] merged(s, h, d, own)
}

/// The linger that a setting gives, with a warning where it is malformed.
fn resolve_linger(key: &str, raw: &Option<String>, warnings: &mut Vec<String>) -> (r: Option<u64>)
    ensures
        r == good_linger(text::owned_view(*raw)),
        text::views(final(warnings)@) == text::views(old(warnings)@) + linger_warning(
            key@,
            text::owned_view(*raw),
        ),
{
    let ghost w = text::views(warnings@);
    assert(w + Seq::<Seq<char>>::empty() == w);
    match raw {
        None => None,
        Some(s) => match parse_linger(s.as_str()) {
            Ok(n) => Some(n),
            Err(e) => {
                let shown = outside::debug_string(s.as_str());
                let end = cat2(": ", e.as_str());
                let line = cat5("ignoring ", key, " = ", shown.as_str(), end.as_str());
                proof {
                    text::lemma_views_push(warnings@, line);
                    assert(w.push(line@) == w + seq![line@]);
                }
                warnings.push(line);
                None
            },
        },
    }
}

/// Whether some of a section's other names is `alias`.
pub open spec fn claims(s: Defaults, alias: Seq<char>) -> bool {
    match s.aliases {
        Some(v) => text::views(v@).contains(alias),
        None => false,
    }
}

/// The hosts that claim a name, in the order of their sections.
pub open spec fn owners(hosts: Seq<(String, Defaults)>, alias: Seq<char>) -> Seq<Seq<char>>
    decreases hosts.len(),
{
    if hosts.len() == 0 {
        seq![]
    } else {
        let rest = owners(hosts.drop_last(), alias);
        if claims(hosts.last().1, alias) {
            rest.push(hosts.last().0@)
        } else {
            rest
        }
    }
}

/// Whether a typed name stands for itself: `local`, or a host with a section.
pub open spec fn is_real_name(c: ConfigFile, typed: Seq<char>) -> bool {
    typed == "local"@ || section(c.host@, typed) is Some
}

/// The host that a typed name stands for. Real names stand for themselves, a
/// name that one host claims stands for it, and any other for itself.
pub open spec fn canonical(c: ConfigFile, typed: Seq<char>) -> Seq<char> {
    if is_real_name(c, typed) {
        typed
    } else {
        let o = owners(c.host@, typed);
        if o.len() == 1 {
            o[0]
        } else {
            typed
        }
    }
}

/// What is said about a name that several hosts claim.
pub open spec fn ambiguity(c: ConfigFile, typed: Seq<char>) -> Option<Seq<char>> {
    let o = owners(c.host@, typed);
    if !is_real_name(c, typed) && o.len() > 1 {
        Some(
            "warning: alias '"@ + typed + "' is claimed by multiple hosts ("@ + text::join(
                order::sorted(o),
                ", "@,
            ) + "); using '"@ + typed + "' literally"@,
        )
    } else {
        None
    }
}

/// The ssh options of a tunnel part.
pub open spec fn options_of(t: Option<TunnelDefaults>) -> Seq<Seq<char>> {
    match t {
        Some(t) => match t.ssh_options {
            Some(v) => text::views(v@),
            None => seq![],
        },
        None => seq![],
    }
}

pub open spec fn tunnel_part(t: Option<TunnelDefaults>) -> TunnelDefaults {
    match t {
        Some(t) => t,
        None => blank_tunnel(),
    }
}

/// Whether `t` is what the config file says of the tunnel to a host, for a
/// machine whose own client name is `own`. The host's ssh options come first,
/// and none is left out.
pub open spec fn tunnel_merged(
    t: TunnelSettings,
    c: ConfigFile,
    host: Seq<char>,
    own: Seq<char>,
) -> bool {
    let h = overrides(c, Some(host));
    let d = c.defaults;
    let ht = tunnel_part(h.tunnel);
    let dt = tunnel_part(d.tunnel);
    &&& merged(t.session, h, d, own)
    &&& text::views(t.ssh_options@) == options_of(h.tunnel) + options_of(d.tunnel)
    &&& t.no_server_start == most_specific(ht.no_server_start, dt.no_server_start, false)
    &&& t.isolate_control_path == most_specific(
        ht.isolate_control_path,
        dt.isolate_control_path,
        true,
    )
    &&& t.connect_timeout == most_specific(ht.connect_timeout, dt.connect_timeout, 30)
}

/// Whether `t` is what the config file says of the tunnel to a host on this
/// machine, which has some usable client name.
pub open spec fn tunnel_merged_here(t: TunnelSettings, c: ConfigFile, host: Seq<char>) -> bool {
    exists|own: Seq<char>|
        naming::client_name_ok(own) && #[trigger] tunnel_merged(t, c, host, own)
}

/// Whether two settings agree in all but the client name.
pub open spec fn same_but_client(a: SessionSettings, b: SessionSettings) -> bool {
    a == (SessionSettings { client_name: a.client_name, ..b })
}

/// Whether two settings are the same, field by field.
pub open spec fn same_settings(a: SessionSettings, b: SessionSettings) -> bool {
    same_but_client(a, b) && a.client_name@ == b.client_name@
}

/// Whether each host has one section.
pub open spec fn distinct_hosts(hosts: Seq<(String, Defaults)>) -> bool {
    forall|i: int, j: int|
        0 <= i < j < hosts.len() ==> (#[trigger] hosts[i]).0@ != (#[trigger] hosts[j]).0@
}

proof fn lemma_section_from(hosts: Seq<(String, Defaults)>, name: Seq<char>, k: int)
    requires
        0 <= k <= hosts.len(),
        forall|i: int| 0 <= i < k ==> (#[trigger] hosts[i]).0@ != name,
    ensures
        section(hosts, name) == section(hosts.skip(k), name),
    decreases k,
{
    if k == 0 {
        assert(hosts.skip(0) == hosts);
    } else {
        lemma_section_from(hosts, name, k - 1);
        let t = hosts.skip(k - 1);
        assert(t[0] == hosts[k - 1]);
        assert(t.skip(1) == hosts.skip(k));
    }
}

/// A host that claims a name has a section.
proof fn lemma_owners_have_sections(hosts: Seq<(String, Defaults)>, alias: Seq<char>, k: int)
    requires
        0 <= k < owners(hosts, alias).len(),
    ensures
        exists|i: int| 0 <= i < hosts.len() && (#[trigger] hosts[i]).0@ == owners(hosts, alias)[k],
    decreases hosts.len(),
{
    let init = hosts.drop_last();
    let rest = owners(init, alias);
    if k < rest.len() {
        lemma_owners_have_sections(init, alias, k);
        let i = choose|i: int| 0 <= i < init.len() && (#[trigger] init[i]).0@ == rest[k];
        assert(hosts[i].0@ == owners(hosts, alias)[k]);
    } else {
        assert(hosts[hosts.len() - 1].0@ == owners(hosts, alias)[k]);
    }
}

proof fn lemma_section_exists(hosts: Seq<(String, Defaults)>, name: Seq<char>, i: int)
    requires
        0 <= i < hosts.len(),
        hosts[i].0@ == name,
    ensures
        section(hosts, name) is Some,
    decreases hosts.len(),
{
    if hosts[0].0@ != name {
        assert(hosts.skip(1)[i - 1] == hosts[i]);
        lemma_section_exists(hosts.skip(1), name, i - 1);
    }
}

/// What a name stands for stands for itself.
pub proof fn law_canonical_is_final(c: ConfigFile, typed: Seq<char>)
    ensures
        canonical(c, canonical(c, typed)) == canonical(c, typed),
{
    let o = owners(c.host@, typed);
    if !is_real_name(c, typed) && o.len() == 1 {
        lemma_owners_have_sections(c.host@, typed, 0);
        let i = choose|i: int| 0 <= i < c.host@.len() && (#[trigger] c.host@[i]).0@ == o[0];
        lemma_section_exists(c.host@, o[0], i);
    }
}

/// A host that says how long its named sessions linger shields its unnamed
/// ones from what the defaults say.
pub proof fn law_host_linger_shields(h: Defaults, d: Defaults)
    requires
        good_linger(text::owned_view(h.linger)) is Some,
        h.linger_unnamed is None,
    ensures
        linger_unnamed_of(h, d) == linger_of(h, d),
        linger_of(h, d) == good_linger(text::owned_view(h.linger))->0,
{
}

/// What a host's section sets is not touched by the defaults: whatever they
/// say, the settings come out the same.
pub proof fn law_host_comes_before_defaults(
    s: SessionSettings,
    t: SessionSettings,
    h: Defaults,
    d: Defaults,
    e: Defaults,
    own: Seq<char>,
)
    requires
        merged(s, h, d, own),
        merged(t, h, e, own),
    ensures
        h.forward_agent is Some ==> s.forward_agent == t.forward_agent,
        h.forward_open is Some ==> s.forward_open == t.forward_open,
        h.no_escape is Some ==> s.no_escape == t.no_escape,
        h.oauth_redirect is Some ==> s.oauth_redirect == t.oauth_redirect,
        h.oauth_timeout is Some ==> s.oauth_timeout == t.oauth_timeout,
        h.heartbeat_interval is Some ==> s.heartbeat_interval == t.heartbeat_interval,
        h.heartbeat_interval is Some && h.heartbeat_timeout is Some ==> s.heartbeat_timeout
            == t.heartbeat_timeout,
        h.ring_buffer_size is Some ==> s.ring_buffer_size == t.ring_buffer_size,
        h.oauth_tunnel_idle_timeout is Some ==> s.oauth_tunnel_idle_timeout
            == t.oauth_tunnel_idle_timeout,
        h.client_name is Some ==> s.client_name@ == t.client_name@,
        good_linger(text::owned_view(h.linger)) is Some ==> s.linger == t.linger,
        good_linger(text::owned_view(h.linger_unnamed)) is Some ==> s.linger_unnamed
            == t.linger_unnamed,
{
}

/// For a host whose section sets nothing, the defaults hold as if they stood in
/// its section.
pub proof fn law_defaults_stand_in(
    s: SessionSettings,
    t: SessionSettings,
    d: Defaults,
    own: Seq<char>,
)
    requires
        merged(s, blank(), d, own),
        merged(t, d, blank(), own),
    ensures
        same_settings(s, t),
{
}

/// A tunnel to a host has the settings of a session on that host.
pub proof fn law_tunnel_has_the_session_settings(
    t: TunnelSettings,
    s: SessionSettings,
    c: ConfigFile,
    host: Seq<char>,
    own: Seq<char>,
)
    requires
        tunnel_merged(t, c, host, own),
        merged(s, overrides(c, Some(host)), c.defaults, own),
    ensures
        same_settings(t.session, s),
{
}

/// A tunnel and a session that were resolved on this machine, each on its own,
/// have the same settings too. Only a client name that no section sets was
/// asked for twice.
pub proof fn law_tunnel_has_the_session_settings_here(
    t: TunnelSettings,
    s: SessionSettings,
    c: ConfigFile,
    host: Seq<char>,
)
    requires
        tunnel_merged_here(t, c, host),
        merged_here(s, overrides(c, Some(host)), c.defaults),
    ensures
        same_but_client(t.session, s),
        set_client_name(overrides(c, Some(host)), c.defaults) is Some ==> same_settings(
            t.session,
            s,
        ),
{
}

/// A malformed `linger` setting counts as none at all.
pub proof fn law_malformed_linger_is_skipped(h: Defaults, d: Defaults)
    requires
        h.linger is Some,
        linger_secs(h.linger->0@) is Err,
    ensures
        linger_of(h, d) == linger_of(Defaults { linger: None, ..h }, d),
        linger_unnamed_of(h, d) == linger_unnamed_of(Defaults { linger: None, ..h }, d),
{
}

/// Without any settings a session has the documented ones: no agent forwarding,
/// but the browser and its redirects, escapes, a probe every ten seconds and a
/// minute's patience, a megabyte of output to replay, and no lingering.
pub proof fn law_documented_settings_hold(s: SessionSettings, own: Seq<char>)
    requires
        merged(s, blank(), blank(), own),
    ensures
        !s.forward_agent && s.forward_open && !s.no_escape && s.oauth_redirect,
        s.oauth_timeout == 180 && s.oauth_tunnel_idle_timeout == 5,
        s.heartbeat_interval == 10 && s.heartbeat_timeout == 60,
        s.ring_buffer_size == 1024 * 1024,
        s.linger == 0 && s.linger_unnamed == 0,
        s.client_name@ == own,
{
}

/// What is set is used: the value of the host's section, or failing that the
/// one of the defaults.
pub proof fn law_set_values_are_used(
    s: SessionSettings,
    h: Defaults,
    d: Defaults,
    own: Seq<char>,
    b: bool,
    n: u64,
)
    requires
        merged(s, h, d, own),
    ensures
        or(h.forward_agent, d.forward_agent) == Some(b) ==> s.forward_agent == b,
        or(h.forward_open, d.forward_open) == Some(b) ==> s.forward_open == b,
        or(h.no_escape, d.no_escape) == Some(b) ==> s.no_escape == b,
        or(h.oauth_redirect, d.oauth_redirect) == Some(b) ==> s.oauth_redirect == b,
        or(h.oauth_timeout, d.oauth_timeout) == Some(n) ==> s.oauth_timeout == n,
        or(h.ring_buffer_size, d.ring_buffer_size) == Some(n) ==> s.ring_buffer_size == n,
        or(h.oauth_tunnel_idle_timeout, d.oauth_tunnel_idle_timeout) == Some(n)
            ==> s.oauth_tunnel_idle_timeout == n,
        or(h.heartbeat_interval, d.heartbeat_interval) == Some(n) && 1 <= n <= 30
            ==> s.heartbeat_interval == n,
        s.heartbeat_interval >= 1 && s.heartbeat_timeout > s.heartbeat_interval,
        good_linger(text::owned_view(h.linger)) == Some(n) ==> s.linger == n,
        h.linger is None && good_linger(text::owned_view(d.linger)) == Some(n) ==> s.linger == n,
{
}

/// The same holds of what a tunnel has besides: no control path is shared and
/// ssh has half a minute, unless something else is set, and the host's ssh
/// options come before those of the defaults.
pub proof fn law_tunnels_have_the_documented_settings(
    t: TunnelSettings,
    c: ConfigFile,
    host: Seq<char>,
    own: Seq<char>,
    b: bool,
    n: u64,
)
    requires
        tunnel_merged(t, c, host, own),
    ensures
        ({
            let h = tunnel_part(overrides(c, Some(host)).tunnel);
            let d = tunnel_part(c.defaults.tunnel);
            &&& or(h.connect_timeout, d.connect_timeout) == Some(n) ==> t.connect_timeout == n
            &&& or(h.connect_timeout, d.connect_timeout) is None ==> t.connect_timeout == 30
            &&& or(h.isolate_control_path, d.isolate_control_path) == Some(b)
                ==> t.isolate_control_path == b
            &&& or(h.isolate_control_path, d.isolate_control_path) is None
                ==> t.isolate_control_path
            &&& or(h.no_server_start, d.no_server_start) == Some(b) ==> t.no_server_start == b
            &&& or(h.no_server_start, d.no_server_start) is None ==> !t.no_server_start
        }),
{
}

proof fn lemma_sole_owner(hosts: Seq<(String, Defaults)>, alias: Seq<char>, i: int)
    requires
        0 <= i < hosts.len(),
        claims(hosts[i].1, alias),
    ensures
        (forall|j: int| 0 <= j < hosts.len() && j != i ==> !claims((#[trigger] hosts[j]).1, alias))
            ==> owners(hosts, alias) == seq![hosts[i].0@],
        (exists|j: int| 0 <= j < hosts.len() && j != i && claims((#[trigger] hosts[j]).1, alias))
            ==> owners(hosts, alias).len() >= 2,
        owners(hosts, alias).len() >= 1,
    decreases hosts.len(),
{
    let init = hosts.drop_last();
    assert(hosts[hosts.len() - 1] == hosts.last());
    if i < init.len() {
        assert(init[i] == hosts[i]);
        lemma_sole_owner(init, alias, i);
        if exists|j: int| 0 <= j < hosts.len() && j != i && claims((#[trigger] hosts[j]).1, alias) {
            let j = choose|j: int|
                0 <= j < hosts.len() && j != i && claims((#[trigger] hosts[j]).1, alias);
            if j < init.len() {
                assert(init[j] == hosts[j]);
            }
        } else {
            assert forall|j: int| 0 <= j < init.len() && j != i implies !claims(
                (#[trigger] init[j]).1,
                alias,
            ) by {
                assert(init[j] == hosts[j]);
            }
        }
    } else if exists|j: int|
        0 <= j < hosts.len() && j != i && claims((#[trigger] hosts[j]).1, alias) {
        let j = choose|j: int|
            0 <= j < hosts.len() && j != i && claims((#[trigger] hosts[j]).1, alias);
        assert(init[j] == hosts[j]);
        lemma_sole_owner(init, alias, j);
    } else {
        assert forall|j: int| 0 <= j < init.len() implies !claims((#[trigger] init[j]).1, alias) by {
            assert(init[j] == hosts[j]);
        }
        lemma_no_owner(init, alias);
        assert(owners(hosts, alias) =~= seq![hosts[i].0@]);
    }
}

proof fn lemma_no_owner(hosts: Seq<(String, Defaults)>, alias: Seq<char>)
    requires
        forall|j: int| 0 <= j < hosts.len() ==> !claims((#[trigger] hosts[j]).1, alias),
    ensures
        owners(hosts, alias).len() == 0,
    decreases hosts.len(),
{
    if hosts.len() > 0 {
        assert(hosts[hosts.len() - 1] == hosts.last());
        assert forall|j: int| 0 <= j < hosts.drop_last().len() implies !claims(
            (#[trigger] hosts.drop_last()[j]).1,
            alias,
        ) by {
            assert(hosts.drop_last()[j] == hosts[j]);
        }
        lemma_no_owner(hosts.drop_last(), alias);
    }
}

/// A name that a single host claims leads to that host; one that several claim
/// is taken as it is, with a warning; and no claim takes a real name away.
pub proof fn law_aliases_lead_to_their_host(c: ConfigFile, typed: Seq<char>, i: int)
    requires
        0 <= i < c.host@.len(),
        claims(c.host@[i].1, typed),
    ensures
        is_real_name(c, typed) ==> canonical(c, typed) == typed && ambiguity(c, typed) is None,
        !is_real_name(c, typed) && (forall|j: int|
            0 <= j < c.host@.len() && j != i ==> !claims((#[trigger] c.host@[j]).1, typed))
            ==> canonical(c, typed) == c.host@[i].0@ && ambiguity(c, typed) is None,
        !is_real_name(c, typed) && (exists|j: int|
            0 <= j < c.host@.len() && j != i && claims((#[trigger] c.host@[j]).1, typed))
            ==> canonical(c, typed) == typed && ambiguity(c, typed) is Some,
{
    lemma_sole_owner(c.host@, typed, i);
}

/// A name that nobody claims stands for itself.
pub proof fn law_other_names_stand_for_themselves(c: ConfigFile, typed: Seq<char>)
    requires
        forall|j: int| 0 <= j < c.host@.len() ==> !claims((#[trigger] c.host@[j]).1, typed),
    ensures
        canonical(c, typed) == typed,
        ambiguity(c, typed) is None,
{
    lemma_no_owner(c.host@, typed);
}

/// What comes of a file of settings: a missing, unreadable or malformed one
/// counts as empty, and the last two are worth a warning.
pub open spec fn loaded(
    r: (ConfigFile, Option<String>),
    path: Seq<char>,
    file: ConfigRead,
) -> bool {
    match file {
        ConfigRead::Missing => r.0.defaults == blank() && r.0.host@.len() == 0 && r.1 is None,
        ConfigRead::Unreadable(e) => r.0.defaults == blank() && r.0.host@.len() == 0 && r.1 is Some
            && r.1->0@ == "cannot read config "@ + path + ": "@ + e@,
        ConfigRead::Malformed(e) => r.0.defaults == blank() && r.0.host@.len() == 0 && r.1 is Some
            && r.1->0@ == "malformed config at "@ + path + ": "@ + e@,
        ConfigRead::Parsed(c) => r.0 == c && r.1 is None,
    }
}

impl ConfigFile {
    /// Take in the file of this user's settings. A file that is missing,
    /// unreadable or malformed counts as empty; the last two are worth a
    /// warning.
    pub fn load(file: ConfigRead) -> (r: (ConfigFile, Option<String>))
        ensures
            exists|path: Seq<char>| #[trigger] loaded(r, path, file),
    {
        let path = config_path();
        let r = ConfigFile::load_from(path.as_str(), file);
        assert(loaded(r, path@, file));
        r
    }

    /// The config that is in force after the file was read, and what to say
    /// where it had to be left aside.
    pub fn load_from(path: &str, file: ConfigRead) -> (r: (ConfigFile, Option<String>))
        ensures
            loaded(r, path@, file),
    {
        match file {
            ConfigRead::Missing => (ConfigFile::default(), None),
            ConfigRead::Unreadable(e) => (
                ConfigFile::default(),
                Some(cat4("cannot read config ", path, ": ", e.as_str())),
            ),
            ConfigRead::Malformed(e) => (
                ConfigFile::default(),
                Some(cat4("malformed config at ", path, ": ", e.as_str())),
            ),
            ConfigRead::Parsed(c) => (c, None),
        }
    }

    /// Give a host its section, in place of the one it had.
    pub fn set_host(&mut self, name: &str, config: HostConfig)
        requires
            distinct_hosts(old(self).host@),
        ensures
            distinct_hosts(final(self).host@),
            final(self).defaults == old(self).defaults,
            section(final(self).host@, name@) == Some(config),
            forall|other: Seq<char>|
                other != name@ ==> section(final(self).host@, other) == section(
                    old(self).host@,
                    other,
                ),
    {
        let ghost pre = self.host@;
        let mut i: usize = 0;
        while i < self.host.len() && !same(self.host[i].0.as_str(), name)
            invariant
                i <= self.host@.len(),
                self.host@ == pre,
                forall|k: int| 0 <= k < i ==> (#[trigger] pre[k]).0@ != name@,
                self.defaults == old(self).defaults,
            decreases self.host@.len() - i,
        {
            i = i + 1;
        }
        if i < self.host.len() {
            self.host[i] = (copy(name), config);
        } else {
            self.host.push((copy(name), config));
        }
        proof {
            let now = self.host@;
            assert forall|a: int, b: int| 0 <= a < b < now.len() implies (#[trigger] now[a]).0@ != (
            #[trigger] now[b]).0@ by {
                if a != i && b != i {
                    assert(pre[a].0@ != pre[b].0@);
                } else if a == i {
                    assert(pre[i as int].0@ != pre[b].0@);
                } else if i < pre.len() {
                    assert(pre[a].0@ != name@);
                }
            }
            lemma_section_from(now, name@, i as int);
            assert(now.skip(i as int)[0] == now[i as int]);
            assert forall|other: Seq<char>| other != name@ implies section(now, other) == section(
                pre,
                other,
            ) by {
                lemma_section_changed(pre, now, other, i as int, name@);
            }
        }
    }

    fn lookup(&self, name: &str) -> (r: Option<&HostConfig>)
        ensures
            match r {
                Some(h) => section(self.host@, name@) == Some(*h),
                None => section(self.host@, name@) is None,
            },
    {
        let mut i: usize = 0;
        assert(self.host@.skip(0) == self.host@);
        while i < self.host.len()
            invariant
                i <= self.host@.len(),
                section(self.host@, name@) == section(self.host@.skip(i as int), name@),
            decreases self.host@.len() - i,
        {
            assert(self.host@.skip(i as int)[0] == self.host@[i as int]);
            if same(self.host[i].0.as_str(), name) {
                return Some(&self.host[i].1);
            }
            assert(self.host@.skip(i as int).skip(1) == self.host@.skip(i + 1));
            i = i + 1;
        }
        None
    }

    /// The settings of a session on a host, or of any session where no host is
    /// given. A client name that no section sets is this machine's own.
    pub fn resolve_session(&self, host: Option<&str>) -> (r: SessionSettings)
        ensures
            merged_here(r, overrides(*self, text::str_view(host)), self.defaults),
    {
        let own = default_client_name();
        let (s, _) = self.resolve_session_for(host, own.as_str());
        s
    }

    /// What there is to say about the settings for a host.
    pub fn session_warnings(&self, host: Option<&str>) -> (r: Vec<String>)
        ensures
            text::views(r@) == settings_warnings(
                overrides(*self, text::str_view(host)),
                self.defaults,
            ),
    {
        let (_, w) = self.resolve_session_for(host, "unknown");
        w
    }

    /// The settings of a session on a host, for a machine with the given
    /// client name, and what there is to say about them.
    pub fn resolve_session_for(&self, host: Option<&str>, own: &str) -> (r: (
        SessionSettings,
        Vec<String>,
    ))
        ensures
            merged(
                r.0,
                overrides(*self, text::str_view(host)),
                self.defaults,
                own@,
            ),
            text::views(r.1@) == settings_warnings(
                overrides(*self, text::str_view(host)),
                self.defaults,
            ),
            1 <= r.0.heartbeat_interval < r.0.heartbeat_timeout,
            r.0.heartbeat_interval + r.0.heartbeat_timeout <= idle_evict_ceiling(),
    {
        let none = Defaults::default();
        let h: &Defaults = match host {
            Some(name) => match self.lookup(name) {
                Some(s) => s,
                None => &none,
            },
            None => &none,
        };
        let d: &Defaults = &self.defaults;
        let raw_interval: u64 = pick_or(h.heartbeat_interval, d.heartbeat_interval, 10);
        let raw_timeout: u64 = pick_or(h.heartbeat_timeout, d.heartbeat_timeout, 60);
        let beat = clamp_heartbeat(raw_interval, raw_timeout);
        let mut warnings = beat.warnings;
        let h_linger = resolve_linger("linger", &h.linger, &mut warnings);
        let h_unnamed = resolve_linger("linger-unnamed", &h.linger_unnamed, &mut warnings);
        let d_linger = resolve_linger("linger", &d.linger, &mut warnings);
        let d_unnamed = resolve_linger("linger-unnamed", &d.linger_unnamed, &mut warnings);
        let h_either = if h_unnamed.is_some() {
            h_unnamed
        } else {
            h_linger
        };
        let d_either = if d_unnamed.is_some() {
            d_unnamed
        } else {
            d_linger
        };
        let client_name = match &h.client_name {
            Some(n) => sanitize_client_name(copy(n.as_str())),
            None => match &d.client_name {
                Some(n) => sanitize_client_name(copy(n.as_str())),
                None => copy(own),
            },
        };
        let settings = SessionSettings {
            forward_agent: pick(h.forward_agent, d.forward_agent),
            forward_open: pick_or(h.forward_open, d.forward_open, true),
            no_escape: pick(h.no_escape, d.no_escape),
            oauth_redirect: pick_or(h.oauth_redirect, d.oauth_redirect, true),
            oauth_timeout: pick_or(h.oauth_timeout, d.oauth_timeout, 180),
            heartbeat_interval: beat.interval,
            heartbeat_timeout: beat.timeout,
            ring_buffer_size: pick_or(h.ring_buffer_size, d.ring_buffer_size, 1048576),
            oauth_tunnel_idle_timeout: pick_or(
                h.oauth_tunnel_idle_timeout,
                d.oauth_tunnel_idle_timeout,
                5,
            ),
            client_name,
            linger: pick_or(h_linger, d_linger, 0),
            linger_unnamed: pick_or(h_either, d_either, 0),
        };
        (settings, warnings)
    }

    /// The hosts that claim a name as another of theirs.
    fn owners_of(&self, alias: &str) -> (r: Vec<String>)
        ensures
            text::views(r@) == owners(self.host@, alias@),
    {
        let mut r: Vec<String> = Vec::new();
        let mut i: usize = 0;
        assert(self.host@.take(0) == Seq::<(String, Defaults)>::empty());
        assert(text::views(r@) == Seq::<Seq<char>>::empty());
        while i < self.host.len()
            invariant
                i <= self.host@.len(),
                text::views(r@) == owners(self.host@.take(i as int), alias@),
            decreases self.host@.len() - i,
        {
            let ghost head = self.host@.take(i + 1);
            assert(head.drop_last() == self.host@.take(i as int));
            assert(head.last() == self.host@[i as int]);
            let claimed = match &self.host[i].1.aliases {
                Some(v) => holds(v, alias),
                None => false,
            };
            if claimed {
                let name = copy(self.host[i].0.as_str());
                proof {
                    text::lemma_views_push(r@, name);
                }
                r.push(name);
            }
            i = i + 1;
        }
        assert(self.host@.take(i as int) == self.host@);
        r
    }

    /// The host that a typed name stands for.
    pub fn canonical_host(&self, typed: &str) -> (r: String)
        ensures
            r@ == canonical(*self, typed@),
    {
        if same(typed, "local") || self.lookup(typed).is_some() {
            return copy(typed);
        }
        let o = self.owners_of(typed);
        assert(text::views(o@).len() == o@.len());
        if o.len() == 1 {
            assert(text::views(o@)[0] == o@[0]@);
            copy(o[0].as_str())
        } else {
            copy(typed)
        }
    }

    /// The host that a typed name stands for, where nothing is to be said
    /// about a name that several hosts claim.
    pub fn canonical_host_quiet(&self, typed: &str) -> (r: String)
        ensures
            r@ == canonical(*self, typed@),
    {
        self.canonical_host(typed)
    }

    /// What there is to say about a name that several hosts claim.
    pub fn canonical_host_warning(&self, typed: &str) -> (r: Option<String>)
        ensures
            text::owned_view(r) == ambiguity(*self, typed@),
    {
        if same(typed, "local") || self.lookup(typed).is_some() {
            return None;
        }
        let o = self.owners_of(typed);
        assert(text::views(o@).len() == o@.len());
        if o.len() <= 1 {
            return None;
        }
        let names = join_texts(&sort_texts(o), ", ");
        Some(
            cat7(
                "warning: alias '",
                typed,
                "' is claimed by multiple hosts (",
                names.as_str(),
                "); using '",
                typed,
                "' literally",
            ),
        )
    }

    /// Where a new tunnel to a host leads: the first of its other names.
    pub fn alias_destination(&self, host: &str) -> (r: Option<String>)
        ensures
            text::owned_view(r) == match section(self.host@, host@) {
                Some(s) => match s.aliases {
                    Some(v) => if v@.len() > 0 {
                        Some(v@[0]@)
                    } else {
                        None
                    },
                    None => None,
                },
                None => None,
            },
    {
        match self.lookup(host) {
            Some(s) => match &s.aliases {
                Some(v) => if v.len() > 0 {
                    Some(copy(v[0].as_str()))
                } else {
                    None
                },
                None => None,
            },
            None => None,
        }
    }

    /// The settings of the tunnel to a host. A client name that no section sets
    /// is this machine's own.
    pub fn resolve_tunnel(&self, host: &str) -> (r: TunnelSettings)
        ensures
            tunnel_merged_here(r, *self, host@),
    {
        let own = default_client_name();
        self.resolve_tunnel_for(host, own.as_str())
    }

    /// The settings of the tunnel to a host, for a machine with the given client
    /// name. The host's own ssh options come first: ssh goes by the first that
    /// it meets.
    pub fn resolve_tunnel_for(&self, host: &str, own: &str) -> (r: TunnelSettings)
        ensures
            tunnel_merged(r, *self, host@, own@),
    {
        let none = TunnelDefaults::default();
        let dt: &TunnelDefaults = match &self.defaults.tunnel {
            Some(t) => t,
            None => &none,
        };
        let ht: &TunnelDefaults = match self.lookup(host) {
            Some(s) => match &s.tunnel {
                Some(t) => t,
                None => &none,
            },
            None => &none,
        };
        let mut ssh_options: Vec<String> = Vec::new();
        assert(text::views(ssh_options@) == Seq::<Seq<char>>::empty());
        let ghost h = overrides(*self, Some(host@));
        match &ht.ssh_options {
            Some(v) => append_all(&mut ssh_options, v),
            None => {},
        }
        assert(text::views(ssh_options@) == options_of(h.tunnel));
        match &dt.ssh_options {
            Some(v) => append_all(&mut ssh_options, v),
            None => {},
        }
        assert(text::views(ssh_options@) == options_of(h.tunnel) + options_of(
            self.defaults.tunnel,
        ));
        let (session, _) = self.resolve_session_for(Some(host), own);
        proof {
            assert(text::str_view(Some(host)) == Some(host@));
            if section(self.host@, host@) is None {
                assert(h == blank());
            }
            assert(*ht == tunnel_part(h.tunnel));
            assert(*dt == tunnel_part(self.defaults.tunnel));
        }
        TunnelSettings {
            session,
            ssh_options,
            no_server_start: pick(ht.no_server_start, dt.no_server_start),
            isolate_control_path: pick_or(ht.isolate_control_path, dt.isolate_control_path, true),
            connect_timeout: pick_or(ht.connect_timeout, dt.connect_timeout, 30),
        }
    }
}

proof fn lemma_section_changed(
    a: Seq<(String, Defaults)>,
    b: Seq<(String, Defaults)>,
    other: Seq<char>,
    i: int,
    name: Seq<char>,
)
    requires
        0 <= i <= a.len(),
        other != name,
        b.len() == if i < a.len() {
            a.len()
        } else {
            a.len() + 1
        },
        b[i].0@ == name,
        i < a.len() ==> a[i].0@ == name,
        forall|k: int| 0 <= k < a.len() && k != i ==> #[trigger] a[k] == b[k],
    ensures
        section(a, other) == section(b, other),
    decreases a.len(),
{
    if a.len() == 0 {
        assert(b.skip(1).len() == 0);
    } else if i == 0 {
        assert(a.skip(1) =~= b.skip(1));
    } else {
        assert(a[0] == b[0]);
        assert(b.skip(1)[i - 1] == b[i]);
        if i < a.len() {
            assert(a.skip(1)[i - 1] == a[i]);
        }
        assert forall|k: int| 0 <= k < a.skip(1).len() && k != i - 1 implies #[trigger] a.skip(1)[k]
            == b.skip(1)[k] by {
            assert(a[k + 1] == b[k + 1]);
        }
        lemma_section_changed(a.skip(1), b.skip(1), other, i - 1, name);
    }
}

/// Whether a text stands in a list.
pub fn holds(v: &Vec<String>, s: &str) -> (r: bool)
    ensures
        r == text::views(v@).contains(s@),
{
    let mut i: usize = 0;
    while i < v.len()
        invariant
            i <= v@.len(),
            forall|k: int| 0 <= k < i ==> text::views(v@)[k] != s@,
        decreases v@.len() - i,
    {
        assert(text::views(v@)[i as int] == v@[i as int]@);
        if same(v[i].as_str(), s) {
            return true;
        }
        i = i + 1;
    }
    false
}

} // verus!
