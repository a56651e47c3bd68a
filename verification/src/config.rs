use vstd::prelude::*;

verus! {

/// One target application: its package, a display label, whether it is managed, the
/// process-name suffixes that are kept running (push processes), whether the main
/// process may be frozen, and the freeze power (0: renice only; 1: also cpuset;
/// 2: also SIGSTOP).
#[derive(Clone, Debug)]
pub struct AppConf {
    pub package: String,
    pub label: String,
    pub enabled: bool,
    pub keep: Vec<String>,
    pub freeze_main: bool,
    pub power: u8,
}

/// The daemon's configuration.
#[derive(Clone, Debug)]
pub struct Config {
    pub enabled: bool,
    pub interval_secs: u64,
    pub use_sigstop: bool,
    pub use_renice: bool,
    pub use_cpuset: bool,
    pub port: u16,
    /// Seconds after an application leaves the foreground during which it is not
    /// frozen; 0 disables the grace period.
    pub grace_secs: u64,
    pub apps: Vec<AppConf>,
}

/// An application entry as plain values.
pub struct AppConfView {
    pub package: Seq<char>,
    pub label: Seq<char>,
    pub enabled: bool,
    pub keep: Seq<Seq<char>>,
    pub freeze_main: bool,
    pub power: u8,
}

/// A configuration as plain values.
pub struct ConfigView {
    pub enabled: bool,
    pub interval_secs: u64,
    pub use_sigstop: bool,
    pub use_renice: bool,
    pub use_cpuset: bool,
    pub port: u16,
    pub grace_secs: u64,
    pub apps: Seq<AppConfView>,
}

impl View for AppConf {
    type V = AppConfView;

    open spec fn view(&self) -> AppConfView {
        AppConfView {
            package: self.package@,
            label: self.label@,
            enabled: self.enabled,
            keep: self.keep@.map_values(|k: String| k@),
            freeze_main: self.freeze_main,
            power: self.power,
        }
    }
}

impl View for Config {
    type V = ConfigView;

    open spec fn view(&self) -> ConfigView {
        ConfigView {
            enabled: self.enabled,
            interval_secs: self.interval_secs,
            use_sigstop: self.use_sigstop,
            use_renice: self.use_renice,
            use_cpuset: self.use_cpuset,
            port: self.port,
            grace_secs: self.grace_secs,
            apps: self.apps@.map_values(|a: AppConf| a@),
        }
    }
}

/// The longest grace period, in seconds, the daemon accepts.
pub const MAX_GRACE_SECS: u64 = 300;

/// The value a missing boolean setting takes.
pub fn default_true() -> (r: bool)
    ensures
        r,
{
    true
}

/// The loop interval, in seconds, when the setting is missing.
pub fn default_interval() -> (r: u64)
    ensures
        r == 10,
{
    10
}

/// The web UI port when the setting is missing.
pub fn default_port() -> (r: u16)
    ensures
        r == 8765,
{
    8765
}

/// The grace period, in seconds, when the setting is missing.
pub fn default_grace() -> (r: u64)
    ensures
        r == 120,
{
    120
}

/// The freeze power of an application entry when the setting is missing: all three
/// mechanisms.
pub fn default_power() -> (r: u8)
    ensures
        r == 2,
{
    2
}

/// The built-in application list: WeChat, QQ and Douyin, each keeping its push processes.
pub open spec fn default_apps() -> Seq<AppConfView> {
    seq![
        AppConfView {
            package: "com.tencent.mm"@,
            label: "\u{5fae}\u{4fe1}"@,
            enabled: true,
            keep: seq![":push"@],
            freeze_main: true,
            power: 2,
        },
        AppConfView {
            package: "com.tencent.mobileqq"@,
            label: "QQ"@,
            enabled: true,
            keep: seq![":MSF"@, ":msf"@],
            freeze_main: true,
            power: 2,
        },
        AppConfView {
            package: "com.ss.android.ugc.aweme"@,
            label: "\u{6296}\u{97f3}"@,
            enabled: true,
            keep: seq![":pushservice"@, ":push"@, ":pump"@],
            freeze_main: true,
            power: 2,
        },
    ]
}

/// The configuration used when none can be read.
pub open spec fn default_config() -> ConfigView {
    ConfigView {
        enabled: true,
        interval_secs: 10,
        use_sigstop: true,
        use_renice: true,
        use_cpuset: true,
        port: 8765,
        grace_secs: 120,
        apps: default_apps(),
    }
}

fn owned(s: &str) -> (r: String)
    ensures
        r@ == s@,
{
    s.to_owned()
}

fn app_entry(package: &str, label: &str, keep: Vec<String>) -> (r: AppConf)
    ensures
        r@ == (AppConfView {
            package: package@,
            label: label@,
            enabled: true,
            keep: keep@.map_values(|k: String| k@),
            freeze_main: true,
            power: 2,
        }),
{
    AppConf {
        package: owned(package),
        label: owned(label),
        enabled: true,
        keep,
        freeze_main: true,
        power: 2,
    }
}

impl Default for Config {
    fn default() -> (r: Config)
        ensures
            r@ == default_config(),
    {
        let mut keep_mm: Vec<String> = Vec::new();
        keep_mm.push(owned(":push"));
        let mut keep_qq: Vec<String> = Vec::new();
        keep_qq.push(owned(":MSF"));
        keep_qq.push(owned(":msf"));
        let mut keep_dy: Vec<String> = Vec::new();
        keep_dy.push(owned(":pushservice"));
        keep_dy.push(owned(":push"));
        keep_dy.push(owned(":pump"));
        assert(keep_mm@.map_values(|k: String| k@) =~= seq![":push"@]);
        assert(keep_qq@.map_values(|k: String| k@) =~= seq![":MSF"@, ":msf"@]);
        assert(keep_dy@.map_values(|k: String| k@) =~= seq![":pushservice"@, ":push"@, ":pump"@]);
        let mut apps: Vec<AppConf> = Vec::new();
        apps.push(app_entry("com.tencent.mm", "\u{5fae}\u{4fe1}", keep_mm));
        apps.push(app_entry("com.tencent.mobileqq", "QQ", keep_qq));
        apps.push(app_entry("com.ss.android.ugc.aweme", "\u{6296}\u{97f3}", keep_dy));
        let r = Config {
            enabled: true,
            interval_secs: 10,
            grace_secs: 120,
            use_sigstop: true,
            use_renice: true,
            use_cpuset: true,
            port: 8765,
            apps,
        };
        assert(r@.apps =~= default_apps());
        r
    }
}

impl Config {
    /// The configuration that a load gives: the parsed one, or the default when the file
    /// could not be read or parsed.
    pub fn from_loaded(parsed: Option<Config>) -> (r: Config)
        ensures
            match parsed {
                Some(c) => r == c,
                None => r@ == default_config(),
            },
    {
        match parsed {
            Some(c) => c,
            None => Config::default(),
        }
    }

    /// The configuration as the daemon runs it: the port is the one from the command
    /// line (never taken from a stored or submitted configuration), and the grace period
    /// is held to at most `MAX_GRACE_SECS` seconds.
    pub fn effective(self, port: u16) -> (r: Config)
        ensures
            r@ == (ConfigView {
                port,
                grace_secs: if self.grace_secs > MAX_GRACE_SECS {
                    MAX_GRACE_SECS
                } else {
                    self.grace_secs
                },
                ..self@
            }),
    {
        let mut c = self;
        c.port = port;
        if c.grace_secs > MAX_GRACE_SECS {
            c.grace_secs = MAX_GRACE_SECS;
        }
        c
    }

    /// How long the daemon sleeps between cycles, in seconds: the interval, at least one.
    pub fn loop_interval_secs(&self) -> (r: u64)
        ensures
            r == if self.interval_secs >= 1 {
                self.interval_secs
            } else {
                1
            },
    {
        if self.interval_secs >= 1 {
            self.interval_secs
        } else {
            1
        }
    }
}

}
