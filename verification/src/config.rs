//! Settings: the config file, the command line and the settings window.

use crate::text;
use vstd::prelude::*;
use vstd::string::*;

verus! {

/// The settings as they are kept in `config.json`.
pub struct ConfigFile {
    pub token: String,
    pub steam_id: String,
    pub port: u16,
    pub poll_ms: u64,
    /// Show placeholder data and ask the platform nothing.
    pub mock: bool,
    /// With placeholder data, let plugins give simulated values for all their variables.
    pub mock_plugins: bool,
    /// Let the match board leave five seconds after it came in.
    pub anim_exit: bool,
}

/// The settings, by their characters.
pub struct ConfigView {
    pub token: Seq<char>,
    pub steam_id: Seq<char>,
    pub port: u16,
    pub poll_ms: u64,
    pub mock: bool,
    pub mock_plugins: bool,
    pub anim_exit: bool,
}

impl View for ConfigFile {
    type V = ConfigView;

    open spec fn view(&self) -> ConfigView {
        ConfigView {
            token: self.token@,
            steam_id: self.steam_id@,
            port: self.port,
            poll_ms: self.poll_ms,
            mock: self.mock,
            mock_plugins: self.mock_plugins,
            anim_exit: self.anim_exit,
        }
    }
}

/// The switch for the exit of the match board is on unless the file says otherwise.
pub fn default_true() -> (r: bool)
    ensures
        r,
{
    true
}

/// The port of the local pages unless the file says otherwise.
pub fn default_port() -> (r: u16)
    ensures
        r == 8910,
{
    8910
}

/// The pause between two polls, in milliseconds, unless the file says otherwise.
pub fn default_poll_ms() -> (r: u64)
    ensures
        r == 3000,
{
    3000
}

/// The settings of a file that says nothing.
pub open spec fn default_config() -> ConfigView {
    ConfigView {
        token: Seq::empty(),
        steam_id: Seq::empty(),
        port: 8910,
        poll_ms: 3000,
        mock: false,
        mock_plugins: false,
        anim_exit: true,
    }
}

impl Default for ConfigFile {
    fn default() -> (r: Self)
        ensures
            r@ == default_config(),
    {
        ConfigFile {
            token: String::new(),
            steam_id: String::new(),
            port: default_port(),
            poll_ms: default_poll_ms(),
            mock: false,
            mock_plugins: false,
            anim_exit: default_true(),
        }
    }
}

impl Clone for ConfigFile {
    fn clone(&self) -> (r: Self)
        ensures
            r == *self,
    {
        ConfigFile {
            token: self.token.clone(),
            steam_id: self.steam_id.clone(),
            port: self.port,
            poll_ms: self.poll_ms,
            mock: self.mock,
            mock_plugins: self.mock_plugins,
            anim_exit: self.anim_exit,
        }
    }
}

/// What the running services go by.
pub struct MonitorConfig {
    pub steam_id: String,
    pub token: String,
    pub poll_ms: u64,
    pub port: u16,
    pub anim_exit: bool,
    pub mock: bool,
    pub mock_plugins: bool,
}

/// What the running services go by, by its characters.
pub struct MonitorConfigView {
    pub steam_id: Seq<char>,
    pub token: Seq<char>,
    pub poll_ms: u64,
    pub port: u16,
    pub anim_exit: bool,
    pub mock: bool,
    pub mock_plugins: bool,
}

impl View for MonitorConfig {
    type V = MonitorConfigView;

    open spec fn view(&self) -> MonitorConfigView {
        MonitorConfigView {
            steam_id: self.steam_id@,
            token: self.token@,
            poll_ms: self.poll_ms,
            port: self.port,
            anim_exit: self.anim_exit,
            mock: self.mock,
            mock_plugins: self.mock_plugins,
        }
    }
}

/// What the services go by under the settings `c`.
pub open spec fn monitor_view(c: ConfigView) -> MonitorConfigView {
    MonitorConfigView {
        steam_id: text::trimmed(c.steam_id),
        token: text::trimmed(c.token),
        poll_ms: c.poll_ms,
        port: c.port,
        anim_exit: c.anim_exit,
        mock: c.mock,
        mock_plugins: c.mock_plugins,
    }
}

/// What the services go by under the given settings.
pub fn monitor_config(file: &ConfigFile) -> (r: MonitorConfig)
    ensures
        r@ == monitor_view(file@),
{
    MonitorConfig {
        steam_id: text::trim(file.steam_id.as_str()),
        token: text::trim(file.token.as_str()),
        poll_ms: file.poll_ms,
        port: file.port,
        anim_exit: file.anim_exit,
        mock: file.mock,
        mock_plugins: file.mock_plugins,
    }
}

/// The command line.
pub struct CliArgs {
    pub steam_id: Option<String>,
    pub token: Option<String>,
    pub port: Option<u16>,
    pub poll_ms: Option<u64>,
    pub help: bool,
}

/// The command line, by its characters.
pub struct CliView {
    pub steam_id: Option<Seq<char>>,
    pub token: Option<Seq<char>>,
    pub port: Option<u16>,
    pub poll_ms: Option<u64>,
    pub help: bool,
}

impl View for CliArgs {
    type V = CliView;

    open spec fn view(&self) -> CliView {
        CliView {
            steam_id: text::opt_text(self.steam_id),
            token: text::opt_text(self.token),
            port: self.port,
            poll_ms: self.poll_ms,
            help: self.help,
        }
    }
}

/// No arguments.
pub open spec fn no_args() -> CliView {
    CliView { steam_id: None, token: None, port: None, poll_ms: None, help: false }
}

/// A port in an argument.
pub open spec fn port_in(s: Seq<char>) -> Option<u16> {
    match text::read_unsigned(s, 0xFFFF) {
        Some(n) => Some(n as u16),
        None => None,
    }
}

/// A duration in an argument.
pub open spec fn millis_in(s: Seq<char>) -> Option<u64> {
    match text::read_unsigned(s, 0xFFFF_FFFF_FFFF_FFFF) {
        Some(n) => Some(n as u64),
        None => None,
    }
}

/// `cli` once the arguments from position `i` on are read: an option that takes a value takes the
/// next argument, unknown arguments are passed over, and the last word on an option counts.
pub open spec fn cli_from(args: Seq<Seq<char>>, i: int, cli: CliView) -> CliView
    decreases args.len() - i,
{
    if i < 0 || i >= args.len() {
        cli
    } else if args[i] == "--steam-id"@ && i + 1 < args.len() {
        cli_from(args, i + 2, CliView { steam_id: Some(text::trimmed(args[i + 1])), ..cli })
    } else if args[i] == "--token"@ && i + 1 < args.len() {
        cli_from(args, i + 2, CliView { token: Some(text::trimmed(args[i + 1])), ..cli })
    } else if (args[i] == "--port"@ || args[i] == "-p"@) && i + 1 < args.len() {
        cli_from(args, i + 2, CliView { port: port_in(args[i + 1]), ..cli })
    } else if args[i] == "--poll-ms"@ && i + 1 < args.len() {
        cli_from(args, i + 2, CliView { poll_ms: millis_in(args[i + 1]), ..cli })
    } else if args[i] == "--help"@ || args[i] == "-h"@ {
        cli_from(args, i + 1, CliView { help: true, ..cli })
    } else {
        cli_from(args, i + 1, cli)
    }
}

/// Reads a port.
pub fn parse_port(s: &str) -> (r: Option<u16>)
    ensures
        r == port_in(s@),
{
    match text::parse_unsigned(s, 0xFFFF) {
        Some(n) => Some(n as u16),
        None => None,
    }
}

/// Reads a number of milliseconds.
pub fn parse_millis(s: &str) -> (r: Option<u64>)
    ensures
        r == millis_in(s@),
{
    text::parse_unsigned(s, 0xFFFF_FFFF_FFFF_FFFF)
}

/// Reads the command line; its first word is the program itself.
pub fn parse_cli(args: &Vec<String>) -> (r: CliArgs)
    ensures
        r@ == cli_from(text::texts(args@), 1, no_args()),
{
    let mut cli = CliArgs { steam_id: None, token: None, port: None, poll_ms: None, help: false };
    let n: usize = args.len();
    let ghost words = text::texts(args@);
    let mut i: usize = 1;
    while i < n
        invariant
            n == args@.len(),
            words == text::texts(args@),
            cli_from(words, 1, no_args()) == cli_from(words, i as int, cli@),
        decreases n - i,
    {
        let word = args[i].as_str();
        assert(words[i as int] == word@);
        let ghost before = cli@;
        let takes = text::same(word, "--steam-id") || text::same(word, "--token") || text::same(
            word,
            "--port",
        ) || text::same(word, "-p") || text::same(word, "--poll-ms");
        if takes {
            proof {
                lemma_option_words();
            }
            if i == n - 1 {
                assert(cli_from(words, i + 1, before) == before);
                return cli;
            }
            let value = args[i + 1].as_str();
            assert(words[i + 1] == value@);
            if text::same(word, "--steam-id") {
                cli.steam_id = Some(text::trim(value));
            } else if text::same(word, "--token") {
                cli.token = Some(text::trim(value));
            } else if text::same(word, "--poll-ms") {
                cli.poll_ms = parse_millis(value);
            } else {
                cli.port = parse_port(value);
            }
            if i == n - 2 {
                assert(cli_from(words, i + 2, cli@) == cli@);
                return cli;
            }
            i += 2;
        } else {
            if text::same(word, "--help") || text::same(word, "-h") {
                cli.help = true;
            }
            i += 1;
        }
    }
    cli
}

proof fn lemma_option_words()
    ensures
        "--poll-ms"@ != "--port"@,
        "--poll-ms"@ != "-p"@,
        "--token"@ != "--steam-id"@,
        "--poll-ms"@ != "--steam-id"@,
        "--poll-ms"@ != "--token"@,
        "--help"@ != "--port"@,
        "--help"@ != "-p"@,
        "--help"@ != "--token"@,
        "--help"@ != "--steam-id"@,
        "--help"@ != "--poll-ms"@,
        "-h"@ != "-p"@,
        "-h"@ != "--port"@,
        "-h"@ != "--token"@,
        "-h"@ != "--steam-id"@,
        "-h"@ != "--poll-ms"@,
{
    reveal_strlit("--help");
    reveal_strlit("-h");
    reveal_strlit("--poll-ms");
    reveal_strlit("--port");
    reveal_strlit("-p");
    reveal_strlit("--token");
    reveal_strlit("--steam-id");
    assert("--poll-ms"@.len() == 9);
    assert("--port"@.len() == 6);
    assert("--token"@.len() == 7);
    assert("--steam-id"@.len() == 10);
    assert("-p"@.len() == 2);
    assert("--help"@.len() == 6);
    assert("-h"@.len() == 2);
    assert("--help"@[2] == 'h');
    assert("--port"@[2] == 'p');
    assert("-h"@[1] == 'h');
    assert("-p"@[1] == 'p');
}

/// The settings `c` with what the command line says in their place, and with a port and a pause
/// that can be used.
pub open spec fn effective(c: ConfigView, cli: CliView) -> ConfigView {
    let port = match cli.port {
        Some(p) => p,
        None => c.port,
    };
    let poll_ms = match cli.poll_ms {
        Some(p) => p,
        None => c.poll_ms,
    };
    ConfigView {
        steam_id: match cli.steam_id {
            Some(s) => s,
            None => c.steam_id,
        },
        token: match cli.token {
            Some(t) => t,
            None => c.token,
        },
        port: if port == 0 {
            8910
        } else {
            port
        },
        poll_ms: if poll_ms < 1000 {
            3000
        } else {
            poll_ms
        },
        ..c
    }
}

/// Puts the command line over the config file and replaces an unusable port or pause.
pub fn apply_cli(file: ConfigFile, cli: CliArgs) -> (r: ConfigFile)
    ensures
        r@ == effective(file@, cli@),
{
    let port: u16 = match cli.port {
        Some(p) => p,
        None => file.port,
    };
    let poll_ms: u64 = match cli.poll_ms {
        Some(p) => p,
        None => file.poll_ms,
    };
    ConfigFile {
        steam_id: match cli.steam_id {
            Some(s) => s,
            None => file.steam_id,
        },
        token: match cli.token {
            Some(t) => t,
            None => file.token,
        },
        port: if port == 0 {
            8910
        } else {
            port
        },
        poll_ms: if poll_ms < 1000 {
            3000
        } else {
            poll_ms
        },
        mock: file.mock,
        mock_plugins: file.mock_plugins,
        anim_exit: file.anim_exit,
    }
}

/// The inputs of the settings window.
pub struct SettingsForm {
    pub token: String,
    pub steam_id: String,
    pub port: String,
    pub poll_ms: String,
}

/// The port that the form asks for.
pub open spec fn form_port(s: Seq<char>) -> u16 {
    match port_in(text::trimmed(s)) {
        Some(p) => p,
        None => 8910,
    }
}

/// The pause that the form asks for, one second at least.
pub open spec fn form_poll_ms(s: Seq<char>) -> u64 {
    let ms = match millis_in(text::trimmed(s)) {
        Some(p) => p,
        None => 3000,
    };
    if ms < 1000 {
        1000
    } else {
        ms
    }
}

/// Why the settings window refuses to save.
#[derive(Clone, Copy, PartialEq, Eq, Structural, Debug)]
pub enum FormError {
    NoSteamId,
    BadPort,
}

/// The settings that saving the form gives.
pub open spec fn saved_config(c: ConfigView, form: SettingsForm) -> ConfigView {
    ConfigView {
        token: text::trimmed(form.token@),
        steam_id: text::trimmed(form.steam_id@),
        port: form_port(form.port@),
        poll_ms: form_poll_ms(form.poll_ms@),
        ..c
    }
}

/// Takes the inputs of the settings window over into the settings. An account id is needed, and a
/// port other than 0.
pub fn apply_form(file: &ConfigFile, form: &SettingsForm) -> (r: Result<ConfigFile, FormError>)
    ensures
        match r {
            Err(FormError::NoSteamId) => text::trimmed(form.steam_id@).len() == 0,
            Err(FormError::BadPort) => text::trimmed(form.steam_id@).len() > 0 && form_port(
                form.port@,
            ) == 0,
            Ok(c) => text::trimmed(form.steam_id@).len() > 0 && form_port(form.port@) != 0 && c@
                == saved_config(file@, *form),
        },
{
    let token = text::trim(form.token.as_str());
    let steam_id = text::trim(form.steam_id.as_str());
    let port: u16 = match parse_port(text::trim(form.port.as_str()).as_str()) {
        Some(p) => p,
        None => 8910,
    };
    let ms: u64 = match parse_millis(text::trim(form.poll_ms.as_str()).as_str()) {
        Some(p) => p,
        None => 3000,
    };
    if steam_id.as_str().is_empty() {
        return Err(FormError::NoSteamId);
    }
    if port == 0 {
        return Err(FormError::BadPort);
    }
    Ok(
        ConfigFile {
            token,
            steam_id,
            port,
            poll_ms: if ms < 1000 {
                1000
            } else {
                ms
            },
            mock: file.mock,
            mock_plugins: file.mock_plugins,
            anim_exit: file.anim_exit,
        },
    )
}

/// What the settings window shows for a refusal.
pub open spec fn form_error_message(e: FormError) -> Seq<char> {
    match e {
        FormError::NoSteamId => "Steam ID 不能为空"@,
        FormError::BadPort => "端口无效"@,
    }
}

/// What the settings window shows for a refusal.
pub fn form_error_text(e: FormError) -> (r: &'static str)
    ensures
        r@ == form_error_message(e),
{
    match e {
        FormError::NoSteamId => "Steam ID 不能为空",
        FormError::BadPort => "端口无效",
    }
}

/// The address of a page of the local server.
pub open spec fn page_address(port: u16, path: Seq<char>) -> Seq<char> {
    "http://127.0.0.1:"@ + text::decimal(port as nat) + path
}

/// The address of a page of the local server.
pub fn page_url(port: u16, path: &str) -> (r: String)
    ensures
        r@ == page_address(port, path@),
{
    let mut out = "http://127.0.0.1:".to_owned();
    out.append(text::decimal_text(port as u64).as_str());
    out.append(path);
    out
}

/// What the settings window shows once the settings are saved.
pub fn saved_message(port: u16) -> (r: String)
    ensures
        r@ == "已保存并应用, 面板地址: "@ + page_address(port, Seq::empty()),
{
    let mut out = "已保存并应用, 面板地址: ".to_owned();
    out.append(page_url(port, "").as_str());
    proof {
        reveal_strlit("");
        assert(""@ == Seq::<char>::empty());
    }
    out
}

/// The form that shows the settings `c`.
pub fn form_of(file: &ConfigFile) -> (r: SettingsForm)
    ensures
        r.token@ == file@.token,
        r.steam_id@ == file@.steam_id,
        r.port@ == text::decimal(file@.port as nat),
        r.poll_ms@ == text::decimal(file@.poll_ms as nat),
{
    SettingsForm {
        token: file.token.clone(),
        steam_id: file.steam_id.clone(),
        port: text::decimal_text(file.port as u64),
        poll_ms: text::decimal_text(file.poll_ms),
    }
}

/// Whatever the file and the command line say, the services get a port other than 0 and poll at
/// most once a second.
pub proof fn law_effective_is_usable(c: ConfigView, cli: CliView)
    ensures
        effective(c, cli).port != 0,
        effective(c, cli).poll_ms >= 1000,
        effective(effective(c, cli), no_args()) == effective(c, cli),
{
}

/// Saving the form that shows usable settings keeps them, up to white space around the texts.
pub proof fn law_form_round_trip(c: ConfigView, form: SettingsForm)
    requires
        form.token@ == c.token,
        form.steam_id@ == c.steam_id,
        form.port@ == text::decimal(c.port as nat),
        form.poll_ms@ == text::decimal(c.poll_ms as nat),
        c.poll_ms >= 1000,
    ensures
        saved_config(c, form) == (ConfigView {
            token: text::trimmed(c.token),
            steam_id: text::trimmed(c.steam_id),
            ..c
        }),
{
    text::law_decimal_round_trip(c.port as nat, 0xFFFF);
    text::law_decimal_round_trip(c.poll_ms as nat, 0xFFFF_FFFF_FFFF_FFFF);
    text::lemma_decimal_untrimmed(c.port as nat);
    text::lemma_decimal_untrimmed(c.poll_ms as nat);
}

/// The services go by the settings as they are, but for white space around the texts.
pub proof fn law_services_follow_the_settings(c: ConfigView)
    ensures
        monitor_view(c).steam_id == text::trimmed(c.steam_id),
        monitor_view(c).token == text::trimmed(c.token),
        monitor_view(c).poll_ms == c.poll_ms,
        monitor_view(c).port == c.port,
        monitor_view(c).anim_exit == c.anim_exit,
        monitor_view(c).mock == c.mock,
        monitor_view(c).mock_plugins == c.mock_plugins,
{
}

/// A command line with all options gives their values, each to its own setting.
pub proof fn law_command_line_is_read(
    program: Seq<char>,
    id: Seq<char>,
    token: Seq<char>,
    port: u16,
    ms: u64,
)
    ensures
        ({
            let args = seq![
                program,
                "--steam-id"@,
                id,
                "--token"@,
                token,
                "--port"@,
                text::decimal(port as nat),
                "--poll-ms"@,
                text::decimal(ms as nat),
            ];
            cli_from(args, 1, no_args()) == (CliView {
                steam_id: Some(text::trimmed(id)),
                token: Some(text::trimmed(token)),
                port: Some(port),
                poll_ms: Some(ms),
                help: false,
            })
        }),
{
    lemma_option_words();
    lemma_port_words();
    reveal_with_fuel(cli_from, 5);
    text::law_decimal_round_trip(port as nat, 0xFFFF);
    text::law_decimal_round_trip(ms as nat, 0xFFFF_FFFF_FFFF_FFFF);
}

proof fn lemma_port_words()
    ensures
        "--port"@ != "--steam-id"@,
        "--port"@ != "--token"@,
        "-p"@ != "--steam-id"@,
        "-p"@ != "--token"@,
{
    reveal_strlit("--port");
    reveal_strlit("-p");
    reveal_strlit("--token");
    reveal_strlit("--steam-id");
    assert("--port"@.len() == 6 && "-p"@.len() == 2 && "--token"@.len() == 7 && "--steam-id"@.len()
        == 10);
}

/// A single option sets its own setting and no other, `-p` is `--port`, `-h` is `--help`, and an
/// argument that is no option sets nothing.
pub proof fn law_single_options(program: Seq<char>, v: Seq<char>, port: u16, word: Seq<char>)
    requires
        word != "--steam-id"@,
        word != "--token"@,
        word != "--port"@,
        word != "-p"@,
        word != "--poll-ms"@,
        word != "--help"@,
        word != "-h"@,
    ensures
        cli_from(seq![program, "--steam-id"@, v], 1, no_args()) == (CliView {
            steam_id: Some(text::trimmed(v)),
            ..no_args()
        }),
        cli_from(seq![program, "--token"@, v], 1, no_args()) == (CliView {
            token: Some(text::trimmed(v)),
            ..no_args()
        }),
        cli_from(seq![program, "-p"@, text::decimal(port as nat)], 1, no_args()) == (CliView {
            port: Some(port),
            ..no_args()
        }),
        cli_from(seq![program, "--help"@], 1, no_args()) == (CliView { help: true, ..no_args() }),
        cli_from(seq![program, "-h"@], 1, no_args()) == (CliView { help: true, ..no_args() }),
        cli_from(seq![program, word], 1, no_args()) == no_args(),
        cli_from(seq![program, word, "--steam-id"@, v], 1, no_args()).steam_id == Some(
            text::trimmed(v),
        ),
        cli_from(seq![program], 1, no_args()) == no_args(),
{
    lemma_option_words();
    lemma_port_words();
    text::law_decimal_round_trip(port as nat, 0xFFFF);
    let c = no_args();
    let a = seq![program, "--steam-id"@, v];
    assert(cli_from(a, 3, CliView { steam_id: Some(text::trimmed(v)), ..c }) == (CliView {
        steam_id: Some(text::trimmed(v)),
        ..c
    }));
    let b = seq![program, "--token"@, v];
    assert(cli_from(b, 3, CliView { token: Some(text::trimmed(v)), ..c }) == (CliView {
        token: Some(text::trimmed(v)),
        ..c
    }));
    let d = text::decimal(port as nat);
    let p = seq![program, "-p"@, d];
    assert(cli_from(p, 3, CliView { port: port_in(d), ..c }) == (CliView { port: Some(port), ..c }));
    let h = seq![program, "--help"@];
    assert(cli_from(h, 2, CliView { help: true, ..c }) == (CliView { help: true, ..c }));
    let k = seq![program, "-h"@];
    assert(cli_from(k, 2, CliView { help: true, ..c }) == (CliView { help: true, ..c }));
    let w = seq![program, word];
    assert(cli_from(w, 2, c) == c);
    let x = seq![program, word, "--steam-id"@, v];
    assert(cli_from(x, 4, CliView { steam_id: Some(text::trimmed(v)), ..c }) == (CliView {
        steam_id: Some(text::trimmed(v)),
        ..c
    }));
    assert(cli_from(x, 2, c) == (CliView { steam_id: Some(text::trimmed(v)), ..c }));
}

/// What the command line says comes before the file, and what it does not say stays as in the
/// file; only an unusable port or pause is replaced.
pub proof fn law_command_line_comes_first(c: ConfigView, cli: CliView)
    ensures
        cli.steam_id matches Some(s) ==> effective(c, cli).steam_id == s,
        cli.steam_id is None ==> effective(c, cli).steam_id == c.steam_id,
        cli.token matches Some(t) ==> effective(c, cli).token == t,
        cli.token is None ==> effective(c, cli).token == c.token,
        cli.port matches Some(p) ==> (p != 0 ==> effective(c, cli).port == p),
        cli.port is None && c.port != 0 ==> effective(c, cli).port == c.port,
        cli.port == Some(0u16) || (cli.port is None && c.port == 0) ==> effective(c, cli).port
            == 8910,
        cli.poll_ms matches Some(n) ==> (n >= 1000 ==> effective(c, cli).poll_ms == n),
        cli.poll_ms is None && c.poll_ms >= 1000 ==> effective(c, cli).poll_ms == c.poll_ms,
        cli.poll_ms matches Some(n) ==> (n < 1000 ==> effective(c, cli).poll_ms == 3000),
        cli.poll_ms is None && c.poll_ms < 1000 ==> effective(c, cli).poll_ms == 3000,
        effective(c, cli).mock == c.mock,
        effective(c, cli).mock_plugins == c.mock_plugins,
        effective(c, cli).anim_exit == c.anim_exit,
{
}

/// Saving takes the texts of the form without white space around them, its port and its pause, a
/// second at least; what does not read as a number counts as the default. The switches stay.
pub proof fn law_form_is_saved(c: ConfigView, form: SettingsForm, port: u16, ms: u64)
    ensures
        saved_config(c, form).token == text::trimmed(form.token@),
        saved_config(c, form).steam_id == text::trimmed(form.steam_id@),
        text::trimmed(form.port@) == text::decimal(port as nat) ==> saved_config(c, form).port
            == port,
        text::trimmed(form.port@).len() == 0 ==> saved_config(c, form).port == 8910,
        text::trimmed(form.poll_ms@) == text::decimal(ms as nat) && ms >= 1000 ==> saved_config(
            c,
            form,
        ).poll_ms == ms,
        text::trimmed(form.poll_ms@) == text::decimal(ms as nat) && ms < 1000 ==> saved_config(
            c,
            form,
        ).poll_ms == 1000,
        text::trimmed(form.poll_ms@).len() == 0 ==> saved_config(c, form).poll_ms == 3000,
        saved_config(c, form).mock == c.mock,
        saved_config(c, form).mock_plugins == c.mock_plugins,
        saved_config(c, form).anim_exit == c.anim_exit,
{
    text::law_decimal_round_trip(port as nat, 0xFFFF);
    text::law_decimal_round_trip(ms as nat, 0xFFFF_FFFF_FFFF_FFFF);
}

/// The pages are on this machine, under the port and the path.
pub proof fn law_pages_are_local(port: u16, path: Seq<char>)
    ensures
        page_address(port, path) == "http://127.0.0.1:"@ + text::decimal(port as nat) + path,
        form_error_message(FormError::NoSteamId) == "Steam ID 不能为空"@,
        form_error_message(FormError::BadPort) == "端口无效"@,
{
}

/// Without a file the platform is asked, every three seconds, and the board leaves after it was
/// shown.
pub proof fn law_defaults()
    ensures
        default_config().port == 8910,
        default_config().poll_ms == 3000,
        !default_config().mock,
        !default_config().mock_plugins,
        default_config().anim_exit,
        default_config().token.len() == 0,
        default_config().steam_id.len() == 0,
{
}

/// Of an option that is given twice the last counts, and one without its value at the end of the
/// command line says nothing.
pub proof fn law_last_option_counts(program: Seq<char>, a: Seq<char>, b: Seq<char>)
    ensures
        cli_from(seq![program, "--token"@, a, "--token"@, b], 1, no_args()) == (CliView {
            token: Some(text::trimmed(b)),
            ..no_args()
        }),
        cli_from(seq![program, "--steam-id"@, a, "--steam-id"@, b], 1, no_args()) == (CliView {
            steam_id: Some(text::trimmed(b)),
            ..no_args()
        }),
        cli_from(seq![program, "--token"@], 1, no_args()) == no_args(),
        cli_from(seq![program, "--steam-id"@], 1, no_args()) == no_args(),
        cli_from(seq![program, "--port"@], 1, no_args()) == no_args(),
        cli_from(seq![program, "--poll-ms"@], 1, no_args()) == no_args(),
        text::read_unsigned(a, 0xFFFF) is None ==> cli_from(
            seq![program, "--port"@, a],
            1,
            no_args(),
        ).port is None,
{
    lemma_option_words();
    lemma_port_words();
    let c = no_args();
    let t = CliView { token: Some(text::trimmed(a)), ..c };
    let u = CliView { token: Some(text::trimmed(b)), ..c };
    let x = seq![program, "--token"@, a, "--token"@, b];
    assert(cli_from(x, 5, u) == u);
    assert(cli_from(x, 3, t) == u);
    let p = CliView { steam_id: Some(text::trimmed(a)), ..c };
    let q = CliView { steam_id: Some(text::trimmed(b)), ..c };
    let y = seq![program, "--steam-id"@, a, "--steam-id"@, b];
    assert(cli_from(y, 5, q) == q);
    assert(cli_from(y, 3, p) == q);
    assert(cli_from(seq![program, "--token"@], 2, c) == c);
    assert(cli_from(seq![program, "--steam-id"@], 2, c) == c);
    assert(cli_from(seq![program, "--port"@], 2, c) == c);
    assert(cli_from(seq![program, "--poll-ms"@], 2, c) == c);
    let z = seq![program, "--port"@, a];
    let r = CliView { port: port_in(a), ..c };
    assert(cli_from(z, 3, r) == r);
}

} // verus!
