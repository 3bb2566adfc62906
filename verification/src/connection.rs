//! The way to a connection: a configuration is applied, the account is looked up, an address is
//! got, and after a loss the same is tried again, later and later.

use crate::config::{MonitorConfig, MonitorConfigView};
use crate::form::{FormModel, FormService};
use crate::rank::{RankModel, RankService};
use crate::state::{AppModel, AppState, CardView, MyCard};
use crate::wmpvp::User;
use crate::{monitor, rank, state, text};
use vstd::arithmetic::power2::*;
use vstd::prelude::*;
use vstd::string::*;

verus! {

/// How long to wait after a number of failures, in milliseconds: two seconds, doubled up to five
/// times.
pub open spec fn delay(retry: nat) -> nat {
    2000 * pow2(
        if retry < 5 {
            retry
        } else {
            5
        },
    )
}

/// How long to wait after a number of failures, in milliseconds.
pub fn backoff(retry: u32) -> (r: u64)
    ensures
        r == delay(retry as nat),
{
    proof {
        lemma2_to64();
    }
    match retry {
        0 => 2000,
        1 => 4000,
        2 => 8000,
        3 => 16000,
        4 => 32000,
        _ => 64000,
    }
}

/// The wait is between two and 64 seconds, and never shorter after more failures.
pub proof fn law_delay_grows(a: nat, b: nat)
    requires
        a <= b,
    ensures
        2000 <= delay(a) <= delay(b) <= 64000,
{
    lemma2_to64();
    assert(pow2(0) == 1 && pow2(1) == 2 && pow2(2) == 4 && pow2(3) == 8 && pow2(4) == 16 && pow2(5)
        == 32);
}

/// What of the configuration a connection depends on.
pub struct ConfigKey {
    pub steam_id: String,
    pub token: String,
    pub poll_ms: u64,
}

/// What of the configuration a connection depends on, by characters.
pub struct KeyView {
    pub steam_id: Seq<char>,
    pub token: Seq<char>,
    pub poll_ms: u64,
}

impl View for ConfigKey {
    type V = KeyView;

    open spec fn view(&self) -> KeyView {
        KeyView { steam_id: self.steam_id@, token: self.token@, poll_ms: self.poll_ms }
    }
}

/// What of a configuration a connection depends on; less than a second between two questions
/// counts as a second.
pub open spec fn key_in(cfg: MonitorConfigView) -> KeyView {
    KeyView {
        steam_id: text::trimmed(cfg.steam_id),
        token: text::trimmed(cfg.token),
        poll_ms: if cfg.poll_ms < 1000 {
            1000
        } else {
            cfg.poll_ms
        },
    }
}

/// What of a configuration a connection depends on.
pub fn config_key(cfg: &MonitorConfig) -> (r: ConfigKey)
    ensures
        r@ == key_in(cfg@),
{
    ConfigKey {
        steam_id: text::trim(cfg.steam_id.as_str()),
        token: text::trim(cfg.token.as_str()),
        poll_ms: if cfg.poll_ms < 1000 {
            1000
        } else {
            cfg.poll_ms
        },
    }
}

impl ConfigKey {
    /// Whether two configurations are the same to a connection.
    pub fn same(&self, other: &ConfigKey) -> (r: bool)
        ensures
            r == (self@ == other@),
    {
        text::same(self.steam_id.as_str(), other.steam_id.as_str()) && text::same(
            self.token.as_str(),
            other.token.as_str(),
        ) && self.poll_ms == other.poll_ms
    }
}

/// How far the way to a connection is.
pub struct Run {
    pub retry: u32,
    pub ws_url: Option<String>,
    /// The account that was looked up.
    pub loaded_for: Option<String>,
    pub applied: Option<ConfigKey>,
}

/// How far the way to a connection is, by characters.
pub struct RunView {
    pub retry: u32,
    pub ws_url: Option<Seq<char>>,
    pub loaded_for: Option<Seq<char>>,
    pub applied: Option<KeyView>,
}

impl View for Run {
    type V = RunView;

    open spec fn view(&self) -> RunView {
        RunView {
            retry: self.retry,
            ws_url: text::opt_text(self.ws_url),
            loaded_for: text::opt_text(self.loaded_for),
            applied: match self.applied {
                Some(k) => Some(k@),
                None => None,
            },
        }
    }
}

/// What to do before there is an address.
pub enum Begin {
    /// Wait for a change of the configuration.
    Wait,
    /// Look the account up.
    LookUp(String),
    /// The account is known.
    Go,
}

/// What to do before there is an address, by characters.
pub enum BeginView {
    Wait,
    LookUp(Seq<char>),
    Go,
}

impl View for Begin {
    type V = BeginView;

    open spec fn view(&self) -> BeginView {
        match self {
            Begin::Wait => BeginView::Wait,
            Begin::LookUp(s) => BeginView::LookUp(s@),
            Begin::Go => BeginView::Go,
        }
    }
}

/// The reason on the card while no account is configured.
pub const NO_ACCOUNT: &'static str = "未配置 steamId, 请在配置窗口填写后保存";

/// The configuration differs from the one that was applied.
pub open spec fn is_news(run: RunView, cfg: MonitorConfigView) -> bool {
    run.applied != Some(key_in(cfg))
}

/// The way starts over under a new configuration.
pub open spec fn run_begun(run: RunView, cfg: MonitorConfigView) -> RunView {
    if is_news(run, cfg) {
        RunView { retry: 0, ws_url: None, loaded_for: None, applied: Some(key_in(cfg)) }
    } else {
        run
    }
}

/// What the program knows under a new configuration: nothing but the id.
pub open spec fn app_cleared(run: RunView, cfg: MonitorConfigView, app: AppModel) -> AppModel {
    if is_news(run, cfg) {
        AppModel {
            my: CardView { steam_id: text::trimmed(cfg.steam_id), ..state::blank_card() },
            match_state: None,
            ..app
        }
    } else {
        app
    }
}

/// The first step under a configuration.
pub open spec fn first_step(run: RunView, cfg: MonitorConfigView) -> BeginView {
    let sid = text::trimmed(cfg.steam_id);
    if sid.len() == 0 {
        BeginView::Wait
    } else if run_begun(run, cfg).loaded_for is None {
        BeginView::LookUp(sid)
    } else {
        BeginView::Go
    }
}

/// What the program knows once the first step is chosen.
pub open spec fn app_begun(run: RunView, cfg: MonitorConfigView, app: AppModel) -> AppModel {
    let cleared = app_cleared(run, cfg, app);
    match first_step(run, cfg) {
        BeginView::Wait => AppModel {
            my: monitor::with_status(cleared.my, "idle"@, NO_ACCOUNT@),
            ..cleared
        },
        BeginView::LookUp(_) => AppModel {
            my: monitor::with_status(cleared.my, "resolving"@, Seq::empty()),
            ..cleared
        },
        BeginView::Go => cleared,
    }
}

/// What a lookup of the account gave.
pub enum Lookup {
    Found(User),
    NotFound,
    Failed(String),
}

/// What to do after a lookup.
pub enum Loaded {
    /// The account was found: write the line to the data log, ask for statistics where there is a
    /// token, download the avatar where there is one, then go on.
    Account { steam_id: String, log: String, token: Option<String>, avatar: Option<String> },
    /// The platform does not know the account: go on with the id as it is.
    Unknown,
    /// Start over after the given time.
    RetryAfter(u64),
}

/// How long to wait after a lookup that failed, in milliseconds.
pub const LOOKUP_DELAY_MS: u64 = 5000;

/// The id of a found account: the platform's own where it gives one.
pub open spec fn formal_id(user: User, input: Seq<char>) -> Seq<char> {
    if user.id().len() > 0 {
        user.id()
    } else {
        input
    }
}

/// The nickname of a found account: the short form of its id where it has none.
pub open spec fn account_name(user: User, id: Seq<char>) -> Seq<char> {
    match text::not_blank(text::opt_text(user.nickname)) {
        Some(n) => n,
        None => text::short_form(id),
    }
}

/// A found account can be named.
pub open spec fn account_has_name(user: User, input: Seq<char>) -> bool {
    text::not_blank(text::opt_text(user.nickname)) is Some || text::short_form_exists(
        formal_id(user, input),
    )
}

/// The card once the account was looked up.
pub open spec fn card_loaded(my: CardView, found: Lookup, input: Seq<char>) -> CardView {
    match found {
        Lookup::Found(user) => CardView {
            steam_id: formal_id(user, input),
            nickname: account_name(user, formal_id(user, input)),
            avatar: text::opt_text(user.avatar),
            ..my
        },
        Lookup::NotFound => CardView {
            steam_id: input,
            ..monitor::with_status(my, "error"@, "未在完美平台查到该 steamId"@)
        },
        Lookup::Failed(e) => monitor::with_status(my, "error"@, "查询账号信息失败: "@ + e@),
    }
}

/// The rank cache once the account was looked up.
pub open spec fn ranks_loaded(ranks: RankModel, found: Lookup, input: Seq<char>) -> RankModel {
    match found {
        Lookup::Found(user) => {
            let id = text::trimmed(formal_id(user, input));
            if id.len() > 0 {
                ranks.stored(id, rank::entry_of_user(user))
            } else {
                ranks
            }
        },
        _ => ranks,
    }
}

/// The way once the account was looked up.
pub open spec fn run_loaded(run: RunView, found: Lookup, input: Seq<char>) -> RunView {
    match found {
        Lookup::Found(user) => RunView { loaded_for: Some(formal_id(user, input)), ..run },
        Lookup::NotFound => RunView { loaded_for: Some(input), ..run },
        Lookup::Failed(_) => run,
    }
}

/// What has to be done after a lookup.
pub open spec fn is_right_step(step: Loaded, found: Lookup, cfg: MonitorConfigView) -> bool {
    let input = text::trimmed(cfg.steam_id);
    let token = text::trimmed(cfg.token);
    match found {
        Lookup::Found(user) => {
            let id = formal_id(user, input);
            step matches Loaded::Account { steam_id, log, token: t, avatar } && {
                &&& steam_id@ == id
                &&& log@ == "[ACCOUNT] steam_id="@ + id + " nickname="@ + account_name(user, id)
                &&& text::opt_text(t) == (if token.len() > 0 {
                    Some(token)
                } else {
                    None
                })
                &&& text::opt_text(avatar) == text::not_blank(text::opt_text(user.avatar))
            }
        },
        Lookup::NotFound => step is Unknown,
        Lookup::Failed(_) => step matches Loaded::RetryAfter(ms) && ms == LOOKUP_DELAY_MS,
    }
}

/// What to do once the account is known.
pub enum Ready {
    /// Ask the platform for an address.
    NeedAddress(String),
    Connect { sid: String, url: String },
}

/// What to do after an answer to the question for an address, or after a lost connection.
pub enum Next {
    Connect { sid: String, url: String },
    /// Start over after the given time.
    Sleep(u64),
    /// Start over at once.
    Restart,
}

/// What the program knows once the account is known: its rank is on the card, and `connecting`
/// where there is an address.
pub open spec fn app_ready(app: AppModel, ranks: RankModel, has_address: bool) -> AppModel {
    let my = monitor::with_own_rank(app.my, ranks, app.my.steam_id);
    AppModel {
        my: if has_address {
            monitor::with_status(my, "connecting"@, Seq::empty())
        } else {
            my
        },
        ..app
    }
}

/// The part of the reason for which a connection is given up at once.
pub const CONFIG_CHANGED: &'static str = "配置已变化";

/// The reason on the card while a lost connection is made again.
pub const RECONNECTING: &'static str = "连接断开, 正在重连";

/// The configuration changed while the connection stood.
pub open spec fn is_config_change(error: Option<Seq<char>>) -> bool {
    error matches Some(e) && text::has_text(e, CONFIG_CHANGED@)
}

/// The way after a lost connection: too many failures in a row give the address up.
pub open spec fn run_lost(run: RunView) -> RunView {
    let retry = run.retry.wrapping_add(1);
    if retry > 5 {
        RunView { retry: 0, ws_url: None, ..run }
    } else {
        RunView { retry, ..run }
    }
}

impl Run {
    /// Nothing was applied yet.
    pub fn new() -> (r: Run)
        ensures
            r@ == (RunView { retry: 0, ws_url: None, loaded_for: None, applied: None }),
    {
        Run { retry: 0, ws_url: None, loaded_for: None, applied: None }
    }

    /// Applies a configuration and gives the first step.
    pub fn begin(
        &mut self,
        cfg: &MonitorConfig,
        app: &mut AppState,
        forms: &mut FormService,
    ) -> (r: Begin)
        ensures
            r@ == first_step(old(self)@, cfg@),
            final(self)@ == run_begun(old(self)@, cfg@),
            final(app)@ == app_begun(old(self)@, cfg@, old(app)@),
            final(app).plugins == old(app).plugins,
            is_news(old(self)@, cfg@) ==> final(forms)@ == (FormModel {
                token: text::trimmed(cfg@.token),
                entries: Map::empty(),
                pending: Set::empty(),
            }),
            !is_news(old(self)@, cfg@) ==> final(forms)@ == old(forms)@,
    {
        let key = config_key(cfg);
        let known = match &self.applied {
            Some(k) => k.same(&key),
            None => false,
        };
        let sid = key.steam_id.clone();
        if !known {
            forms.set_token(key.token.clone());
            self.applied = Some(key);
            self.ws_url = None;
            self.retry = 0;
            self.loaded_for = None;
            app.my = MyCard::default();
            app.my.steam_id = sid.clone();
            app.match_state = None;
        }
        if sid.as_str().is_empty() {
            monitor::set_status(&mut app.my, "idle", NO_ACCOUNT);
            return Begin::Wait;
        }
        if self.loaded_for.is_none() {
            let none = String::new();
            monitor::set_status(&mut app.my, "resolving", none.as_str());
            return Begin::LookUp(sid);
        }
        Begin::Go
    }

    /// Takes in what the lookup of the account gave.
    pub fn on_lookup(
        &mut self,
        cfg: &MonitorConfig,
        found: Lookup,
        app: &mut AppState,
        ranks: &mut RankService,
    ) -> (r: Loaded)
        requires
            found matches Lookup::Found(user) ==> account_has_name(
                user,
                text::trimmed(cfg@.steam_id),
            ),
        ensures
            is_right_step(r, found, cfg@),
            final(self)@ == run_loaded(old(self)@, found, text::trimmed(cfg@.steam_id)),
            final(app)@ == (AppModel {
                my: card_loaded(old(app)@.my, found, text::trimmed(cfg@.steam_id)),
                ..old(app)@
            }),
            final(app).plugins == old(app).plugins,
            final(ranks)@ == ranks_loaded(old(ranks)@, found, text::trimmed(cfg@.steam_id)),
    {
        let input = text::trim(cfg.steam_id.as_str());
        match found {
            Lookup::Found(user) => {
                let formal = user.steam_id();
                let id = if formal.as_str().is_empty() {
                    input
                } else {
                    formal
                };
                ranks.seed_user(id.as_str(), &user);
                let nickname = match text::unless_blank(&user.nickname) {
                    Some(n) => n,
                    None => text::short_id(id.as_str()),
                };
                let mut log = "[ACCOUNT] steam_id=".to_owned();
                log.append(id.as_str());
                log.append(" nickname=");
                log.append(nickname.as_str());
                app.my.steam_id = id.clone();
                app.my.nickname = nickname;
                app.my.avatar = user.avatar.clone();
                self.loaded_for = Some(id.clone());
                let token = text::trim(cfg.token.as_str());
                let token = if token.as_str().is_empty() {
                    None
                } else {
                    Some(token)
                };
                Loaded::Account {
                    steam_id: id,
                    log,
                    token,
                    avatar: text::unless_blank(&user.avatar),
                }
            },
            Lookup::NotFound => {
                monitor::set_status(&mut app.my, "error", "未在完美平台查到该 steamId");
                proof {
                    reveal_strlit("未在完美平台查到该 steamId");
                }
                app.my.steam_id = input.clone();
                self.loaded_for = Some(input);
                Loaded::Unknown
            },
            Lookup::Failed(e) => {
                let mut reason = "查询账号信息失败: ".to_owned();
                reason.append(e.as_str());
                monitor::set_status(&mut app.my, "error", reason.as_str());
                Loaded::RetryAfter(LOOKUP_DELAY_MS)
            },
        }
    }

    /// Puts the own rank on the card and connects where there is an address.
    pub fn ready(&mut self, app: &mut AppState, ranks: &RankService) -> (r: Ready)
        ensures
            match r {
                Ready::NeedAddress(sid) => old(self)@.ws_url is None && sid@
                    == old(app)@.my.steam_id,
                Ready::Connect { sid, url } => old(self)@.ws_url == Some(url@) && sid@
                    == old(app)@.my.steam_id,
            },
            *final(self) == *old(self),
            final(app)@ == app_ready(old(app)@, ranks@, old(self)@.ws_url is Some),
            final(app).plugins == old(app).plugins,
    {
        let sid = app.my.steam_id.clone();
        monitor::sync_own_rank(&mut app.my, ranks, sid.as_str());
        match &self.ws_url {
            Some(url) => {
                let none = String::new();
                monitor::set_status(&mut app.my, "connecting", none.as_str());
                Ready::Connect { sid, url: url.clone() }
            },
            None => Ready::NeedAddress(sid),
        }
    }

    /// Takes in the answer to the question for an address.
    pub fn on_address(&mut self, reply: Result<String, String>, app: &mut AppState) -> (r: Next)
        ensures
            match reply {
                Ok(address) => {
                    &&& r matches Next::Connect { sid, url } && sid@ == old(app)@.my.steam_id
                        && url@ == address@
                    &&& final(self)@ == (RunView { ws_url: Some(address@), ..old(self)@ })
                    &&& final(app)@ == (AppModel {
                        my: monitor::with_status(old(app)@.my, "connecting"@, Seq::empty()),
                        ..old(app)@
                    })
                },
                Err(e) => {
                    let retry = old(self)@.retry.wrapping_add(1);
                    &&& r matches Next::Sleep(ms) && ms == delay(retry as nat)
                    &&& final(self)@ == (RunView { retry, ..old(self)@ })
                    &&& final(app)@ == (AppModel {
                        my: monitor::with_status(
                            old(app)@.my,
                            "error"@,
                            "获取 WS 地址失败: "@ + e@,
                        ),
                        ..old(app)@
                    })
                },
            },
            final(app).plugins == old(app).plugins,
    {
        match reply {
            Ok(address) => {
                let none = String::new();
                monitor::set_status(&mut app.my, "connecting", none.as_str());
                self.ws_url = Some(address.clone());
                Next::Connect { sid: app.my.steam_id.clone(), url: address }
            },
            Err(e) => {
                let mut reason = "获取 WS 地址失败: ".to_owned();
                reason.append(e.as_str());
                monitor::set_status(&mut app.my, "error", reason.as_str());
                self.retry = self.retry.wrapping_add(1);
                Next::Sleep(backoff(self.retry))
            },
        }
    }

    /// Takes in the end of a connection. A change of the configuration starts over at once;
    /// anything else waits.
    pub fn on_session_end(&mut self, error: Option<String>, app: &mut AppState) -> (r: Next)
        ensures
            is_config_change(text::opt_text(error)) ==> r is Restart && *final(self) == *old(self)
                && *final(app) == *old(app),
            !is_config_change(text::opt_text(error)) ==> {
                &&& final(self)@ == run_lost(old(self)@)
                &&& r matches Next::Sleep(ms) && ms == delay(final(self)@.retry as nat)
                &&& final(app)@ == (AppModel {
                    my: monitor::with_status(old(app)@.my, "error"@, RECONNECTING@),
                    ..old(app)@
                })
            },
            final(app).plugins == old(app).plugins,
    {
        match &error {
            Some(e) => {
                if text::contains(e.as_str(), CONFIG_CHANGED) {
                    return Next::Restart;
                }
            },
            None => {},
        }
        self.retry = self.retry.wrapping_add(1);
        if self.retry > 5 {
            self.ws_url = None;
            self.retry = 0;
        }
        monitor::set_status(&mut app.my, "error", RECONNECTING);
        Next::Sleep(backoff(self.retry))
    }
}

/// Whether a found account can be named.
pub fn can_name_account(user: &User, cfg: &MonitorConfig) -> (r: bool)
    ensures
        r == account_has_name(*user, text::trimmed(cfg@.steam_id)),
{
    if text::unless_blank(&user.nickname).is_some() {
        return true;
    }
    let formal = user.steam_id();
    if formal.as_str().is_empty() {
        text::can_shorten(text::trim(cfg.steam_id.as_str()).as_str())
    } else {
        text::can_shorten(formal.as_str())
    }
}

/// A configuration is applied once: the same again changes neither the way nor what is cleared.
pub proof fn law_same_config_goes_on(run: RunView, cfg: MonitorConfigView, app: AppModel)
    ensures
        run_begun(run_begun(run, cfg), cfg) == run_begun(run, cfg),
        app_cleared(run_begun(run, cfg), cfg, app) == app,
{
}

/// A configuration with another account, token or pace has the account looked up anew, and no
/// match of the old account stays.
pub proof fn law_new_config_starts_over(run: RunView, cfg: MonitorConfigView, app: AppModel)
    requires
        is_news(run, cfg),
        text::trimmed(cfg.steam_id).len() > 0,
    ensures
        first_step(run, cfg) == BeginView::LookUp(text::trimmed(cfg.steam_id)),
        run_begun(run, cfg).ws_url is None,
        run_begun(run, cfg).retry == 0,
        app_begun(run, cfg, app).match_state is None,
        app_begun(run, cfg, app).my.nickname == Seq::<char>::empty(),
{
}

/// Once an account was looked up it is not looked up again under the same configuration.
pub proof fn law_account_is_looked_up_once(run: RunView, found: Lookup, cfg: MonitorConfigView)
    requires
        run.applied == Some(key_in(cfg)),
        text::trimmed(cfg.steam_id).len() > 0,
        !(found is Failed),
    ensures
        first_step(run_loaded(run, found, text::trimmed(cfg.steam_id)), cfg) == BeginView::Go,
{
}

/// The way after so many lost connections in a row.
pub open spec fn lost_times(run: RunView, n: nat) -> RunView
    decreases n,
{
    if n == 0 {
        run
    } else {
        run_lost(lost_times(run, (n - 1) as nat))
    }
}

/// The address is kept over five lost connections and given up at the sixth.
pub proof fn law_sixth_loss_renews_the_address(run: RunView, n: nat)
    requires
        run.retry == 0,
        n <= 5,
    ensures
        lost_times(run, n).ws_url == run.ws_url,
        lost_times(run, n).retry == n,
        lost_times(run, 6).ws_url is None,
        lost_times(run, 6).retry == 0,
    decreases n,
{
    if n > 0 {
        law_sixth_loss_renews_the_address(run, (n - 1) as nat);
    }
    reveal_with_fuel(lost_times, 7);
}

/// Under the wait after any lost connection, an address that was kept is tried again after at
/// most 64 seconds, and a new one is asked for after two.
pub proof fn law_wait_after_a_loss(run: RunView)
    ensures
        2000 <= delay(run_lost(run).retry as nat) <= 64000,
        run_lost(run).ws_url is None && run.ws_url is Some ==> delay(run_lost(run).retry as nat)
            == 2000,
{
    law_delay_grows(run_lost(run).retry as nat, run_lost(run).retry as nat);
    lemma2_to64();
}

/// The wait starts with two seconds, doubles with every failure, and stays from the fifth on.
pub proof fn law_delay_doubles(retry: nat)
    ensures
        delay(0) == 2000,
        retry < 5 ==> delay(retry + 1) == 2 * delay(retry),
        retry >= 5 ==> delay(retry) == 64000,
{
    lemma2_to64();
    assert(pow2(0) == 1 && pow2(1) == 2 && pow2(2) == 4 && pow2(3) == 8 && pow2(4) == 16 && pow2(5)
        == 32);
}

/// To a connection two configurations are the same exactly where account and token are, but for
/// outer white space, and the pace is, where less than a second counts as a second.
pub proof fn law_connection_depends_on_account_token_and_pace(
    a: MonitorConfigView,
    b: MonitorConfigView,
)
    ensures
        key_in(a) == key_in(b) <==> text::trimmed(a.steam_id) == text::trimmed(b.steam_id)
            && text::trimmed(a.token) == text::trimmed(b.token) && (a.poll_ms == b.poll_ms || (
        a.poll_ms <= 1000 && b.poll_ms <= 1000)),
        key_in(a).poll_ms >= 1000,
        a.poll_ms >= 1000 ==> key_in(a).poll_ms == a.poll_ms,
{
}

/// A new configuration leaves nothing but the id on the card; without an account the card asks for
/// one, and while it is looked up the card says so. What else is known stays.
pub proof fn law_new_config_clears_the_card(run: RunView, cfg: MonitorConfigView, app: AppModel)
    ensures
        ({
            let after = app_begun(run, cfg, app);
            &&& is_news(run, cfg) <==> run.applied != Some(key_in(cfg))
            &&& is_news(run, cfg) ==> after.my.steam_id == text::trimmed(cfg.steam_id)
                && after.my.rank_label.len() == 0 && after.my.rank_score is None
                && after.my.stats is None && after.my.avatar is None && after.my.nickname.len() == 0
                && after.match_state is None
            &&& text::trimmed(cfg.steam_id).len() == 0 ==> first_step(run, cfg) is Wait
                && after.my.ws_status == "idle"@ && after.my.last_error == NO_ACCOUNT@
            &&& text::trimmed(cfg.steam_id).len() > 0 && (is_news(run, cfg)
                || run.loaded_for is None) ==> after.my.ws_status == "resolving"@
            &&& text::trimmed(cfg.steam_id).len() > 0 && !is_news(run, cfg)
                && run.loaded_for is Some ==> after == app && first_step(run, cfg) is Go
            &&& after.avatar == app.avatar
            &&& after.plugins == app.plugins
            &&& after.updated_at == app.updated_at
            &&& after.cfg_epoch == app.cfg_epoch
        }),
{
    reveal_strlit("未配置 steamId, 请在配置窗口填写后保存");
    assert(NO_ACCOUNT@.len() > 0);
}

/// The card of a found account holds the platform's id of it, its nickname and its avatar; an
/// account without an id there keeps the configured one, and one without a nickname is called by
/// the last eight characters of the id.
pub proof fn law_found_account_is_on_the_card(
    my: CardView,
    user: User,
    input: Seq<char>,
    id: Seq<char>,
)
    requires
        id == (if user.steam_id is Some && !text::all_white((user.steam_id->0)@) {
            text::trimmed((user.steam_id->0)@)
        } else {
            input
        }),
    ensures
        ({
            let card = card_loaded(my, Lookup::Found(user), input);
            &&& card.steam_id == id
            &&& user.nickname matches Some(n) ==> (!text::all_white(n@) ==> card.nickname == n@)
            &&& (user.nickname is None || text::all_white((user.nickname->0)@))
                && vstd::utf8::is_ascii_chars(id) ==> card.nickname == (if id.len() > 8 {
                id.skip(id.len() - 8)
            } else {
                id
            })
            &&& card.avatar == (match user.avatar {
                Some(a) => Some(a@),
                None => None,
            })
            &&& card.ws_status == my.ws_status
            &&& card.rank_label == my.rank_label
            &&& card.rank_score == my.rank_score
            &&& card.stats == my.stats
            &&& card.last_error == my.last_error
        }),
{
    lemma_formal_id(user, input);
    if user.nickname is Some {
        text::lemma_all_white_trims((user.nickname->0)@);
    }
    if vstd::utf8::is_ascii_chars(id) {
        text::law_short_form_of_ascii(id);
    }
}

proof fn lemma_formal_id(user: User, input: Seq<char>)
    ensures
        formal_id(user, input) == (if user.steam_id is Some && !text::all_white(
            (user.steam_id->0)@,
        ) {
            text::trimmed((user.steam_id->0)@)
        } else {
            input
        }),
{
    assert(text::trimmed(Seq::empty()) =~= Seq::empty());
    if user.steam_id is Some {
        text::lemma_all_white_trims((user.steam_id->0)@);
    }
}

/// An account that was not found, and a lookup that failed, are told on the card; only the first
/// counts as looked up.
pub proof fn law_missing_account_is_told(my: CardView, run: RunView, input: Seq<char>, e: String)
    ensures
        card_loaded(my, Lookup::NotFound, input).ws_status == "error"@,
        card_loaded(my, Lookup::NotFound, input).steam_id == input,
        card_loaded(my, Lookup::NotFound, input).last_error == "未在完美平台查到该 steamId"@,
        card_loaded(my, Lookup::Failed(e), input).ws_status == "error"@,
        card_loaded(my, Lookup::Failed(e), input).steam_id == my.steam_id,
        card_loaded(my, Lookup::Failed(e), input).last_error == "查询账号信息失败: "@ + e@,
        run_loaded(run, Lookup::NotFound, input).loaded_for == Some(input),
        run_loaded(run, Lookup::Failed(e), input) == run,
{
    reveal_strlit("未在完美平台查到该 steamId");
    reveal_strlit("查询账号信息失败: ");
    assert("未在完美平台查到该 steamId"@.len() > 0);
    assert(("查询账号信息失败: "@ + e@).len() > 0);
}

/// The rank of a found account is in the cache under its id; a lookup without one leaves the cache.
pub proof fn law_found_account_is_cached(
    ranks: RankModel,
    user: User,
    input: Seq<char>,
    e: String,
)
    requires
        text::is_trimmed(input),
        input.len() > 0,
    ensures
        ranks_loaded(ranks, Lookup::Found(user), input).rank(formal_id(user, input)) == Some(
            rank::rank_of_score(user.score_value()),
        ),
        ranks_loaded(ranks, Lookup::NotFound, input) == ranks,
        ranks_loaded(ranks, Lookup::Failed(e), input) == ranks,
{
    let id = formal_id(user, input);
    if user.steam_id is Some {
        text::law_trimming((user.steam_id->0)@);
    }
    text::law_trimming(input);
    text::law_trimming(id);
}

/// After a lookup the account is written to the data log, its statistics are asked for where there
/// is a token, and its avatar is downloaded where it has one; a failed lookup is tried again after
/// five seconds.
pub proof fn law_step_after_a_lookup(
    step: Loaded,
    user: User,
    cfg: MonitorConfigView,
    e: String,
)
    ensures
        is_right_step(step, Lookup::Found(user), cfg) ==> (step matches Loaded::Account {
            steam_id,
            log,
            token,
            avatar,
        } && steam_id@ == formal_id(user, text::trimmed(cfg.steam_id)) && text::has_prefix(
            log@,
            "[ACCOUNT] steam_id="@ + steam_id@ + " nickname="@,
        ) && (token matches Some(t) ==> t@ == text::trimmed(cfg.token)) && (token is None
            <==> text::trimmed(cfg.token).len() == 0) && (user.avatar matches Some(a)
            ==> (!text::all_white(a@) ==> (avatar matches Some(x) && x@ == a@))) && (
        user.avatar is None ==> avatar is None)),
        is_right_step(step, Lookup::NotFound, cfg) ==> step is Unknown,
        is_right_step(step, Lookup::Failed(e), cfg) ==> (step matches Loaded::RetryAfter(ms)
            && ms == 5 * 1000),
{
    if is_right_step(step, Lookup::Found(user), cfg) {
        let id = formal_id(user, text::trimmed(cfg.steam_id));
        let head = "[ACCOUNT] steam_id="@ + id + " nickname="@;
        let line = head + account_name(user, id);
        assert(line.take(head.len() as int) =~= head);
        if user.avatar is Some {
            text::lemma_all_white_trims((user.avatar->0)@);
        }
    }
}

/// Once the account is known its rank goes on the card, and the status says that it connects
/// exactly where there is an address.
pub proof fn law_ready_connects(app: AppModel, ranks: RankModel)
    ensures
        app_ready(app, ranks, true).my.ws_status == "connecting"@,
        app_ready(app, ranks, false).my.ws_status == app.my.ws_status,
        app_ready(app, ranks, true).my.last_error == app.my.last_error,
        app_ready(app, ranks, true).my.steam_id == app.my.steam_id,
        ranks.rank(text::trimmed(app.my.steam_id)) matches Some(meta) ==> (meta.status
            == rank::RankStatus::Ready ==> app_ready(app, ranks, true).my.rank_label == meta.label
            && app_ready(app, ranks, false).my.rank_score == meta.score),
        app_ready(app, ranks, true).match_state == app.match_state,
        app_ready(app, ranks, true).plugins == app.plugins,
{
}

/// A reason counts as a change of the configuration exactly where it says so.
pub proof fn law_config_change_is_told_by_the_reason(before: Seq<char>, after: Seq<char>, e: Seq<char>)
    ensures
        is_config_change(Some(before + "配置已变化"@ + after)),
        is_config_change(Some(e)) ==> text::has_text(e, "配置已变化"@),
        !is_config_change(None),
{
    let all = before + "配置已变化"@ + after;
    let at = before.len() as int;
    assert(all.subrange(at, at + "配置已变化"@.len()) =~= "配置已变化"@);
    assert(text::occurs_at(all, "配置已变化"@, at));
}

/// A found account can be named where it has a nickname or an id in ASCII.
pub proof fn law_ordinary_accounts_can_be_named(user: User, input: Seq<char>)
    ensures
        vstd::utf8::is_ascii_chars(formal_id(user, input)) ==> account_has_name(user, input),
        user.nickname matches Some(n) ==> (!text::all_white(n@) ==> account_has_name(user, input)),
{
    if vstd::utf8::is_ascii_chars(formal_id(user, input)) {
        text::law_short_form_of_ascii(formal_id(user, input));
    }
    if user.nickname is Some {
        text::lemma_all_white_trims((user.nickname->0)@);
    }
}

} // verus!
