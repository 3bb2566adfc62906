//! What the program knows, and the snapshot of it that the pages show.

use crate::datalog::{DataLog, DataLogModel};
use crate::form::{FormEntry, FormEntryView, FormModel, FormService};
use crate::number::Real;
use crate::rank::{Progress, RankMeta, RankMetaView, RankModel, RankService, RankStatus};
use crate::table::Table;
use crate::{form, number, rank, table, text};
use vstd::prelude::*;
use vstd::string::*;

verus! {

/// A player in a match.
pub struct Player {
    pub steam_id: String,
    /// `CT`, `T` or something else.
    pub side: String,
    /// The nickname that came with the match.
    pub name: Option<String>,
    pub kill: u32,
    pub death: u32,
    pub assist: u32,
    pub adr: Option<Real>,
    pub alive: bool,
    pub rating: Option<Real>,
}

/// A player in a match, by characters.
pub struct PlayerView {
    pub steam_id: Seq<char>,
    pub side: Seq<char>,
    pub name: Option<Seq<char>>,
    pub kill: u32,
    pub death: u32,
    pub assist: u32,
    pub adr: Option<Real>,
    pub alive: bool,
    pub rating: Option<Real>,
}

impl View for Player {
    type V = PlayerView;

    open spec fn view(&self) -> PlayerView {
        PlayerView {
            steam_id: self.steam_id@,
            side: self.side@,
            name: text::opt_text(self.name),
            kill: self.kill,
            death: self.death,
            assist: self.assist,
            adr: self.adr,
            alive: self.alive,
            rating: self.rating,
        }
    }
}

impl Clone for Player {
    fn clone(&self) -> (r: Self)
        ensures
            r == *self,
    {
        Player {
            steam_id: self.steam_id.clone(),
            side: self.side.clone(),
            name: self.name.clone(),
            kill: self.kill,
            death: self.death,
            assist: self.assist,
            adr: self.adr,
            alive: self.alive,
            rating: self.rating,
        }
    }
}

/// Players, by characters.
pub open spec fn players_of(v: Seq<Player>) -> Seq<PlayerView> {
    v.map_values(|p: Player| p@)
}

/// The match that is being played.
pub struct MatchState {
    pub match_id: String,
    pub map: String,
    pub ct_score: u32,
    pub t_score: u32,
    pub ct_half: Option<u32>,
    pub t_half: Option<u32>,
    pub players: Vec<Player>,
}

/// The match that is being played, by characters.
pub struct MatchView {
    pub match_id: Seq<char>,
    pub map: Seq<char>,
    pub ct_score: u32,
    pub t_score: u32,
    pub ct_half: Option<u32>,
    pub t_half: Option<u32>,
    pub players: Seq<PlayerView>,
}

impl View for MatchState {
    type V = MatchView;

    open spec fn view(&self) -> MatchView {
        MatchView {
            match_id: self.match_id@,
            map: self.map@,
            ct_score: self.ct_score,
            t_score: self.t_score,
            ct_half: self.ct_half,
            t_half: self.t_half,
            players: players_of(self.players@),
        }
    }
}

/// The season statistics of the own account.
pub struct PlayerStats {
    pub avg_we: Option<Real>,
    pub rating_pro: Option<Real>,
    pub season_cnt: Option<u32>,
    pub adr: Option<Real>,
    pub win_rate: Option<Real>,
    pub kda: Option<Real>,
    pub headshot_ratio: Option<Real>,
    pub rws: Option<Real>,
    pub stars: Option<u32>,
    pub season_id: String,
    pub summary: String,
}

/// Season statistics, by characters.
pub struct StatsView {
    pub avg_we: Option<Real>,
    pub rating_pro: Option<Real>,
    pub season_cnt: Option<u32>,
    pub adr: Option<Real>,
    pub win_rate: Option<Real>,
    pub kda: Option<Real>,
    pub headshot_ratio: Option<Real>,
    pub rws: Option<Real>,
    pub stars: Option<u32>,
    pub season_id: Seq<char>,
    pub summary: Seq<char>,
}

impl View for PlayerStats {
    type V = StatsView;

    open spec fn view(&self) -> StatsView {
        StatsView {
            avg_we: self.avg_we,
            rating_pro: self.rating_pro,
            season_cnt: self.season_cnt,
            adr: self.adr,
            win_rate: self.win_rate,
            kda: self.kda,
            headshot_ratio: self.headshot_ratio,
            rws: self.rws,
            stars: self.stars,
            season_id: self.season_id@,
            summary: self.summary@,
        }
    }
}

/// Optional season statistics, by characters.
pub open spec fn opt_stats(s: Option<PlayerStats>) -> Option<StatsView> {
    match s {
        Some(x) => Some(x@),
        None => None,
    }
}

/// The card of the own account.
pub struct MyCard {
    pub nickname: String,
    pub steam_id: String,
    pub avatar: Option<String>,
    pub rank_label: String,
    pub rank_score: Option<u32>,
    pub ws_status: String,
    pub last_error: String,
    /// None without a token, or before the first reply.
    pub stats: Option<PlayerStats>,
}

/// The card of the own account, by characters.
pub struct CardView {
    pub nickname: Seq<char>,
    pub steam_id: Seq<char>,
    pub avatar: Option<Seq<char>>,
    pub rank_label: Seq<char>,
    pub rank_score: Option<u32>,
    pub ws_status: Seq<char>,
    pub last_error: Seq<char>,
    pub stats: Option<StatsView>,
}

impl View for MyCard {
    type V = CardView;

    open spec fn view(&self) -> CardView {
        CardView {
            nickname: self.nickname@,
            steam_id: self.steam_id@,
            avatar: text::opt_text(self.avatar),
            rank_label: self.rank_label@,
            rank_score: self.rank_score,
            ws_status: self.ws_status@,
            last_error: self.last_error@,
            stats: opt_stats(self.stats),
        }
    }
}

/// A card without anything on it.
pub open spec fn blank_card() -> CardView {
    CardView {
        nickname: Seq::empty(),
        steam_id: Seq::empty(),
        avatar: None,
        rank_label: Seq::empty(),
        rank_score: None,
        ws_status: Seq::empty(),
        last_error: Seq::empty(),
        stats: None,
    }
}

impl Default for MyCard {
    fn default() -> (r: Self)
        ensures
            r@ == blank_card(),
    {
        MyCard {
            nickname: String::new(),
            steam_id: String::new(),
            avatar: None,
            rank_label: String::new(),
            rank_score: None,
            ws_status: String::new(),
            last_error: String::new(),
            stats: None,
        }
    }
}

/// The own avatar, as it was downloaded.
pub struct AvatarCache {
    pub url: String,
    pub bytes: Vec<u8>,
}

/// The own avatar, by characters and bytes.
pub struct AvatarView {
    pub url: Seq<char>,
    pub bytes: Seq<u8>,
}

impl View for AvatarCache {
    type V = AvatarView;

    open spec fn view(&self) -> AvatarView {
        AvatarView { url: self.url@, bytes: self.bytes@ }
    }
}

/// What the program knows.
pub struct AppState {
    pub my: MyCard,
    pub match_state: Option<MatchState>,
    /// When match data last came, in milliseconds since 1970.
    pub updated_at: u64,
    pub avatar: Option<AvatarCache>,
    /// What the plugins found: plugin, then variable, then value.
    pub plugins: Table<Table<String>>,
    pub datalog: DataLog,
    /// Whether the board is on screen.
    pub board_showing: bool,
    /// How often the configuration was saved, counted from one.
    pub cfg_epoch: u64,
}

/// What the program knows, by characters.
#[verifier::ext_equal]
pub struct AppModel {
    pub my: CardView,
    pub match_state: Option<MatchView>,
    pub updated_at: u64,
    pub avatar: Option<AvatarView>,
    pub plugins: Map<Seq<char>, Map<Seq<char>, Seq<char>>>,
    pub datalog: DataLogModel,
    pub board_showing: bool,
    pub cfg_epoch: u64,
}

/// An optional match, by characters.
pub open spec fn opt_match(m: Option<MatchState>) -> Option<MatchView> {
    match m {
        Some(x) => Some(x@),
        None => None,
    }
}

/// An optional avatar, by characters and bytes.
pub open spec fn opt_avatar(a: Option<AvatarCache>) -> Option<AvatarView> {
    match a {
        Some(x) => Some(x@),
        None => None,
    }
}

impl View for AppState {
    type V = AppModel;

    open spec fn view(&self) -> AppModel {
        AppModel {
            my: self.my@,
            match_state: opt_match(self.match_state),
            updated_at: self.updated_at,
            avatar: opt_avatar(self.avatar),
            plugins: table::nested(self.plugins),
            datalog: self.datalog@,
            board_showing: self.board_showing,
            cfg_epoch: self.cfg_epoch,
        }
    }
}

impl AppState {
    /// No plugin and no variable stands twice.
    pub open spec fn wf(self) -> bool {
        table::nested_wf(self.plugins)
    }

    /// Nothing is known yet.
    pub fn new() -> (r: AppState)
        ensures
            r.wf(),
            r@ == (AppModel {
                my: blank_card(),
                match_state: None,
                updated_at: 0,
                avatar: None,
                plugins: Map::empty(),
                datalog: DataLogModel { last: Map::empty(), writes: 0 },
                board_showing: false,
                cfg_epoch: 1,
            }),
    {
        let r = AppState {
            my: MyCard::default(),
            match_state: None,
            updated_at: 0,
            avatar: None,
            plugins: Table::new(),
            datalog: DataLog::create(),
            board_showing: false,
            cfg_epoch: 1,
        };
        assert(r@.plugins =~= Map::<Seq<char>, Map<Seq<char>, Seq<char>>>::empty());
        r
    }

    /// Notes whether the board is on screen.
    pub fn set_board_showing(&mut self, on: bool)
        ensures
            final(self)@ == (AppModel { board_showing: on, ..old(self)@ }),
            old(self).wf() ==> final(self).wf(),
    {
        self.board_showing = on;
    }

    /// Whether the board is on screen.
    pub fn board_showing(&self) -> (r: bool)
        ensures
            r == self@.board_showing,
    {
        self.board_showing
    }

    /// Tells the pages that the configuration was saved.
    pub fn bump_cfg_epoch(&mut self)
        ensures
            final(self)@ == (AppModel {
                cfg_epoch: old(self)@.cfg_epoch.wrapping_add(1),
                ..old(self)@
            }),
            old(self).wf() ==> final(self).wf(),
    {
        self.cfg_epoch = self.cfg_epoch.wrapping_add(1);
    }

    /// Forgets what the pages show, for a change of the source of data.
    pub fn reset_data(&mut self)
        ensures
            final(self)@ == (AppModel {
                my: blank_card(),
                match_state: None,
                avatar: None,
                ..old(self)@
            }),
            old(self).wf() ==> final(self).wf(),
    {
        self.my = MyCard::default();
        self.match_state = None;
        self.avatar = None;
    }

    /// How often the configuration was saved, counted from one.
    pub fn cfg_epoch(&self) -> (r: u64)
        ensures
            r == self@.cfg_epoch,
    {
        self.cfg_epoch
    }
}

/// The snapshot that the pages show.
pub struct ApiState {
    pub in_match: bool,
    pub my: MyJson,
    pub match_info: Option<MatchJson>,
    pub updated_at: u64,
    pub cfg_epoch: u64,
    /// The board leaves the screen on its own.
    pub anim_exit: bool,
    pub board_showing: bool,
    pub plugins: Table<Table<String>>,
}

/// The own card in the snapshot.
pub struct MyJson {
    pub nickname: String,
    pub steam_id: String,
    pub avatar: Option<String>,
    pub rank_label: String,
    pub rank_score: Option<u32>,
    pub rank_class: String,
    pub rank_icon: String,
    pub rank_progress: Progress,
    pub ws_status: String,
    pub last_error: String,
    pub stats: Option<StatsJson>,
}

/// The season statistics in the snapshot.
pub struct StatsJson {
    pub avg_we: Option<Real>,
    pub rating_pro: Option<Real>,
    pub season_cnt: Option<u32>,
    pub adr: Option<Real>,
    pub win_rate: Option<Real>,
    pub kda: Option<Real>,
    pub headshot_ratio: Option<Real>,
    pub rws: Option<Real>,
    pub stars: Option<u32>,
    pub season_id: String,
    pub summary: String,
}

/// The match in the snapshot.
pub struct MatchJson {
    pub match_id: String,
    pub map: String,
    pub ct_score: u32,
    pub t_score: u32,
    pub ct_half: Option<u32>,
    pub t_half: Option<u32>,
    /// The side of the own account; empty where it does not play.
    pub my_side: String,
    pub teams: Vec<TeamJson>,
}

/// A team in the snapshot.
pub struct TeamJson {
    pub side: String,
    pub name: String,
    pub avg_score: Option<u32>,
    pub players: Vec<PlayerJson>,
}

/// A player in the snapshot.
pub struct PlayerJson {
    pub steam_id: String,
    pub name: String,
    pub rank_label: String,
    pub rank_score: Option<u32>,
    pub rank_class: String,
    pub rank_loading: bool,
    pub rank_icon: String,
    pub rank_progress: Progress,
    pub stars: Option<u32>,
    pub side: String,
    pub kill: u32,
    pub death: u32,
    pub assist: u32,
    pub adr: Option<Real>,
    pub alive: bool,
    pub is_me: bool,
    /// The last results, latest first.
    pub form: Vec<bool>,
}

/// The own card in the snapshot, by characters.
pub struct MyJsonView {
    pub nickname: Seq<char>,
    pub steam_id: Seq<char>,
    pub avatar: Option<Seq<char>>,
    pub rank_label: Seq<char>,
    pub rank_score: Option<u32>,
    pub rank_class: Seq<char>,
    pub rank_icon: Seq<char>,
    pub rank_progress: Progress,
    pub ws_status: Seq<char>,
    pub last_error: Seq<char>,
    pub stats: Option<StatsView>,
}

/// A player in the snapshot, by characters.
pub struct PlayerJsonView {
    pub steam_id: Seq<char>,
    pub name: Seq<char>,
    pub rank_label: Seq<char>,
    pub rank_score: Option<u32>,
    pub rank_class: Seq<char>,
    pub rank_loading: bool,
    pub rank_icon: Seq<char>,
    pub rank_progress: Progress,
    pub stars: Option<u32>,
    pub side: Seq<char>,
    pub kill: u32,
    pub death: u32,
    pub assist: u32,
    pub adr: Option<Real>,
    pub alive: bool,
    pub is_me: bool,
    pub form: Seq<bool>,
}

/// A team in the snapshot, by characters.
pub struct TeamJsonView {
    pub side: Seq<char>,
    pub name: Seq<char>,
    pub avg_score: Option<nat>,
    pub players: Seq<PlayerJsonView>,
}

/// The match in the snapshot, by characters.
pub struct MatchJsonView {
    pub match_id: Seq<char>,
    pub map: Seq<char>,
    pub ct_score: u32,
    pub t_score: u32,
    pub ct_half: Option<u32>,
    pub t_half: Option<u32>,
    pub my_side: Seq<char>,
    pub teams: Seq<TeamJsonView>,
}

/// The snapshot, by characters.
pub struct ApiView {
    pub in_match: bool,
    pub my: MyJsonView,
    pub match_info: Option<MatchJsonView>,
    pub updated_at: u64,
    pub cfg_epoch: u64,
    pub anim_exit: bool,
    pub board_showing: bool,
    pub plugins: Map<Seq<char>, Map<Seq<char>, Seq<char>>>,
}

impl View for StatsJson {
    type V = StatsView;

    open spec fn view(&self) -> StatsView {
        StatsView {
            avg_we: self.avg_we,
            rating_pro: self.rating_pro,
            season_cnt: self.season_cnt,
            adr: self.adr,
            win_rate: self.win_rate,
            kda: self.kda,
            headshot_ratio: self.headshot_ratio,
            rws: self.rws,
            stars: self.stars,
            season_id: self.season_id@,
            summary: self.summary@,
        }
    }
}

impl View for MyJson {
    type V = MyJsonView;

    open spec fn view(&self) -> MyJsonView {
        MyJsonView {
            nickname: self.nickname@,
            steam_id: self.steam_id@,
            avatar: text::opt_text(self.avatar),
            rank_label: self.rank_label@,
            rank_score: self.rank_score,
            rank_class: self.rank_class@,
            rank_icon: self.rank_icon@,
            rank_progress: self.rank_progress,
            ws_status: self.ws_status@,
            last_error: self.last_error@,
            stats: match self.stats {
                Some(x) => Some(x@),
                None => None,
            },
        }
    }
}

impl View for PlayerJson {
    type V = PlayerJsonView;

    open spec fn view(&self) -> PlayerJsonView {
        PlayerJsonView {
            steam_id: self.steam_id@,
            name: self.name@,
            rank_label: self.rank_label@,
            rank_score: self.rank_score,
            rank_class: self.rank_class@,
            rank_loading: self.rank_loading,
            rank_icon: self.rank_icon@,
            rank_progress: self.rank_progress,
            stars: self.stars,
            side: self.side@,
            kill: self.kill,
            death: self.death,
            assist: self.assist,
            adr: self.adr,
            alive: self.alive,
            is_me: self.is_me,
            form: self.form@,
        }
    }
}

impl View for TeamJson {
    type V = TeamJsonView;

    open spec fn view(&self) -> TeamJsonView {
        TeamJsonView {
            side: self.side@,
            name: self.name@,
            avg_score: match self.avg_score {
                Some(n) => Some(n as nat),
                None => None,
            },
            players: self.players@.map_values(|p: PlayerJson| p@),
        }
    }
}

impl View for MatchJson {
    type V = MatchJsonView;

    open spec fn view(&self) -> MatchJsonView {
        MatchJsonView {
            match_id: self.match_id@,
            map: self.map@,
            ct_score: self.ct_score,
            t_score: self.t_score,
            ct_half: self.ct_half,
            t_half: self.t_half,
            my_side: self.my_side@,
            teams: self.teams@.map_values(|t: TeamJson| t@),
        }
    }
}

impl View for ApiState {
    type V = ApiView;

    open spec fn view(&self) -> ApiView {
        ApiView {
            in_match: self.in_match,
            my: self.my@,
            match_info: match self.match_info {
                Some(m) => Some(m@),
                None => None,
            },
            updated_at: self.updated_at,
            cfg_epoch: self.cfg_epoch,
            anim_exit: self.anim_exit,
            board_showing: self.board_showing,
            plugins: table::nested(self.plugins),
        }
    }
}

/// The own card as the pages show it.
pub open spec fn my_json(my: CardView) -> MyJsonView {
    MyJsonView {
        nickname: my.nickname,
        steam_id: my.steam_id,
        avatar: my.avatar,
        rank_label: my.rank_label,
        rank_score: my.rank_score,
        rank_class: rank::badge_of(rank::plain_label(my.rank_label)),
        rank_icon: rank::icon_of(rank::plain_label(my.rank_label)),
        rank_progress: match my.rank_score {
            Some(s) => progress_of_whole(s),
            None => Progress::Empty,
        },
        ws_status: my.ws_status,
        last_error: my.last_error,
        stats: my.stats,
    }
}

/// The progress within its tier of a score that is a whole number.
pub open spec fn progress_of_whole(s: u32) -> Progress {
    rank::progress_of(number::whole(s))
}

/// The players of a side, in the order of the match.
pub open spec fn on_side(players: Seq<PlayerView>, side: Seq<char>) -> Seq<PlayerView>
    decreases players.len(),
{
    if players.len() == 0 {
        Seq::empty()
    } else {
        let before = on_side(players.drop_last(), side);
        if players.last().side == side {
            before.push(players.last())
        } else {
            before
        }
    }
}

/// What a player without a rating counts as: minus one.
pub const NO_RATING: u64 = 0xBFF0_0000_0000_0000;

/// The rating by which a player is placed.
pub open spec fn placing(p: PlayerView) -> int {
    match p.rating {
        Some(r) => r.order(),
        None => (Real { bits: NO_RATING }).order(),
    }
}

/// `a` stands above `b`: by rating, then by more kills, then by fewer deaths, then by id.
pub open spec fn is_above(a: PlayerView, b: PlayerView) -> bool {
    if placing(a) != placing(b) {
        placing(a) > placing(b)
    } else if a.kill != b.kill {
        a.kill > b.kill
    } else if a.death != b.death {
        a.death < b.death
    } else {
        text::is_before(a.steam_id, b.steam_id)
    }
}

/// `p` put into a ranked list, below all that it does not stand above.
pub open spec fn placed(list: Seq<PlayerView>, p: PlayerView) -> Seq<PlayerView>
    decreases list.len(),
{
    if list.len() > 0 && is_above(p, list.last()) {
        placed(list.drop_last(), p).push(list.last())
    } else {
        list.push(p)
    }
}

/// The players in the order in which the board shows them; who is level stays in place.
pub open spec fn ranking(players: Seq<PlayerView>) -> Seq<PlayerView>
    decreases players.len(),
{
    if players.len() == 0 {
        Seq::empty()
    } else {
        placed(ranking(players.drop_last()), players.last())
    }
}

/// The rank that is known of a player.
pub open spec fn known_rank(ranks: RankModel, id: Seq<char>) -> RankMetaView {
    match ranks.rank(text::trimmed(id)) {
        Some(m) => m,
        None => rank::bare_rank(RankStatus::Loading),
    }
}

/// The nickname that is known of a player: the one of the match before the one of the cache.
pub open spec fn known_name(p: PlayerView, ranks: RankModel) -> Option<Seq<char>> {
    match text::not_blank(p.name) {
        Some(n) => Some(n),
        None => text::not_blank(ranks.nickname(text::trimmed(p.steam_id))),
    }
}

/// The rating of a player, where there is one, is a number.
pub open spec fn is_rated(p: PlayerView) -> bool {
    p.rating matches Some(r) ==> !r.is_nan()
}

/// A player can be shown: the rating is a number, and a nickname is known or the id can be cut
/// short.
pub open spec fn is_showable(p: PlayerView, ranks: RankModel) -> bool {
    is_rated(p) && (known_name(p, ranks) is Some || text::short_form_exists(p.steam_id))
}

/// A player as the board shows it.
pub open spec fn player_json(
    p: PlayerView,
    ranks: RankModel,
    form: FormEntryView,
    me: Seq<char>,
) -> PlayerJsonView {
    let meta = known_rank(ranks, p.steam_id);
    let loading = meta.status == RankStatus::Loading;
    PlayerJsonView {
        steam_id: p.steam_id,
        name: match known_name(p, ranks) {
            Some(n) => n,
            None => text::short_form(p.steam_id),
        },
        rank_label: if loading {
            Seq::empty()
        } else {
            meta.label
        },
        rank_score: if loading {
            None
        } else {
            meta.score
        },
        rank_class: if loading {
            "U"@
        } else {
            rank::badge_of(rank::plain_label(meta.label))
        },
        rank_loading: loading,
        rank_icon: rank::icon_of(rank::plain_label(meta.label)),
        rank_progress: meta.progress,
        stars: if form.stars is Some {
            form.stars
        } else {
            meta.stars
        },
        side: p.side,
        kill: p.kill,
        death: p.death,
        assist: p.assist,
        adr: p.adr,
        alive: p.alive,
        is_me: p.steam_id == me,
        form: form.results,
    }
}

/// A ranked team as the board shows it.
pub open spec fn team_json(
    list: Seq<PlayerView>,
    side: Seq<char>,
    me: Seq<char>,
    ranks: RankModel,
    forms: FormModel,
) -> TeamJsonView {
    TeamJsonView {
        side,
        name: if side == "CT"@ {
            "CT"@
        } else {
            "T"@
        },
        avg_score: rank::average_of(list.map_values(|p: PlayerView| known_rank(ranks, p.steam_id))),
        players: list.map_values(
            |p: PlayerView| player_json(p, ranks, forms.answer(text::trimmed(p.steam_id)), me),
        ),
    }
}

/// The results cache once the players of a list were asked for, in order.
pub open spec fn asked_all(forms: FormModel, list: Seq<PlayerView>, now: u64) -> FormModel
    decreases list.len(),
{
    if list.len() == 0 {
        forms
    } else {
        asked_all(forms, list.drop_last(), now).asked(text::trimmed(list.last().steam_id), now)
    }
}

/// The lookups that asking for the players of a list starts, in order.
pub open spec fn lookups(forms: FormModel, list: Seq<PlayerView>, now: u64) -> Seq<Seq<char>>
    decreases list.len(),
{
    if list.len() == 0 {
        Seq::empty()
    } else {
        let before = lookups(forms, list.drop_last(), now);
        let id = text::trimmed(list.last().steam_id);
        if asked_all(forms, list.drop_last(), now).must_queue(id, now) {
            before.push(id)
        } else {
            before
        }
    }
}

/// Asking for players changes nothing in what the cache says of any.
pub proof fn law_asking_shows_the_same(
    forms: FormModel,
    list: Seq<PlayerView>,
    now: u64,
    id: Seq<char>,
)
    ensures
        asked_all(forms, list, now).answer(id) == forms.answer(id),
        forms.wf() ==> asked_all(forms, list, now).wf(),
    decreases list.len(),
{
    if list.len() > 0 {
        law_asking_shows_the_same(forms, list.drop_last(), now, id);
        let f = asked_all(forms, list.drop_last(), now);
        let x = text::trimmed(list.last().steam_id);
        if x == id {
            if f.must_queue(id, now) {
                form::law_queued_once(f, id, now, now);
            }
        } else {
            form::law_question_is_local(f, x, id, now);
        }
    }
}

fn above(a: &Player, b: &Player) -> (r: bool)
    ensures
        r == is_above(a@, b@),
{
    let ra = match a.rating {
        Some(x) => x,
        None => Real { bits: NO_RATING },
    };
    let rb = match b.rating {
        Some(x) => x,
        None => Real { bits: NO_RATING },
    };
    if rb.less(ra) {
        return true;
    }
    if ra.less(rb) {
        return false;
    }
    if a.kill != b.kill {
        return a.kill > b.kill;
    }
    if a.death != b.death {
        return a.death < b.death;
    }
    text::before(a.steam_id.as_str(), b.steam_id.as_str())
}

fn place(list: &mut Vec<Player>, p: Player)
    ensures
        players_of(final(list)@) == placed(players_of(old(list)@), p@),
{
    let ghost all = players_of(list@);
    let ghost item = p@;
    let mut i: usize = list.len();
    assert(all.take(i as int) == all);
    assert(all.skip(i as int) == Seq::<PlayerView>::empty());
    assert(placed(all, item) + Seq::<PlayerView>::empty() == placed(all, item));
    while i > 0 && above(&p, &list[i - 1])
        invariant
            i <= list@.len(),
            all == players_of(list@),
            item == p@,
            placed(all, item) == placed(all.take(i as int), item) + all.skip(i as int),
        decreases i,
    {
        proof {
            let t = all.take(i as int);
            assert(t.last() == list@[i - 1]@);
            assert(t.drop_last() == all.take(i - 1));
            assert(placed(t, item) == placed(all.take(i - 1), item).push(t.last()));
            assert(placed(all.take(i - 1), item).push(t.last()) + all.skip(i as int) == placed(
                all.take(i - 1),
                item,
            ) + all.skip(i - 1));
        }
        i -= 1;
    }
    proof {
        let t = all.take(i as int);
        if i > 0 {
            assert(t.last() == list@[i - 1]@);
        }
        assert(placed(t, item) == t.push(item));
    }
    list.insert(i, p);
    assert(players_of(list@) =~= all.take(i as int).push(item) + all.skip(i as int));
}

/// The players of a side in the order in which the board shows them.
pub fn ranked_side(players: &Vec<Player>, side: &str) -> (r: Vec<Player>)
    requires
        forall|i: int|
            0 <= i < players@.len() && (#[trigger] players@[i])@.side == side@ ==> is_rated(
                players@[i]@,
            ),
    ensures
        players_of(r@) == ranking(on_side(players_of(players@), side@)),
{
    let ghost all = players_of(players@);
    let mut out: Vec<Player> = Vec::new();
    let mut i: usize = 0;
    assert(all.take(0) == Seq::<PlayerView>::empty());
    assert(players_of(out@) =~= ranking(on_side(all.take(0), side@)));
    while i < players.len()
        invariant
            i <= players@.len(),
            all == players_of(players@),
            players_of(out@) == ranking(on_side(all.take(i as int), side@)),
        decreases players@.len() - i,
    {
        proof {
            let t = all.take(i + 1);
            assert(t.drop_last() == all.take(i as int));
            assert(t.last() == players@[i as int]@);
            let b = on_side(all.take(i as int), side@);
            assert(b.push(t.last()).drop_last() == b);
        }
        if text::same(players[i].side.as_str(), side) {
            place(&mut out, players[i].clone());
        }
        i += 1;
    }
    assert(all.take(i as int) == all);
    out
}

proof fn lemma_placed(list: Seq<PlayerView>, p: PlayerView)
    ensures
        placed(list, p).len() == list.len() + 1,
        placed(list, p).to_multiset() == list.to_multiset().insert(p),
        forall|i: int| 0 <= i < placed(list, p).len() ==> (#[trigger] placed(list, p)[i] == p
            || exists|j: int| 0 <= j < list.len() && list[j] == placed(list, p)[i]),
    decreases list.len(),
{
    broadcast use vstd::seq_lib::group_to_multiset_ensures;

    if list.len() > 0 && is_above(p, list.last()) {
        let front = list.drop_last();
        lemma_placed(front, p);
        assert(front.push(list.last()) == list);
        assert(list.to_multiset() == front.to_multiset().insert(list.last()));
        assert(placed(list, p).to_multiset() =~= list.to_multiset().insert(p));
        assert forall|i: int| 0 <= i < placed(list, p).len() implies (#[trigger] placed(list, p)[i]
            == p || exists|j: int| 0 <= j < list.len() && list[j] == placed(list, p)[i]) by {
            if i < front.len() + 1 {
                assert(placed(front, p)[i] == placed(list, p)[i]);
                if placed(front, p)[i] != p {
                    let j = choose|j: int| 0 <= j < front.len() && front[j] == placed(front, p)[i];
                    assert(list[j] == placed(list, p)[i]);
                }
            } else {
                assert(list[list.len() - 1] == placed(list, p)[i]);
            }
        }
    } else {
        assert forall|i: int| 0 <= i < placed(list, p).len() implies (#[trigger] placed(list, p)[i]
            == p || exists|j: int| 0 <= j < list.len() && list[j] == placed(list, p)[i]) by {
            if i < list.len() {
                assert(list[i] == placed(list, p)[i]);
            }
        }
    }
}

/// No player stands above one that comes earlier in the list.
pub open spec fn is_ranked(list: Seq<PlayerView>) -> bool {
    forall|i: int, j: int|
        0 <= i < j < list.len() ==> !is_above(#[trigger] list[j], #[trigger] list[i])
}

/// Standing above is a strict order in which players that are level are level with the same.
pub proof fn law_above_is_an_order(a: PlayerView, b: PlayerView, c: PlayerView)
    ensures
        !is_above(a, a),
        is_above(a, b) ==> !is_above(b, a),
        is_above(a, b) && is_above(b, c) ==> is_above(a, c),
        !is_above(b, a) && !is_above(c, b) ==> !is_above(c, a),
{
    text::law_before_is_an_order(a.steam_id, b.steam_id, c.steam_id);
    text::law_before_is_an_order(b.steam_id, a.steam_id, c.steam_id);
    text::law_before_is_an_order(b.steam_id, c.steam_id, a.steam_id);
    text::law_before_is_an_order(c.steam_id, b.steam_id, a.steam_id);
    text::law_before_is_an_order(c.steam_id, a.steam_id, b.steam_id);
    text::law_before_is_an_order(a.steam_id, c.steam_id, b.steam_id);
}

proof fn lemma_placed_is_ranked(list: Seq<PlayerView>, p: PlayerView)
    requires
        is_ranked(list),
    ensures
        is_ranked(placed(list, p)),
    decreases list.len(),
{
    lemma_placed(list, p);
    let out = placed(list, p);
    if list.len() > 0 && is_above(p, list.last()) {
        let front = list.drop_last();
        assert(is_ranked(front)) by {
            assert forall|i: int, j: int| 0 <= i < j < front.len() implies !is_above(
                #[trigger] front[j],
                #[trigger] front[i],
            ) by {
                assert(list[i] == front[i] && list[j] == front[j]);
            }
        }
        lemma_placed_is_ranked(front, p);
        lemma_placed(front, p);
        let inner = placed(front, p);
        assert forall|i: int, j: int| 0 <= i < j < out.len() implies !is_above(
            #[trigger] out[j],
            #[trigger] out[i],
        ) by {
            if j < inner.len() {
                assert(out[i] == inner[i] && out[j] == inner[j]);
            } else {
                assert(out[j] == list.last());
                assert(out[i] == inner[i]);
                if inner[i] == p {
                    law_above_is_an_order(p, list.last(), p);
                } else {
                    let k = choose|k: int| 0 <= k < front.len() && front[k] == inner[i];
                    assert(list[k] == out[i]);
                    assert(!is_above(list[list.len() - 1], list[k]));
                }
            }
        }
    } else {
        assert forall|i: int, j: int| 0 <= i < j < out.len() implies !is_above(
            #[trigger] out[j],
            #[trigger] out[i],
        ) by {
            if j < list.len() {
                assert(out[i] == list[i] && out[j] == list[j]);
            } else {
                assert(out[i] == list[i]);
                let last = list[list.len() - 1];
                assert(!is_above(p, last));
                if i < list.len() - 1 {
                    assert(!is_above(last, list[i]));
                }
                law_above_is_an_order(list[i], last, p);
            }
        }
    }
}

/// The board shows the same players, and none below one that it stands above.
pub proof fn law_ranking_sorts(players: Seq<PlayerView>)
    ensures
        is_ranked(ranking(players)),
        ranking(players).to_multiset() == players.to_multiset(),
        ranking(players).len() == players.len(),
    decreases players.len(),
{
    broadcast use vstd::seq_lib::group_to_multiset_ensures;

    if players.len() > 0 {
        let front = players.drop_last();
        law_ranking_sorts(front);
        lemma_placed(ranking(front), players.last());
        lemma_placed_is_ranked(ranking(front), players.last());
        assert(front.push(players.last()) == players);
    } else {
        assert(players =~= Seq::<PlayerView>::empty());
    }
}

/// Whether a player can be shown.
pub fn showable(p: &Player, ranks: &RankService) -> (r: bool)
    ensures
        r == is_showable(p@, ranks@),
{
    let rated = match p.rating {
        Some(x) => !x.nan(),
        None => true,
    };
    rated && (name_known(p, ranks).is_some() || text::can_shorten(p.steam_id.as_str()))
}

fn name_known(p: &Player, ranks: &RankService) -> (r: Option<String>)
    ensures
        text::opt_text(r) == known_name(p@, ranks@),
{
    let name = text::unless_blank(&p.name);
    if name.is_some() {
        return name;
    }
    text::unless_blank(&ranks.name(p.steam_id.as_str()))
}

fn rank_known(id: &str, ranks: &RankService) -> (r: RankMeta)
    ensures
        r@ == known_rank(ranks@, id@),
{
    match ranks.get(id) {
        Some(m) => m,
        None => RankMeta::default(),
    }
}

/// A player as the board shows it.
pub fn build_player_json(
    p: &Player,
    ranks: &RankService,
    entry: FormEntry,
    my_steam_id: &str,
) -> (r: PlayerJson)
    requires
        is_showable(p@, ranks@),
    ensures
        r@ == player_json(p@, ranks@, entry@, my_steam_id@),
{
    let meta = rank_known(p.steam_id.as_str(), ranks);
    let name = match name_known(p, ranks) {
        Some(n) => n,
        None => text::short_id(p.steam_id.as_str()),
    };
    let loading = meta.status == RankStatus::Loading;
    let icon = rank::rank_icon_url(meta.label.as_str());
    let (label, class, score) = if loading {
        (String::new(), "U".to_owned(), None)
    } else {
        (meta.label.clone(), rank::rank_badge_class(meta.label.as_str()).to_owned(), meta.score)
    };
    let stars = if entry.stars.is_some() {
        entry.stars
    } else {
        meta.stars
    };
    PlayerJson {
        steam_id: p.steam_id.clone(),
        name,
        rank_label: label,
        rank_score: score,
        rank_class: class,
        rank_loading: loading,
        rank_icon: icon,
        rank_progress: meta.progress,
        stars,
        side: p.side.clone(),
        kill: p.kill,
        death: p.death,
        assist: p.assist,
        adr: p.adr,
        alive: p.alive,
        is_me: text::same(p.steam_id.as_str(), my_steam_id),
        form: entry.results,
    }
}

/// Every player of a side can be shown.
pub open spec fn side_is_showable(
    players: Seq<PlayerView>,
    side: Seq<char>,
    ranks: RankModel,
) -> bool {
    forall|i: int|
        0 <= i < players.len() && (#[trigger] players[i]).side == side ==> is_showable(
            players[i],
            ranks,
        )
}

proof fn lemma_showable_side(players: Seq<PlayerView>, side: Seq<char>, ranks: RankModel)
    requires
        side_is_showable(players, side, ranks),
    ensures
        forall|i: int|
            0 <= i < on_side(players, side).len() ==> is_showable(
                #[trigger] on_side(players, side)[i],
                ranks,
            ),
    decreases players.len(),
{
    if players.len() > 0 {
        let front = players.drop_last();
        assert(side_is_showable(front, side, ranks)) by {
            assert forall|i: int|
                0 <= i < front.len() && (#[trigger] front[i]).side == side implies is_showable(
                front[i],
                ranks,
            ) by {
                assert(front[i] == players[i]);
            }
        }
        lemma_showable_side(front, side, ranks);
        assert(players.last() == players[players.len() - 1]);
        let all = on_side(players, side);
        assert forall|i: int| 0 <= i < all.len() implies is_showable(#[trigger] all[i], ranks) by {
            if i < on_side(front, side).len() {
                assert(all[i] == on_side(front, side)[i]);
            }
        }
    }
}

proof fn lemma_showable_ranking(players: Seq<PlayerView>, ranks: RankModel)
    requires
        forall|i: int| 0 <= i < players.len() ==> is_showable(#[trigger] players[i], ranks),
    ensures
        forall|i: int|
            0 <= i < ranking(players).len() ==> is_showable(#[trigger] ranking(players)[i], ranks),
    decreases players.len(),
{
    if players.len() > 0 {
        let front = players.drop_last();
        assert forall|i: int| 0 <= i < front.len() implies is_showable(#[trigger] front[i], ranks) by {
            assert(front[i] == players[i]);
        }
        lemma_showable_ranking(front, ranks);
        let inner = ranking(front);
        lemma_placed(inner, players.last());
        assert(players.last() == players[players.len() - 1]);
        let all = ranking(players);
        assert forall|i: int| 0 <= i < all.len() implies is_showable(#[trigger] all[i], ranks) by {
            if all[i] != players.last() {
                let j = choose|j: int| 0 <= j < inner.len() && inner[j] == all[i];
                assert(is_showable(inner[j], ranks));
            }
        }
    }
}

/// A side of the match as the board shows it, and the lookups of results to start; none where
/// nobody plays on the side.
pub fn build_team_json(
    m: &MatchState,
    side: &str,
    my_steam_id: &str,
    ranks: &RankService,
    forms: &mut FormService,
    now: u64,
) -> (r: Option<(TeamJson, Vec<String>)>)
    requires
        side_is_showable(m@.players, side@, ranks@),
    ensures
        ({
            let list = ranking(on_side(m@.players, side@));
            &&& match r {
                Some((team, queue)) => list.len() > 0 && team@ == team_json(
                    list,
                    side@,
                    my_steam_id@,
                    ranks@,
                    old(forms)@,
                ) && text::texts(queue@) == lookups(old(forms)@, list, now),
                None => list.len() == 0,
            }
            &&& final(forms)@ == asked_all(old(forms)@, list, now)
            &&& old(forms)@.wf() ==> final(forms)@.wf()
        }),
{
    proof {
        assert forall|i: int|
            0 <= i < m.players@.len() && (#[trigger] m.players@[i])@.side == side@ implies is_rated(
            m.players@[i]@,
        ) by {
            assert(m@.players[i] == m.players@[i]@);
        }
    }
    let players = ranked_side(&m.players, side);
    let ghost list = players_of(players@);
    let ghost start = forms@;
    proof {
        lemma_showable_side(m@.players, side@, ranks@);
        lemma_showable_ranking(on_side(m@.players, side@), ranks@);
        law_asking_shows_the_same(start, list, now, Seq::empty());
    }
    if players.len() == 0 {
        assert(list.len() == 0);
        return None;
    }
    let mut metas: Vec<RankMeta> = Vec::new();
    let mut js: Vec<PlayerJson> = Vec::new();
    let mut queue: Vec<String> = Vec::new();
    let mut i: usize = 0;
    let ghost show = |p: PlayerView|
        player_json(p, ranks@, start.answer(text::trimmed(p.steam_id)), my_steam_id@);
    let ghost grade = |p: PlayerView| known_rank(ranks@, p.steam_id);
    assert(list.take(0) == Seq::<PlayerView>::empty());
    assert(rank::ranks_of(metas@) =~= list.take(0).map_values(grade));
    assert(js@.map_values(|p: PlayerJson| p@) =~= list.take(0).map_values(show));
    assert(text::texts(queue@) =~= lookups(start, list.take(0), now));
    while i < players.len()
        invariant
            i <= players@.len(),
            list == players_of(players@),
            forall|j: int| 0 <= j < list.len() ==> is_showable(#[trigger] list[j], ranks@),
            show == (|p: PlayerView|
                player_json(p, ranks@, start.answer(text::trimmed(p.steam_id)), my_steam_id@)),
            grade == (|p: PlayerView| known_rank(ranks@, p.steam_id)),
            forms@ == asked_all(start, list.take(i as int), now),
            rank::ranks_of(metas@) == list.take(i as int).map_values(grade),
            js@.map_values(|p: PlayerJson| p@) == list.take(i as int).map_values(show),
            text::texts(queue@) == lookups(start, list.take(i as int), now),
        decreases players@.len() - i,
    {
        let p = &players[i];
        proof {
            assert(list[i as int] == p@);
            assert(list.take(i + 1).drop_last() == list.take(i as int));
            assert(list.take(i + 1).last() == p@);
            law_asking_shows_the_same(
                start,
                list.take(i as int),
                now,
                text::trimmed(p@.steam_id),
            );
        }
        let ghost metas_before = rank::ranks_of(metas@);
        let ghost js_before = js@.map_values(|p: PlayerJson| p@);
        metas.push(rank_known(p.steam_id.as_str(), ranks));
        let answer = forms.ensure(p.steam_id.as_str(), now);
        let ghost before = text::texts(queue@);
        match answer.queue {
            Some(id) => {
                queue.push(id);
                assert(text::texts(queue@) =~= before.push(id@));
            },
            None => {},
        }
        js.push(build_player_json(p, ranks, answer.entry, my_steam_id));
        proof {
            let t = list.take(i as int);
            assert(list.take(i + 1) == t.push(p@));
            assert(t.push(p@).map_values(grade) =~= t.map_values(grade).push(grade(p@)));
            assert(t.push(p@).map_values(show) =~= t.map_values(show).push(show(p@)));
            assert(rank::ranks_of(metas@) =~= metas_before.push(grade(p@)));
            assert(js@.map_values(|p: PlayerJson| p@) =~= js_before.push(show(p@)));
        }
        i += 1;
    }
    proof {
        assert(list.take(i as int) == list);
    }
    let avg_score = rank::side_avg_score(metas.as_slice());
    let name = if text::same(side, "CT") {
        "CT".to_owned()
    } else {
        "T".to_owned()
    };
    let team = TeamJson { side: side.to_owned(), name, avg_score, players: js };
    assert(team@.players =~= team_json(list, side@, my_steam_id@, ranks@, start).players);
    Some((team, queue))
}

/// The side of the first player with the id `me`; empty where nobody has it.
pub open spec fn side_of(players: Seq<PlayerView>, me: Seq<char>) -> Seq<char>
    decreases players.len(),
{
    if me.len() == 0 || players.len() == 0 {
        Seq::empty()
    } else if players.first().steam_id == me {
        players.first().side
    } else {
        side_of(players.drop_first(), me)
    }
}

/// The side on which the own account plays.
pub fn my_side_for(m: &MatchState, my_steam_id: &str) -> (r: String)
    ensures
        r@ == side_of(m@.players, my_steam_id@),
{
    if my_steam_id.is_empty() {
        return String::new();
    }
    let ghost all = m@.players;
    let mut i: usize = 0;
    assert(all.skip(0) == all);
    while i < m.players.len()
        invariant
            i <= m.players@.len(),
            all == players_of(m.players@),
            my_steam_id@.len() > 0,
            side_of(all, my_steam_id@) == side_of(all.skip(i as int), my_steam_id@),
        decreases m.players@.len() - i,
    {
        assert(all.skip(i as int).first() == m.players@[i as int]@);
        assert(all.skip(i as int).drop_first() == all.skip(i + 1));
        if text::same(m.players[i].steam_id.as_str(), my_steam_id) {
            return m.players[i].side.clone();
        }
        i += 1;
    }
    String::new()
}

/// The sides in the order in which the board shows them: the own side first.
pub open spec fn board_sides(mine: Seq<char>) -> (Seq<char>, Seq<char>) {
    if mine.len() > 0 {
        (
            mine,
            if mine == "CT"@ {
                "T"@
            } else {
                "CT"@
            },
        )
    } else {
        ("CT"@, "T"@)
    }
}

/// The teams of a match as the board shows them; a side on which nobody plays is left out.
pub open spec fn board_teams(
    m: MatchView,
    me: Seq<char>,
    ranks: RankModel,
    forms: FormModel,
) -> Seq<TeamJsonView> {
    let (first, second) = board_sides(side_of(m.players, me));
    let a = ranking(on_side(m.players, first));
    let b = ranking(on_side(m.players, second));
    (if a.len() > 0 {
        seq![team_json(a, first, me, ranks, forms)]
    } else {
        Seq::empty()
    }) + (if b.len() > 0 {
        seq![team_json(b, second, me, ranks, forms)]
    } else {
        Seq::empty()
    })
}

/// The players in the order in which a snapshot asks for their results.
pub open spec fn board_players(m: MatchView, me: Seq<char>) -> Seq<PlayerView> {
    let (first, second) = board_sides(side_of(m.players, me));
    ranking(on_side(m.players, first)) + ranking(on_side(m.players, second))
}

/// Every player on the board can be shown.
pub open spec fn is_presentable(state: AppModel, ranks: RankModel) -> bool {
    match state.match_state {
        Some(m) => {
            let (first, second) = board_sides(side_of(m.players, state.my.steam_id));
            side_is_showable(m.players, first, ranks) && side_is_showable(m.players, second, ranks)
        },
        None => true,
    }
}

/// The match as the pages show it.
pub open spec fn match_json(
    m: MatchView,
    me: Seq<char>,
    ranks: RankModel,
    forms: FormModel,
) -> MatchJsonView {
    MatchJsonView {
        match_id: m.match_id,
        map: m.map,
        ct_score: m.ct_score,
        t_score: m.t_score,
        ct_half: m.ct_half,
        t_half: m.t_half,
        my_side: side_of(m.players, me),
        teams: board_teams(m, me, ranks, forms),
    }
}

/// The snapshot of what the program knows.
pub open spec fn api_of(
    state: AppModel,
    ranks: RankModel,
    forms: FormModel,
    anim_exit: bool,
) -> ApiView {
    ApiView {
        in_match: state.match_state is Some,
        my: my_json(state.my),
        match_info: match state.match_state {
            Some(m) => Some(match_json(m, state.my.steam_id, ranks, forms)),
            None => None,
        },
        updated_at: state.updated_at,
        cfg_epoch: state.cfg_epoch,
        anim_exit,
        board_showing: state.board_showing,
        plugins: state.plugins,
    }
}

/// The players whose results a snapshot asks for.
pub open spec fn asked_for(state: AppModel) -> Seq<PlayerView> {
    match state.match_state {
        Some(m) => board_players(m, state.my.steam_id),
        None => Seq::empty(),
    }
}

fn board_sides_of(mine: &str) -> (r: (String, String))
    ensures
        (r.0@, r.1@) == board_sides(mine@),
{
    if mine.is_empty() {
        ("CT".to_owned(), "T".to_owned())
    } else if text::same(mine, "CT") {
        (mine.to_owned(), "T".to_owned())
    } else {
        (mine.to_owned(), "CT".to_owned())
    }
}

fn side_showable(players: &Vec<Player>, side: &str, ranks: &RankService) -> (r: bool)
    ensures
        r == side_is_showable(players_of(players@), side@, ranks@),
{
    let ghost all = players_of(players@);
    let mut i: usize = 0;
    while i < players.len()
        invariant
            i <= players@.len(),
            all == players_of(players@),
            forall|j: int|
                0 <= j < i && (#[trigger] all[j]).side == side@ ==> is_showable(all[j], ranks@),
        decreases players@.len() - i,
    {
        assert(all[i as int] == players@[i as int]@);
        if text::same(players[i].side.as_str(), side) && !showable(&players[i], ranks) {
            return false;
        }
        i += 1;
    }
    true
}

/// Whether every player on the board can be shown.
pub fn presentable(state: &AppState, ranks: &RankService) -> (r: bool)
    ensures
        r == is_presentable(state@, ranks@),
{
    match &state.match_state {
        Some(m) => {
            let mine = my_side_for(m, state.my.steam_id.as_str());
            let (first, second) = board_sides_of(mine.as_str());
            side_showable(&m.players, first.as_str(), ranks) && side_showable(
                &m.players,
                second.as_str(),
                ranks,
            )
        },
        None => true,
    }
}

fn build_my_json(my: &MyCard) -> (r: MyJson)
    ensures
        r@ == my_json(my@),
{
    MyJson {
        nickname: my.nickname.clone(),
        steam_id: my.steam_id.clone(),
        avatar: my.avatar.clone(),
        rank_label: my.rank_label.clone(),
        rank_score: my.rank_score,
        rank_class: rank::rank_badge_class(my.rank_label.as_str()).to_owned(),
        rank_icon: rank::rank_icon_url(my.rank_label.as_str()),
        rank_progress: match my.rank_score {
            Some(s) => rank::tier_progress(Real::of_u32(s)),
            None => Progress::Empty,
        },
        ws_status: my.ws_status.clone(),
        last_error: my.last_error.clone(),
        stats: match &my.stats {
            Some(s) => Some(
                StatsJson {
                    avg_we: s.avg_we,
                    rating_pro: s.rating_pro,
                    season_cnt: s.season_cnt,
                    adr: s.adr,
                    win_rate: s.win_rate,
                    kda: s.kda,
                    headshot_ratio: s.headshot_ratio,
                    rws: s.rws,
                    stars: s.stars,
                    season_id: s.season_id.clone(),
                    summary: s.summary.clone(),
                },
            ),
            None => None,
        },
    }
}

proof fn lemma_asked_in_two_parts(
    forms: FormModel,
    a: Seq<PlayerView>,
    b: Seq<PlayerView>,
    now: u64,
)
    ensures
        asked_all(asked_all(forms, a, now), b, now) == asked_all(forms, a + b, now),
        lookups(forms, a, now) + lookups(asked_all(forms, a, now), b, now) == lookups(
            forms,
            a + b,
            now,
        ),
    decreases b.len(),
{
    if b.len() == 0 {
        assert(a + b == a);
        assert(lookups(forms, a, now) + Seq::<Seq<char>>::empty() == lookups(forms, a, now));
    } else {
        assert((a + b).drop_last() == a + b.drop_last());
        assert((a + b).last() == b.last());
        lemma_asked_in_two_parts(forms, a, b.drop_last(), now);
        let f = asked_all(forms, a, now);
        let x = lookups(forms, a, now);
        let y = lookups(f, b.drop_last(), now);
        let id = text::trimmed(b.last().steam_id);
        assert(x + y.push(id) == (x + y).push(id));
    }
}

fn append_texts(a: Vec<String>, b: Vec<String>) -> (r: Vec<String>)
    ensures
        text::texts(r@) == text::texts(a@) + text::texts(b@),
{
    let mut out = a;
    let mut rest = b;
    out.append(&mut rest);
    assert(text::texts(out@) =~= text::texts(a@) + text::texts(b@));
    out
}

/// The same team, whether the cache was asked for players before or not.
proof fn lemma_team_after_asking(
    list: Seq<PlayerView>,
    side: Seq<char>,
    me: Seq<char>,
    ranks: RankModel,
    forms: FormModel,
    first: Seq<PlayerView>,
    now: u64,
)
    ensures
        team_json(list, side, me, ranks, asked_all(forms, first, now)) == team_json(
            list,
            side,
            me,
            ranks,
            forms,
        ),
{
    let later = asked_all(forms, first, now);
    assert forall|i: int| 0 <= i < list.len() implies later.answer(
        text::trimmed((#[trigger] list[i]).steam_id),
    ) == forms.answer(text::trimmed(list[i].steam_id)) by {
        law_asking_shows_the_same(forms, first, now, text::trimmed(list[i].steam_id));
    }
    assert(team_json(list, side, me, ranks, later).players =~= team_json(
        list,
        side,
        me,
        ranks,
        forms,
    ).players);
}

fn build_match_json(
    m: &MatchState,
    me: &str,
    ranks: &RankService,
    forms: &mut FormService,
    now: u64,
) -> (r: (MatchJson, Vec<String>))
    requires
        side_is_showable(m@.players, board_sides(side_of(m@.players, me@)).0, ranks@),
        side_is_showable(m@.players, board_sides(side_of(m@.players, me@)).1, ranks@),
    ensures
        r.0@ == match_json(m@, me@, ranks@, old(forms)@),
        text::texts(r.1@) == lookups(old(forms)@, board_players(m@, me@), now),
        final(forms)@ == asked_all(old(forms)@, board_players(m@, me@), now),
        old(forms)@.wf() ==> final(forms)@.wf(),
{
    let my_side = my_side_for(m, me);
    let (first, second) = board_sides_of(my_side.as_str());
    let ghost start = forms@;
    let ghost a = ranking(on_side(m@.players, first@));
    let ghost b = ranking(on_side(m@.players, second@));
    let mut teams: Vec<TeamJson> = Vec::new();
    let mut queue: Vec<String> = Vec::new();
    assert(text::texts(queue@) =~= Seq::<Seq<char>>::empty());
    match build_team_json(m, first.as_str(), me, ranks, forms, now) {
        Some((team, q)) => {
            teams.push(team);
            queue = q;
        },
        None => {},
    }
    proof {
        lemma_asked_in_two_parts(start, a, b, now);
        lemma_team_after_asking(b, second@, me@, ranks@, start, a, now);
    }
    match build_team_json(m, second.as_str(), me, ranks, forms, now) {
        Some((team, q)) => {
            teams.push(team);
            queue = append_texts(queue, q);
        },
        None => {
            let ghost q = text::texts(queue@);
            assert(q + Seq::<Seq<char>>::empty() == q);
        },
    }
    assert(teams@.map_values(|t: TeamJson| t@) =~= board_teams(m@, me@, ranks@, start));
    (
        MatchJson {
            match_id: m.match_id.clone(),
            map: m.map.clone(),
            ct_score: m.ct_score,
            t_score: m.t_score,
            ct_half: m.ct_half,
            t_half: m.t_half,
            my_side,
            teams,
        },
        queue,
    )
}

/// A snapshot, and the lookups of results to start.
pub struct Snapshot {
    pub api: ApiState,
    pub queue: Vec<String>,
}

/// Makes the snapshot that the pages show.
pub fn build_api_state(
    state: &AppState,
    ranks: &RankService,
    forms: &mut FormService,
    anim_exit: bool,
    now: u64,
) -> (r: Snapshot)
    requires
        is_presentable(state@, ranks@),
    ensures
        r.api@ == api_of(state@, ranks@, old(forms)@, anim_exit),
        text::texts(r.queue@) == lookups(old(forms)@, asked_for(state@), now),
        final(forms)@ == asked_all(old(forms)@, asked_for(state@), now),
        old(forms)@.wf() ==> final(forms)@.wf(),
        state.wf() ==> table::nested_wf(r.api.plugins),
{
    let my = build_my_json(&state.my);
    let mut queue: Vec<String> = Vec::new();
    assert(text::texts(queue@) =~= Seq::<Seq<char>>::empty());
    let match_info = match &state.match_state {
        Some(m) => {
            let (info, q) = build_match_json(m, state.my.steam_id.as_str(), ranks, forms, now);
            queue = q;
            Some(info)
        },
        None => None,
    };
    let api = ApiState {
        in_match: state.match_state.is_some(),
        my,
        match_info,
        updated_at: state.updated_at,
        cfg_epoch: state.cfg_epoch,
        anim_exit,
        board_showing: state.board_showing,
        plugins: state.plugins.clone(),
    };
    Snapshot { api, queue }
}

/// The pages have a match to show exactly while one is played.
pub proof fn law_match_is_shown(
    state: AppModel,
    ranks: RankModel,
    forms: FormModel,
    anim_exit: bool,
)
    ensures
        api_of(state, ranks, forms, anim_exit).in_match <==> api_of(
            state,
            ranks,
            forms,
            anim_exit,
        ).match_info is Some,
        api_of(state, ranks, forms, anim_exit).in_match <==> state.match_state is Some,
{
}

proof fn lemma_side_has_player(players: Seq<PlayerView>, i: int)
    requires
        0 <= i < players.len(),
    ensures
        on_side(players, players[i].side).len() > 0,
    decreases players.len(),
{
    if i < players.len() - 1 {
        assert(players.drop_last()[i] == players[i]);
        lemma_side_has_player(players.drop_last(), i);
    } else {
        assert(players.last() == players[i]);
    }
}

proof fn lemma_side_is_of_a_player(players: Seq<PlayerView>, me: Seq<char>)
    requires
        side_of(players, me).len() > 0,
    ensures
        exists|i: int|
            0 <= i < players.len() && (#[trigger] players[i]).steam_id == me && players[i].side
                == side_of(players, me),
    decreases players.len(),
{
    if players.first().steam_id != me {
        let rest = players.drop_first();
        lemma_side_is_of_a_player(rest, me);
        let j = choose|j: int|
            0 <= j < rest.len() && (#[trigger] rest[j]).steam_id == me && rest[j].side == side_of(
                rest,
                me,
            );
        assert(players[j + 1] == rest[j]);
    } else {
        assert(players[0].steam_id == me);
    }
}

/// Where the own account plays on a side, its team comes first on the board.
pub proof fn law_own_side_comes_first(
    m: MatchView,
    me: Seq<char>,
    ranks: RankModel,
    forms: FormModel,
)
    requires
        side_of(m.players, me).len() > 0,
    ensures
        board_teams(m, me, ranks, forms).len() > 0,
        board_teams(m, me, ranks, forms)[0].side == side_of(m.players, me),
{
    lemma_side_is_of_a_player(m.players, me);
    let side = side_of(m.players, me);
    let i = choose|i: int|
        0 <= i < m.players.len() && (#[trigger] m.players[i]).steam_id == me && m.players[i].side
            == side;
    lemma_side_has_player(m.players, i);
    law_ranking_sorts(on_side(m.players, side));
}

/// Taking a second snapshot at once starts no lookup and shows the same.
pub proof fn law_second_snapshot_is_quiet(
    state: AppModel,
    ranks: RankModel,
    forms: FormModel,
    anim_exit: bool,
    now: u64,
)
    ensures
        lookups(asked_all(forms, asked_for(state), now), asked_for(state), now) == Seq::<
            Seq<char>,
        >::empty(),
        api_of(state, ranks, asked_all(forms, asked_for(state), now), anim_exit) == api_of(
            state,
            ranks,
            forms,
            anim_exit,
        ),
{
    let list = asked_for(state);
    let later = asked_all(forms, list, now);
    lemma_all_asked(forms, list, now);
    lemma_nothing_left(later, list, now);
    match state.match_state {
        Some(m) => {
            let me = state.my.steam_id;
            let (first, second) = board_sides(side_of(m.players, me));
            let a = ranking(on_side(m.players, first));
            let b = ranking(on_side(m.players, second));
            lemma_team_after_asking(a, first, me, ranks, forms, list, now);
            lemma_team_after_asking(b, second, me, ranks, forms, list, now);
            assert(board_teams(m, me, ranks, later) == board_teams(m, me, ranks, forms));
        },
        None => {},
    }
}

proof fn lemma_all_asked(forms: FormModel, list: Seq<PlayerView>, now: u64)
    ensures
        forall|i: int|
            0 <= i < list.len() ==> !asked_all(forms, list, now).must_queue(
                text::trimmed((#[trigger] list[i]).steam_id),
                now,
            ),
    decreases list.len(),
{
    if list.len() > 0 {
        let front = list.drop_last();
        lemma_all_asked(forms, front, now);
        let f = asked_all(forms, front, now);
        let last = text::trimmed(list.last().steam_id);
        assert forall|i: int| 0 <= i < list.len() implies !asked_all(forms, list, now).must_queue(
            text::trimmed((#[trigger] list[i]).steam_id),
            now,
        ) by {
            let id = text::trimmed(list[i].steam_id);
            if i < front.len() {
                assert(front[i] == list[i]);
            }
            if id == last {
                if f.must_queue(id, now) {
                    form::law_queued_once(f, id, now, now);
                }
            } else {
                form::law_question_is_local(f, last, id, now);
            }
        }
    }
}

proof fn lemma_nothing_left(forms: FormModel, list: Seq<PlayerView>, now: u64)
    requires
        forall|i: int|
            0 <= i < list.len() ==> !forms.must_queue(
                text::trimmed((#[trigger] list[i]).steam_id),
                now,
            ),
    ensures
        lookups(forms, list, now) == Seq::<Seq<char>>::empty(),
        asked_all(forms, list, now) == forms,
    decreases list.len(),
{
    if list.len() > 0 {
        let front = list.drop_last();
        assert forall|i: int| 0 <= i < front.len() implies !forms.must_queue(
            text::trimmed((#[trigger] front[i]).steam_id),
            now,
        ) by {
            assert(front[i] == list[i]);
        }
        lemma_nothing_left(forms, front, now);
        assert(list.last() == list[list.len() - 1]);
    }
}

/// A team on the board shows every player of the match on that side, each as often as in the match
/// and nobody else, whatever else is known of them.
pub proof fn law_team_is_everybody_on_the_side(players: Seq<PlayerView>, side: Seq<char>)
    ensures
        on_side(players, side) == players.filter(|p: PlayerView| p.side == side),
        ranking(on_side(players, side)).to_multiset() == players.filter(
            |p: PlayerView| p.side == side,
        ).to_multiset(),
        ranking(on_side(players, side)).len() == players.filter(
            |p: PlayerView| p.side == side,
        ).len(),
{
    lemma_on_side(players, side);
    law_ranking_sorts(on_side(players, side));
}

proof fn lemma_on_side(players: Seq<PlayerView>, side: Seq<char>)
    ensures
        on_side(players, side) == players.filter(|p: PlayerView| p.side == side),
    decreases players.len(),
{
    reveal(Seq::filter);
    if players.len() > 0 {
        lemma_on_side(players.drop_last(), side);
    } else {
        assert(on_side(players, side) =~= players.filter(|p: PlayerView| p.side == side));
    }
}

/// The board goes by the rating: of two players with different ratings the higher one stands
/// above. Without a rating a player counts as minus one.
pub proof fn law_higher_rating_stands_above(a: PlayerView, b: PlayerView, x: Real, y: Real)
    requires
        x.is_finite(),
        y.is_finite(),
        a.rating == Some(x) || (a.rating is None && x.scaled() == -number::unit()),
        b.rating == Some(y) || (b.rating is None && y.scaled() == -number::unit()),
        x.scaled() > y.scaled(),
    ensures
        is_above(a, b),
        !is_above(b, a),
{
    number::law_order_is_numeric(x, y);
    lemma_minus_one();
    let m = Real { bits: NO_RATING };
    number::law_order_is_numeric(x, m);
    number::law_order_is_numeric(y, m);
}

proof fn lemma_minus_one()
    ensures
        (Real { bits: NO_RATING }).scaled() == -number::unit(),
        (Real { bits: NO_RATING }).is_finite(),
{
    number::law_exponent_doubles(0x3FF0_0000_0000_0000);
    number::law_sign_negates(0x3FF0_0000_0000_0000);
    assert((0x3FF0_0000_0000_0000u64 + 0x8000_0000_0000_0000u64) as u64 == 0xBFF0_0000_0000_0000u64);
}

/// Among players of the same rating more kills stand above, among those fewer deaths, and among
/// those the smaller id.
pub proof fn law_same_rating_goes_by_kills(a: PlayerView, b: PlayerView)
    requires
        a.rating == b.rating,
    ensures
        a.kill > b.kill ==> is_above(a, b) && !is_above(b, a),
        a.kill == b.kill && a.death < b.death ==> is_above(a, b) && !is_above(b, a),
        a.kill == b.kill && a.death == b.death ==> (is_above(a, b) <==> text::is_before(
            a.steam_id,
            b.steam_id,
        )),
{
}

/// A team on the board shows its list player by player: who it is, on which side, and the numbers
/// of the match as they came.
pub proof fn law_team_shows_its_players(
    list: Seq<PlayerView>,
    side: Seq<char>,
    me: Seq<char>,
    ranks: RankModel,
    forms: FormModel,
    i: int,
)
    requires
        0 <= i < list.len(),
    ensures
        ({
            let team = team_json(list, side, me, ranks, forms);
            let p = team.players[i];
            &&& team.side == side
            &&& team.players.len() == list.len()
            &&& p.steam_id == list[i].steam_id
            &&& p.side == list[i].side
            &&& p.kill == list[i].kill
            &&& p.death == list[i].death
            &&& p.assist == list[i].assist
            &&& p.adr == list[i].adr
            &&& p.alive == list[i].alive
            &&& p.form == forms.answer(text::trimmed(list[i].steam_id)).results
            &&& p.is_me <==> list[i].steam_id == me
        }),
        team_json(list, "CT"@, me, ranks, forms).name == "CT"@,
        team_json(list, "T"@, me, ranks, forms).name == "T"@,
{
    reveal_strlit("CT");
    reveal_strlit("T");
    assert("CT"@.len() == 2 && "T"@.len() == 1);
}

/// A player is called by the nickname of the match; where that is missing by the one of the cache,
/// and where that is missing too by the last eight characters of the id.
pub proof fn law_player_is_called_by_name(
    p: PlayerView,
    ranks: RankModel,
    form: FormEntryView,
    me: Seq<char>,
    name: Seq<char>,
)
    ensures
        p.name == Some(name) && !text::all_white(name) ==> player_json(p, ranks, form, me).name
            == name,
        (p.name is None || text::all_white(p.name->0)) && ranks.nickname(text::trimmed(p.steam_id))
            == Some(name) && !text::all_white(name) ==> player_json(p, ranks, form, me).name == name,
        (p.name is None || text::all_white(p.name->0)) && ranks.nickname(
            text::trimmed(p.steam_id),
        ) is None && vstd::utf8::is_ascii_chars(p.steam_id) && p.steam_id.len() > 8 ==> player_json(
            p,
            ranks,
            form,
            me,
        ).name == p.steam_id.skip(p.steam_id.len() - 8),
        (p.name is None || text::all_white(p.name->0)) && ranks.nickname(
            text::trimmed(p.steam_id),
        ) is None && vstd::utf8::is_ascii_chars(p.steam_id) && p.steam_id.len() <= 8 ==> player_json(
            p,
            ranks,
            form,
            me,
        ).name == p.steam_id,
{
    text::lemma_all_white_trims(name);
    if p.name is Some {
        text::lemma_all_white_trims(p.name->0);
    }
    if vstd::utf8::is_ascii_chars(p.steam_id) {
        text::law_short_form_of_ascii(p.steam_id);
    }
}

/// A player whose rank is known shows its label, score, badge and ring; one whose lookup is under
/// way or was not started shows none of them.
pub proof fn law_player_shows_the_known_rank(
    p: PlayerView,
    ranks: RankModel,
    form: FormEntryView,
    me: Seq<char>,
    meta: RankMetaView,
)
    ensures
        ranks.rank(text::trimmed(p.steam_id)) == Some(meta) && meta.status != RankStatus::Loading ==> ({
            let j = player_json(p, ranks, form, me);
            &&& !j.rank_loading
            &&& j.rank_label == meta.label
            &&& j.rank_score == meta.score
            &&& j.rank_class == rank::badge_of(rank::plain_label(meta.label))
            &&& j.rank_icon == rank::icon_of(rank::plain_label(meta.label))
            &&& j.rank_progress == meta.progress
            &&& form.stars is None ==> j.stars == meta.stars
            &&& form.stars is Some ==> j.stars == form.stars
        }),
        ranks.rank(text::trimmed(p.steam_id)) is None || (ranks.rank(text::trimmed(p.steam_id))
            == Some(meta) && meta.status == RankStatus::Loading) ==> ({
            let j = player_json(p, ranks, form, me);
            &&& j.rank_loading
            &&& j.rank_label.len() == 0
            &&& j.rank_score is None
            &&& j.rank_class == "U"@
        }),
{
}

/// A team's average is that of the ranks that are known of its players.
pub proof fn law_team_average_is_of_its_players(
    list: Seq<PlayerView>,
    side: Seq<char>,
    me: Seq<char>,
    ranks: RankModel,
    forms: FormModel,
    metas: Seq<RankMetaView>,
)
    requires
        metas.len() == list.len(),
        forall|i: int|
            0 <= i < list.len() ==> ranks.rank(text::trimmed(#[trigger] list[i].steam_id)) == Some(
                metas[i],
            ),
    ensures
        team_json(list, side, me, ranks, forms).avg_score == rank::average_of(metas),
{
    assert(list.map_values(|p: PlayerView| known_rank(ranks, p.steam_id)) =~= metas);
}

/// The own side is the side of the first player with the own id; without such a player there is
/// none.
pub proof fn law_own_side_is_that_of_the_own_player(players: Seq<PlayerView>, me: Seq<char>, i: int)
    requires
        me.len() > 0,
    ensures
        0 <= i < players.len() && players[i].steam_id == me && (forall|j: int|
            0 <= j < i ==> (#[trigger] players[j]).steam_id != me) ==> side_of(players, me)
            == players[i].side,
        (forall|j: int| 0 <= j < players.len() ==> (#[trigger] players[j]).steam_id != me)
            ==> side_of(players, me).len() == 0,
    decreases players.len(),
{
    if players.len() > 0 {
        let rest = players.drop_first();
        assert(players.first() == players[0]);
        law_own_side_is_that_of_the_own_player(rest, me, i - 1);
        assert forall|j: int| 0 <= j < rest.len() implies (#[trigger] rest[j]) == players[j + 1] by {
        }
        if 0 < i < players.len() && players[i].steam_id == me && (forall|j: int|
            0 <= j < i ==> (#[trigger] players[j]).steam_id != me) {
            assert(players[0].steam_id != me);
            assert(rest[i - 1] == players[i]);
            assert forall|j: int| 0 <= j < i - 1 implies (#[trigger] rest[j]).steam_id != me by {
                assert(players[j + 1].steam_id != me);
            }
        }
        if forall|j: int| 0 <= j < players.len() ==> (#[trigger] players[j]).steam_id != me {
            assert(players[0].steam_id != me);
            assert forall|j: int| 0 <= j < rest.len() implies (#[trigger] rest[j]).steam_id != me by {
                assert(players[j + 1].steam_id != me);
            }
        }
    }
}

/// Every player on one of the two sides is on the board, in the team of that side, with the
/// numbers of the match.
pub proof fn law_board_shows_everybody(
    m: MatchView,
    me: Seq<char>,
    ranks: RankModel,
    forms: FormModel,
    i: int,
)
    requires
        0 <= i < m.players.len(),
        m.players[i].side == "CT"@ || m.players[i].side == "T"@,
        side_of(m.players, me).len() == 0 || side_of(m.players, me) == "CT"@ || side_of(
            m.players,
            me,
        ) == "T"@,
    ensures
        exists|t: int, j: int|
            0 <= t < board_teams(m, me, ranks, forms).len() && 0 <= j < board_teams(
                m,
                me,
                ranks,
                forms,
            )[t].players.len() && board_teams(m, me, ranks, forms)[t].side == m.players[i].side
                && shows(#[trigger] board_teams(m, me, ranks, forms)[t].players[j], m.players[i]),
        board_teams(m, me, ranks, forms).len() <= 2,
{
    let side = m.players[i].side;
    let list = ranking(on_side(m.players, side));
    reveal_strlit("CT");
    reveal_strlit("T");
    assert("CT"@.len() == 2 && "T"@.len() == 1);
    law_team_is_everybody_on_the_side(m.players, side);
    broadcast use vstd::seq_lib::group_to_multiset_ensures;

    broadcast use vstd::seq_lib::group_filter_ensures;

    let those = m.players.filter(|p: PlayerView| p.side == side);
    assert(those.contains(m.players[i]));
    assert(list.to_multiset().count(m.players[i]) > 0);
    assert(list.contains(m.players[i]));
    let j = choose|j: int| 0 <= j < list.len() && list[j] == m.players[i];
    let teams = board_teams(m, me, ranks, forms);
    let team = team_json(list, side, me, ranks, forms);
    assert(shows(team.players[j], m.players[i]));
    let (first, second) = board_sides(side_of(m.players, me));
    assert(side == first || side == second);
    let a = ranking(on_side(m.players, first));
    if side == first {
        assert(teams[0] == team);
        assert(shows(teams[0].players[j], m.players[i]));
    } else if a.len() > 0 {
        assert(teams[1] == team);
        assert(shows(teams[1].players[j], m.players[i]));
    } else {
        assert(teams[0] == team);
        assert(shows(teams[0].players[j], m.players[i]));
    }
}

/// An entry of the board is that of a player of the match.
pub open spec fn shows(shown: PlayerJsonView, p: PlayerView) -> bool {
    &&& shown.steam_id == p.steam_id
    &&& shown.side == p.side
    &&& shown.kill == p.kill
    &&& shown.death == p.death
    &&& shown.assist == p.assist
    &&& shown.alive == p.alive
}

/// The own team comes first and the other second; without an own side the counter-terrorists come
/// first.
pub proof fn law_teams_stand_in_order(
    m: MatchView,
    me: Seq<char>,
    ranks: RankModel,
    forms: FormModel,
)
    requires
        exists|i: int| 0 <= i < m.players.len() && (#[trigger] m.players[i]).side == "CT"@,
        exists|i: int| 0 <= i < m.players.len() && (#[trigger] m.players[i]).side == "T"@,
        side_of(m.players, me).len() == 0 || side_of(m.players, me) == "CT"@ || side_of(
            m.players,
            me,
        ) == "T"@,
    ensures
        board_teams(m, me, ranks, forms).len() == 2,
        side_of(m.players, me) == "T"@ ==> board_teams(m, me, ranks, forms)[0].side == "T"@
            && board_teams(m, me, ranks, forms)[1].side == "CT"@,
        side_of(m.players, me) != "T"@ ==> board_teams(m, me, ranks, forms)[0].side == "CT"@
            && board_teams(m, me, ranks, forms)[1].side == "T"@,
{
    reveal_strlit("CT");
    reveal_strlit("T");
    assert("CT"@.len() == 2 && "T"@.len() == 1);
    let i = choose|i: int| 0 <= i < m.players.len() && (#[trigger] m.players[i]).side == "CT"@;
    let j = choose|i: int| 0 <= i < m.players.len() && (#[trigger] m.players[i]).side == "T"@;
    lemma_side_has_player(m.players, i);
    lemma_side_has_player(m.players, j);
    law_ranking_sorts(on_side(m.players, "CT"@));
    law_ranking_sorts(on_side(m.players, "T"@));
}

/// The pages show the own card as it is, with the badge of its label and, as far as there is a
/// score, the ring of that score.
pub proof fn law_card_is_shown_as_it_is(my: CardView, n: u32, x: Real)
    requires
        x.is_finite(),
        x.bits < number::SIGN,
        x.scaled() == n * number::unit(),
    ensures
        my_json(my).nickname == my.nickname,
        my_json(my).steam_id == my.steam_id,
        my_json(my).avatar == my.avatar,
        my_json(my).rank_label == my.rank_label,
        my_json(my).rank_score == my.rank_score,
        my_json(my).rank_class == rank::badge_of(rank::plain_label(my.rank_label)),
        my_json(my).rank_icon == rank::icon_of(rank::plain_label(my.rank_label)),
        my_json(my).ws_status == my.ws_status,
        my_json(my).last_error == my.last_error,
        my_json(my).stats == my.stats,
        my.rank_score == Some(n) ==> my_json(my).rank_progress == rank::progress_of(x),
        my.rank_score is None ==> my_json(my).rank_progress == Progress::Empty,
{
    let w = number::whole(n);
    assert(w.is_finite() && w.bits < number::SIGN && w.scaled() == n * number::unit());
    number::law_order_is_numeric(w, x);
}

/// The snapshot holds what is known: the match and its scores, the settings of the pages and what
/// the plugins found.
pub proof fn law_snapshot_holds_what_is_known(
    state: AppModel,
    ranks: RankModel,
    forms: FormModel,
    anim_exit: bool,
)
    ensures
        ({
            let api = api_of(state, ranks, forms, anim_exit);
            &&& api.my == my_json(state.my)
            &&& api.updated_at == state.updated_at
            &&& api.cfg_epoch == state.cfg_epoch
            &&& api.anim_exit == anim_exit
            &&& api.board_showing == state.board_showing
            &&& api.plugins == state.plugins
            &&& state.match_state matches Some(m) ==> (api.match_info matches Some(shown)
                && shown.match_id == m.match_id && shown.map == m.map && shown.ct_score
                == m.ct_score && shown.t_score == m.t_score && shown.ct_half == m.ct_half
                && shown.t_half == m.t_half && shown.my_side == side_of(
                m.players,
                state.my.steam_id,
            ) && shown.teams == board_teams(m, state.my.steam_id, ranks, forms))
        }),
{
}

/// Asking for the players of a list starts a lookup of exactly those whose results are missing or
/// too old, once each.
pub proof fn law_every_missing_result_is_looked_up(
    forms: FormModel,
    list: Seq<PlayerView>,
    now: u64,
    id: Seq<char>,
)
    ensures
        lookups(forms, list, now).contains(id) <==> forms.must_queue(id, now) && exists|i: int|
            0 <= i < list.len() && text::trimmed((#[trigger] list[i]).steam_id) == id,
        lookups(forms, list, now).no_duplicates(),
{
    lemma_lookups(forms, list, now);
}

proof fn lemma_lookups(forms: FormModel, list: Seq<PlayerView>, now: u64)
    ensures
        forall|id: Seq<char>| #[trigger]
            lookups(forms, list, now).contains(id) <==> forms.must_queue(id, now) && exists|i: int|
                0 <= i < list.len() && text::trimmed((#[trigger] list[i]).steam_id) == id,
        forall|id: Seq<char>| #[trigger]
            asked_all(forms, list, now).must_queue(id, now) <==> forms.must_queue(id, now) && !(
            exists|i: int|
                0 <= i < list.len() && text::trimmed((#[trigger] list[i]).steam_id) == id),
        lookups(forms, list, now).no_duplicates(),
    decreases list.len(),
{
    if list.len() > 0 {
        let front = list.drop_last();
        let last = text::trimmed(list.last().steam_id);
        let asked = asked_all(forms, front, now);
        let before = lookups(forms, front, now);
        lemma_lookups(forms, front, now);
        assert(list[list.len() - 1] == list.last());
        assert forall|id: Seq<char>|
            (exists|i: int|
                0 <= i < list.len() && text::trimmed((#[trigger] list[i]).steam_id) == id) <==> id
                == last || #[trigger] named_in(front, id) by {
            if exists|i: int|
                0 <= i < list.len() && text::trimmed((#[trigger] list[i]).steam_id) == id {
                let i = choose|i: int|
                    0 <= i < list.len() && text::trimmed((#[trigger] list[i]).steam_id) == id;
                if i < front.len() {
                    assert(front[i] == list[i]);
                }
            }
            if named_in(front, id) {
                let i = choose|i: int|
                    0 <= i < front.len() && text::trimmed((#[trigger] front[i]).steam_id) == id;
                assert(list[i] == front[i]);
            }
            if id == last {
                assert(text::trimmed(list[list.len() - 1].steam_id) == id);
            }
        }
        if asked.must_queue(last, now) {
            form::law_queued_once(asked, last, now, now);
            assert(!named_in(front, last));
            assert(!before.contains(last));
            let all = before.push(last);
            assert(lookups(forms, list, now) == all);
            assert forall|id: Seq<char>| #[trigger] all.contains(id) <==> id == last
                || before.contains(id) by {
                if before.contains(id) {
                    let k = choose|k: int| 0 <= k < before.len() && before[k] == id;
                    assert(all[k] == id);
                }
                if id == last {
                    assert(all[before.len() as int] == id);
                }
                if all.contains(id) && id != last {
                    let k = choose|k: int| 0 <= k < all.len() && all[k] == id;
                    assert(before[k] == id);
                }
            }
        }
        assert forall|id: Seq<char>| #[trigger]
            lookups(forms, list, now).contains(id) <==> forms.must_queue(id, now) && exists|i: int|
                0 <= i < list.len() && text::trimmed((#[trigger] list[i]).steam_id) == id by {
            assert(before.contains(id) <==> forms.must_queue(id, now) && named_in(front, id));
            assert(asked.must_queue(last, now) <==> forms.must_queue(last, now) && !named_in(
                front,
                last,
            ));
        }
        assert forall|id: Seq<char>| #[trigger]
            asked_all(forms, list, now).must_queue(id, now) <==> forms.must_queue(id, now) && !(
            exists|i: int|
                0 <= i < list.len() && text::trimmed((#[trigger] list[i]).steam_id) == id) by {
            assert(asked.must_queue(id, now) <==> forms.must_queue(id, now) && !named_in(front, id));
            if id != last {
                form::law_question_is_local(asked, last, id, now);
            } else if asked.must_queue(last, now) {
                form::law_queued_once(asked, last, now, now);
            }
        }
    } else {
        assert(lookups(forms, list, now) =~= Seq::<Seq<char>>::empty());
    }
}

spec fn named_in(list: Seq<PlayerView>, id: Seq<char>) -> bool {
    exists|i: int| 0 <= i < list.len() && text::trimmed((#[trigger] list[i]).steam_id) == id
}

/// A player can be shown who has a nickname or an id in ASCII, and whose rating, where there is
/// one, is a number; a match of such players can be presented.
pub proof fn law_ordinary_players_can_be_shown(state: AppModel, ranks: RankModel, p: PlayerView)
    ensures
        (p.rating is None || !(p.rating->0).is_nan()) && (vstd::utf8::is_ascii_chars(p.steam_id) || (
        p.name is Some && !text::all_white(p.name->0))) ==> is_showable(p, ranks),
        state.match_state is None ==> is_presentable(state, ranks),
        state.match_state matches Some(m) ==> ((forall|i: int|
            0 <= i < m.players.len() ==> is_showable(#[trigger] m.players[i], ranks))
            ==> is_presentable(state, ranks)),
{
    if vstd::utf8::is_ascii_chars(p.steam_id) {
        text::law_short_form_of_ascii(p.steam_id);
    }
    if p.name is Some {
        text::lemma_all_white_trims(p.name->0);
    }
}

/// A snapshot asks for the results of every player that it shows.
pub proof fn law_snapshot_asks_for_everybody(state: AppModel, m: MatchView, i: int)
    requires
        state.match_state == Some(m),
        0 <= i < m.players.len(),
        m.players[i].side == "CT"@ || m.players[i].side == "T"@,
        side_of(m.players, state.my.steam_id).len() == 0 || side_of(m.players, state.my.steam_id)
            == "CT"@ || side_of(m.players, state.my.steam_id) == "T"@,
    ensures
        asked_for(state).contains(m.players[i]),
{
    broadcast use vstd::seq_lib::group_to_multiset_ensures;
    broadcast use vstd::seq_lib::group_filter_ensures;

    reveal_strlit("CT");
    reveal_strlit("T");
    assert("CT"@.len() == 2 && "T"@.len() == 1);
    let side = m.players[i].side;
    let list = ranking(on_side(m.players, side));
    law_team_is_everybody_on_the_side(m.players, side);
    let those = m.players.filter(|p: PlayerView| p.side == side);
    assert(those.contains(m.players[i]));
    assert(list.to_multiset().count(m.players[i]) > 0);
    assert(list.contains(m.players[i]));
    let j = choose|j: int| 0 <= j < list.len() && list[j] == m.players[i];
    let (first, second) = board_sides(side_of(m.players, state.my.steam_id));
    let a = ranking(on_side(m.players, first));
    let all = asked_for(state);
    if side == first {
        assert(all[j] == m.players[i]);
    } else {
        assert(all[a.len() + j] == m.players[i]);
    }
}

} // verus!
