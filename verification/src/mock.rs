//! Placeholder data: an account and a match that come and go, without any question to the
//! platform.

use crate::form::{FormModel, FormService};
use crate::number::Real;
use crate::rank::{EntryView, RankModel, RankService};
use crate::state::{
    AppModel, AppState, CardView, MatchState, MatchView, MyCard, Player, PlayerStats, PlayerView,
    StatsView,
};
use crate::wmpvp::{Score, User};
use crate::{form, number, rank, state, text};
use vstd::prelude::*;
use vstd::string::*;

verus! {

/// A made-up player.
pub struct RosterEntry {
    pub suffix: String,
    pub nick: String,
    pub score: u32,
    pub form: Vec<bool>,
    /// The bits of the damage per round.
    pub adr: u64,
    /// The bits of the rating.
    pub rating: u64,
}

/// A made-up player, by characters.
pub struct RosterView {
    pub suffix: Seq<char>,
    pub nick: Seq<char>,
    pub score: u32,
    pub form: Seq<bool>,
    pub adr: u64,
    pub rating: u64,
}

impl View for RosterEntry {
    type V = RosterView;

    open spec fn view(&self) -> RosterView {
        RosterView {
            suffix: self.suffix@,
            nick: self.nick@,
            score: self.score,
            form: self.form@,
            adr: self.adr,
            rating: self.rating,
        }
    }
}

/// Made-up players, by characters.
pub open spec fn roster_views(v: Seq<RosterEntry>) -> Seq<RosterView> {
    v.map_values(|e: RosterEntry| e@)
}

/// The made-up players: five on each side, of all tiers. The damage per round falls from 95 in
/// steps of 6.5, the rating from 1.5 in steps of 0.1.
pub open spec fn the_roster() -> Seq<RosterView> {
    seq![
        RosterView {
            suffix: "00000011"@,
            nick: "调试玩家"@,
            score: 2100,
            form: seq![true, false, true, true, false],
            adr: 0x4057_C000_0000_0000,
            rating: 0x3FF8_0000_0000_0000,
        },
        RosterView {
            suffix: "00000012"@,
            nick: "AceKiller"@,
            score: 1960,
            form: seq![true, true, true, false, true],
            adr: 0x4056_2000_0000_0000,
            rating: 0x3FF6_6666_6666_6666,
        },
        RosterView {
            suffix: "00000013"@,
            nick: "BananaPeel"@,
            score: 1680,
            form: seq![false, true, false, true, true],
            adr: 0x4054_8000_0000_0000,
            rating: 0x3FF4_CCCC_CCCC_CCCD,
        },
        RosterView {
            suffix: "00000014"@,
            nick: "CobraStrike"@,
            score: 1560,
            form: seq![true, false, false, true, false],
            adr: 0x4052_E000_0000_0000,
            rating: 0x3FF3_3333_3333_3333,
        },
        RosterView {
            suffix: "00000015"@,
            nick: "Dust2Daddy"@,
            score: 1240,
            form: seq![false, false, true, false, true],
            adr: 0x4051_4000_0000_0000,
            rating: 0x3FF1_9999_9999_999A,
        },
        RosterView {
            suffix: "00000021"@,
            nick: "EcoWarrior"@,
            score: 2460,
            form: seq![true, true, false, true, true],
            adr: 0x404F_4000_0000_0000,
            rating: 0x3FF0_0000_0000_0000,
        },
        RosterView {
            suffix: "00000022"@,
            nick: "FlashMaster"@,
            score: 2520,
            form: seq![true, true, true, true, false],
            adr: 0x404C_0000_0000_0000,
            rating: 0x3FEC_CCCC_CCCC_CCCC,
        },
        RosterView {
            suffix: "00000023"@,
            nick: "GhostPeek"@,
            score: 1050,
            form: seq![false, true, true, false, false],
            adr: 0x4048_C000_0000_0000,
            rating: 0x3FE9_9999_9999_9999,
        },
        RosterView {
            suffix: "00000024"@,
            nick: "HeadshotHz"@,
            score: 980,
            form: seq![true, false, true, false, false],
            adr: 0x4045_8000_0000_0000,
            rating: 0x3FE6_6666_6666_6666,
        },
        RosterView {
            suffix: "00000025"@,
            nick: "IGL_站桩"@,
            score: 1250,
            form: seq![false, false, false, true, false],
            adr: 0x4042_4000_0000_0000,
            rating: 0x3FE3_3333_3333_3333,
        },
    ]
}

fn add_entry(
    out: &mut Vec<RosterEntry>,
    suffix: &str,
    nick: &str,
    score: u32,
    form: Vec<bool>,
    adr: u64,
    rating: u64,
)
    ensures
        roster_views(final(out)@) == roster_views(old(out)@).push(
            RosterView { suffix: suffix@, nick: nick@, score, form: form@, adr, rating },
        ),
{
    let ghost before = roster_views(out@);
    let e = RosterEntry {
        suffix: suffix.to_owned(),
        nick: nick.to_owned(),
        score,
        form,
        adr,
        rating,
    };
    let ghost v = e@;
    out.push(e);
    assert(roster_views(out@) =~= before.push(v));
}

/// Lists the made-up players.
pub fn roster() -> (r: Vec<RosterEntry>)
    ensures
        roster_views(r@) == the_roster(),
        r@.len() == 10,
{
    let mut out: Vec<RosterEntry> = Vec::new();
    assert(roster_views(out@) =~= Seq::<RosterView>::empty());
    add_entry(
        &mut out,
        "00000011",
        "调试玩家",
        2100,
        vec![true, false, true, true, false],
        0x4057_C000_0000_0000,
        0x3FF8_0000_0000_0000,
    );
    add_entry(
        &mut out,
        "00000012",
        "AceKiller",
        1960,
        vec![true, true, true, false, true],
        0x4056_2000_0000_0000,
        0x3FF6_6666_6666_6666,
    );
    add_entry(
        &mut out,
        "00000013",
        "BananaPeel",
        1680,
        vec![false, true, false, true, true],
        0x4054_8000_0000_0000,
        0x3FF4_CCCC_CCCC_CCCD,
    );
    add_entry(
        &mut out,
        "00000014",
        "CobraStrike",
        1560,
        vec![true, false, false, true, false],
        0x4052_E000_0000_0000,
        0x3FF3_3333_3333_3333,
    );
    add_entry(
        &mut out,
        "00000015",
        "Dust2Daddy",
        1240,
        vec![false, false, true, false, true],
        0x4051_4000_0000_0000,
        0x3FF1_9999_9999_999A,
    );
    add_entry(
        &mut out,
        "00000021",
        "EcoWarrior",
        2460,
        vec![true, true, false, true, true],
        0x404F_4000_0000_0000,
        0x3FF0_0000_0000_0000,
    );
    add_entry(
        &mut out,
        "00000022",
        "FlashMaster",
        2520,
        vec![true, true, true, true, false],
        0x404C_0000_0000_0000,
        0x3FEC_CCCC_CCCC_CCCC,
    );
    add_entry(
        &mut out,
        "00000023",
        "GhostPeek",
        1050,
        vec![false, true, true, false, false],
        0x4048_C000_0000_0000,
        0x3FE9_9999_9999_9999,
    );
    add_entry(
        &mut out,
        "00000024",
        "HeadshotHz",
        980,
        vec![true, false, true, false, false],
        0x4045_8000_0000_0000,
        0x3FE6_6666_6666_6666,
    );
    add_entry(
        &mut out,
        "00000025",
        "IGL_站桩",
        1250,
        vec![false, false, false, true, false],
        0x4042_4000_0000_0000,
        0x3FE3_3333_3333_3333,
    );
    assert(roster_views(out@) =~= the_roster());
    assert(roster_views(out@).len() == out@.len());
    out
}

/// The id of a made-up player.
pub open spec fn made_up_id(suffix: Seq<char>) -> Seq<char> {
    "7656119"@ + suffix
}

/// Makes up the id of a player.
pub fn sid_of(suffix: &str) -> (r: String)
    ensures
        r@ == made_up_id(suffix@),
{
    let mut out = "7656119".to_owned();
    out.append(suffix);
    out
}

/// The id of a player in the match: the first is the own account.
pub open spec fn id_at(i: int, me: Seq<char>) -> Seq<char> {
    if i == 0 {
        me
    } else {
        made_up_id(the_roster()[i].suffix)
    }
}

/// A number that looks like chance, one for each round.
pub open spec fn shuffled(round: u32) -> u32 {
    round.wrapping_mul(2_654_435_761)
}

/// The player that is of an elite tier in a round; never one of the two of the top tier.
pub open spec fn elite_index(round: u32) -> int {
    let j = shuffled(round) as int % 8;
    if j >= 5 {
        j + 2
    } else {
        j
    }
}

/// The score of that player.
pub open spec fn elite_score(round: u32) -> u32 {
    let h = shuffled(round);
    if (h >> 16) % 3 == 0 {
        (1350 + (h >> 8) % 100) as u32
    } else if (h >> 16) % 3 == 1 {
        (1800 + (h >> 8) % 100) as u32
    } else {
        (2250 + (h >> 8) % 150) as u32
    }
}

/// The score of a player in a round.
pub open spec fn score_at(i: int, round: u32) -> u32 {
    if i == elite_index(round) {
        elite_score(round)
    } else {
        the_roster()[i].score
    }
}

/// The stars of a player of the top tier in a round: below fifty for one, from fifty on for the
/// other.
pub open spec fn stars_at(i: int, round: u32) -> u32 {
    let rand = (shuffled(round) ^ (i as u32).wrapping_mul(40_503)) % 101;
    if i % 2 == 0 {
        rand % 50
    } else {
        (50 + rand % 51) as u32
    }
}

/// The elite player is one of the eight outside the top tier, with a score of an elite tier; the
/// stars of the two others lie apart.
pub proof fn law_round_is_as_described(round: u32)
    ensures
        0 <= elite_index(round) < 10,
        elite_index(round) != 5 && elite_index(round) != 6,
        1350 <= elite_score(round) < 1450 || 1800 <= elite_score(round) < 1900 || 2250
            <= elite_score(round) < 2400,
        50 <= stars_at(5, round) <= 100,
        stars_at(6, round) < 50,
{
}

fn elite_of(round: u32) -> (r: (usize, u32))
    ensures
        r.0 == elite_index(round),
        r.1 == elite_score(round),
{
    let h: u32 = round.wrapping_mul(2_654_435_761);
    let j: usize = (h % 8) as usize;
    let index: usize = if j >= 5 {
        j + 2
    } else {
        j
    };
    let tier: u32 = (h >> 16) % 3;
    let score: u32 = if tier == 0 {
        1350 + (h >> 8) % 100
    } else if tier == 1 {
        1800 + (h >> 8) % 100
    } else {
        2250 + (h >> 8) % 150
    };
    (index, score)
}

fn stars_for(i: usize, round: u32) -> (r: u32)
    requires
        i < 10,
    ensures
        r == stars_at(i as int, round),
{
    let rand: u32 = (round.wrapping_mul(2_654_435_761) ^ (i as u32).wrapping_mul(40_503)) % 101;
    if i % 2 == 0 {
        rand % 50
    } else {
        50 + rand % 51
    }
}

/// What the rank cache holds of a player in a round.
pub open spec fn entry_at(i: int, round: u32) -> EntryView {
    EntryView {
        meta: rank::rank_of_score(Some(number::whole(score_at(i, round)))),
        name: the_roster()[i].nick,
    }
}

/// The rank cache once the first `n` players of a round are in it.
pub open spec fn ranks_seeded(ranks: RankModel, me: Seq<char>, round: u32, n: int) -> RankModel
    decreases n,
{
    if n <= 0 {
        ranks
    } else {
        let i = n - 1;
        let before = ranks_seeded(ranks, me, round, i);
        let id = text::trimmed(id_at(i, me));
        let seeded = if id.len() > 0 {
            before.stored(id, entry_at(i, round))
        } else {
            before
        };
        if the_roster()[i].score > 2400 {
            seeded.starred(id, stars_at(i, round))
        } else {
            seeded
        }
    }
}

/// The results cache once the first `n` players are in it.
pub open spec fn forms_seeded(forms: FormModel, me: Seq<char>, n: int, now: u64) -> FormModel
    decreases n,
{
    if n <= 0 {
        forms
    } else {
        let i = n - 1;
        let before = forms_seeded(forms, me, i, now);
        let id = text::trimmed(id_at(i, me));
        if id.len() > 0 {
            before.stored(
                id,
                form::FormEntryView { results: the_roster()[i].form, stars: None },
                now,
            )
        } else {
            before
        }
    }
}

/// A player in the match. The nickname is left to the cache.
pub open spec fn player_at(i: int, me: Seq<char>) -> PlayerView {
    PlayerView {
        steam_id: id_at(i, me),
        side: if i < 5 {
            "CT"@
        } else {
            "T"@
        },
        name: None,
        kill: (24 - 2 * i) as u32,
        death: (10 + i) as u32,
        assist: (6 - i % 5) as u32,
        adr: Some(Real { bits: the_roster()[i].adr }),
        alive: i % 2 == 0,
        rating: Some(Real { bits: the_roster()[i].rating }),
    }
}

/// The match of a round.
pub open spec fn match_at(round: u32, me: Seq<char>) -> MatchView {
    MatchView {
        match_id: "MOCK-"@ + text::decimal(round as nat),
        map: "de_mirage"@,
        ct_score: 4,
        t_score: 3,
        ct_half: Some(3),
        t_half: Some(2),
        players: Seq::new(10, |i: int| player_at(i, me)),
    }
}

/// The made-up season statistics.
pub open spec fn made_up_stats() -> StatsView {
    StatsView {
        avg_we: Some(Real { bits: 0x4022_3333_3333_3333 }),
        rating_pro: Some(Real { bits: 0x3FF2_8F5C_28F5_C28F }),
        season_cnt: Some(144),
        adr: Some(Real { bits: 0x4056_4CCC_CCCC_CCCD }),
        win_rate: Some(Real { bits: 0x3FE0_51EB_851E_B852 }),
        kda: Some(Real { bits: 0x3FF0_28F5_C28F_5C29 }),
        headshot_ratio: Some(Real { bits: 0x3FE4_28F5_C28F_5C29 }),
        rws: Some(Real { bits: 0x4027_0000_0000_0000 }),
        stars: Some(3),
        season_id: "S24"@,
        summary: "神枪不朽"@,
    }
}

/// The made-up card.
pub open spec fn made_up_card(me: Seq<char>) -> CardView {
    CardView {
        nickname: "调试玩家"@,
        steam_id: me,
        avatar: None,
        rank_label: rank::label_of_score(number::whole(2100)),
        rank_score: Some(2100),
        ws_status: "idle"@,
        last_error: Seq::empty(),
        stats: Some(made_up_stats()),
    }
}

fn made_up(me: &str) -> (r: MyCard)
    ensures
        r@ == made_up_card(me@),
{
    MyCard {
        nickname: "调试玩家".to_owned(),
        steam_id: me.to_owned(),
        avatar: None,
        rank_label: rank::rank_label_from_score(Real::of_u32(2100)).to_owned(),
        rank_score: Some(2100),
        ws_status: "idle".to_owned(),
        last_error: String::new(),
        stats: Some(
            PlayerStats {
                avg_we: Some(Real { bits: 0x4022_3333_3333_3333 }),
                rating_pro: Some(Real { bits: 0x3FF2_8F5C_28F5_C28F }),
                season_cnt: Some(144),
                adr: Some(Real { bits: 0x4056_4CCC_CCCC_CCCD }),
                win_rate: Some(Real { bits: 0x3FE0_51EB_851E_B852 }),
                kda: Some(Real { bits: 0x3FF0_28F5_C28F_5C29 }),
                headshot_ratio: Some(Real { bits: 0x3FE4_28F5_C28F_5C29 }),
                rws: Some(Real { bits: 0x4027_0000_0000_0000 }),
                stars: Some(3),
                season_id: "S24".to_owned(),
                summary: "神枪不朽".to_owned(),
            },
        ),
    }
}

fn id_for(i: usize, list: &Vec<RosterEntry>, me: &str) -> (r: String)
    requires
        i < list@.len(),
        roster_views(list@) == the_roster(),
    ensures
        r@ == id_at(i as int, me@),
{
    assert(the_roster()[i as int] == list@[i as int]@);
    if i == 0 {
        me.to_owned()
    } else {
        sid_of(list[i].suffix.as_str())
    }
}

fn seed(
    list: &Vec<RosterEntry>,
    me: &str,
    round: u32,
    ranks: &mut RankService,
    forms: &mut FormService,
    now: u64,
)
    requires
        list@.len() == 10,
        roster_views(list@) == the_roster(),
    ensures
        final(ranks)@ == ranks_seeded(old(ranks)@, me@, round, 10),
        final(forms)@ == forms_seeded(old(forms)@, me@, 10, now),
{
    let (index, high) = elite_of(round);
    let mut i: usize = 0;
    while i < 10
        invariant
            i <= 10,
            list@.len() == 10,
            roster_views(list@) == the_roster(),
            index == elite_index(round),
            high == elite_score(round),
            ranks@ == ranks_seeded(old(ranks)@, me@, round, i as int),
            forms@ == forms_seeded(old(forms)@, me@, i as int, now),
        decreases 10 - i,
    {
        assert(the_roster()[i as int] == list@[i as int]@);
        let e = &list[i];
        let id = id_for(i, list, me);
        let score: u32 = if i == index {
            high
        } else {
            e.score
        };
        let user = User {
            nickname: Some(e.nick.clone()),
            steam_id: Some(id.clone()),
            avatar: None,
            score: Some(Score::Number(Some(Real::of_u32(score)))),
        };
        assert(rank::entry_of_user(user) == entry_at(i as int, round));
        ranks.seed_user(id.as_str(), &user);
        let results = e.form.clone();
        assert(results@ =~= e.form@);
        forms.seed(id.as_str(), results, now);
        if e.score > 2400 {
            ranks.seed_stars(id.as_str(), stars_for(i, round));
        }
        i += 1;
    }
}

fn made_up_players(list: &Vec<RosterEntry>, me: &str) -> (r: Vec<Player>)
    requires
        list@.len() == 10,
        roster_views(list@) == the_roster(),
    ensures
        state::players_of(r@) == Seq::new(10, |i: int| player_at(i, me@)),
{
    let mut out: Vec<Player> = Vec::new();
    let mut i: usize = 0;
    while i < 10
        invariant
            i <= 10,
            list@.len() == 10,
            roster_views(list@) == the_roster(),
            out@.len() == i,
            forall|j: int| 0 <= j < i ==> (#[trigger] out@[j])@ == player_at(j, me@),
        decreases 10 - i,
    {
        assert(the_roster()[i as int] == list@[i as int]@);
        let k: u32 = i as u32;
        let side = if i < 5 {
            "CT".to_owned()
        } else {
            "T".to_owned()
        };
        out.push(
            Player {
                steam_id: id_for(i, list, me),
                side,
                name: None,
                kill: 24 - k * 2,
                death: 10 + k,
                assist: 6 - k % 5,
                adr: Some(Real { bits: list[i].adr }),
                alive: i % 2 == 0,
                rating: Some(Real { bits: list[i].rating }),
            },
        );
        i += 1;
    }
    assert(state::players_of(out@) =~= Seq::new(10, |i: int| player_at(i, me@)));
    out
}

/// How far the made-up match is.
#[derive(Clone, Copy, PartialEq, Eq, Structural, Debug)]
pub enum Phase {
    /// No match is shown.
    Waiting,
    /// A match is shown, for so many changes of its score yet.
    Playing { left: u32 },
}

/// The made-up account and its matches.
pub struct MockRun {
    pub my_sid: String,
    pub round: u32,
    pub phase: Phase,
}

/// Milliseconds without a match.
pub const IDLE_MS: u64 = 6000;

/// Milliseconds between two changes of the score.
pub const TICK_MS: u64 = 3000;

/// How often the score of a match changes.
pub const TICKS: u32 = 8;

/// What the program knows with another status on the card.
pub open spec fn with_card_status(app: AppModel, status: Seq<char>) -> AppModel {
    AppModel { my: CardView { ws_status: status, ..app.my }, ..app }
}

/// What the program knows without a match.
pub open spec fn at_rest(app: AppModel) -> AppModel {
    AppModel { match_state: None, ..with_card_status(app, "idle"@) }
}

/// A match with one round more: the first side wins it, the other every third time too.
pub open spec fn scored(m: MatchView) -> MatchView {
    let ct = m.ct_score.wrapping_add(1);
    MatchView {
        ct_score: ct,
        t_score: if ct % 3 == 0 {
            m.t_score.wrapping_add(1)
        } else {
            m.t_score
        },
        ..m
    }
}

/// What the program knows after a change of the score.
pub open spec fn ticked(app: AppModel, now: u64) -> AppModel {
    AppModel {
        match_state: match app.match_state {
            Some(m) => Some(scored(m)),
            None => None,
        },
        updated_at: now,
        ..app
    }
}

/// What the program knows once a match began.
pub open spec fn started(app: AppModel, round: u32, me: Seq<char>, now: u64) -> AppModel {
    AppModel {
        match_state: Some(match_at(round, me)),
        updated_at: now,
        ..with_card_status(app, "in-match"@)
    }
}

/// The phase after a phase.
pub open spec fn phase_after(p: Phase) -> Phase {
    match p {
        Phase::Waiting => Phase::Playing { left: TICKS },
        Phase::Playing { left } => if left <= 1 {
            Phase::Waiting
        } else {
            Phase::Playing { left: (left - 1) as u32 }
        },
    }
}

/// The round after a phase; the count starts over behind the largest number.
pub open spec fn round_after(round: u32, p: Phase) -> u32 {
    if p is Waiting {
        round.wrapping_add(1)
    } else {
        round
    }
}

/// What the program knows after a phase.
pub open spec fn app_step(app: AppModel, round: u32, p: Phase, me: Seq<char>, now: u64) -> AppModel {
    match p {
        Phase::Waiting => started(app, round_after(round, p), me, now),
        Phase::Playing { left } => if left <= 1 {
            at_rest(ticked(app, now))
        } else {
            ticked(app, now)
        },
    }
}

impl MockRun {
    /// Shows the made-up account, and gives the milliseconds until the first match.
    pub fn begin(my_sid: String, app: &mut AppState) -> (r: (MockRun, u64))
        ensures
            r.0.my_sid == my_sid,
            r.0.round == 0,
            r.0.phase == Phase::Waiting,
            r.1 == IDLE_MS,
            final(app)@ == (AppModel {
                my: made_up_card(my_sid@),
                match_state: None,
                ..old(app)@
            }),
            final(app).plugins == old(app).plugins,
    {
        app.my = made_up(my_sid.as_str());
        app.match_state = None;
        (MockRun { my_sid, round: 0, phase: Phase::Waiting }, IDLE_MS)
    }

    /// Goes one step further, and gives the milliseconds until the next.
    pub fn step(
        &mut self,
        app: &mut AppState,
        ranks: &mut RankService,
        forms: &mut FormService,
        now_ms: u64,
        now: u64,
    ) -> (r: u64)
        ensures
            final(self).my_sid == old(self).my_sid,
            final(self).phase == phase_after(old(self).phase),
            final(self).round == round_after(old(self).round, old(self).phase),
            r == (if final(self).phase is Waiting {
                IDLE_MS
            } else {
                TICK_MS
            }),
            final(app)@ == app_step(
                old(app)@,
                old(self).round,
                old(self).phase,
                old(self).my_sid@,
                now_ms,
            ),
            final(app).plugins == old(app).plugins,
            old(self).phase is Waiting ==> final(ranks)@ == ranks_seeded(
                old(ranks)@,
                old(self).my_sid@,
                final(self).round,
                10,
            ) && final(forms)@ == forms_seeded(old(forms)@, old(self).my_sid@, 10, now),
            !(old(self).phase is Waiting) ==> *final(ranks) == *old(ranks) && *final(forms)
                == *old(forms),
    {
        match self.phase {
            Phase::Waiting => {
                self.round = self.round.wrapping_add(1);
                let list = roster();
                seed(&list, self.my_sid.as_str(), self.round, ranks, forms, now);
                let players = made_up_players(&list, self.my_sid.as_str());
                app.my.ws_status = "in-match".to_owned();
                let mut match_id = "MOCK-".to_owned();
                match_id.append(text::decimal_text(self.round as u64).as_str());
                app.match_state = Some(
                    MatchState {
                        match_id,
                        map: "de_mirage".to_owned(),
                        ct_score: 4,
                        t_score: 3,
                        ct_half: Some(3),
                        t_half: Some(2),
                        players,
                    },
                );
                app.updated_at = now_ms;
                self.phase = Phase::Playing { left: TICKS };
                TICK_MS
            },
            Phase::Playing { left } => {
                let mut taken: Option<MatchState> = None;
                std::mem::swap(&mut taken, &mut app.match_state);
                match taken {
                    Some(mut m) => {
                        m.ct_score = m.ct_score.wrapping_add(1);
                        if m.ct_score % 3 == 0 {
                            m.t_score = m.t_score.wrapping_add(1);
                        }
                        app.match_state = Some(m);
                    },
                    None => {},
                }
                app.updated_at = now_ms;
                if left <= 1 {
                    app.match_state = None;
                    app.my.ws_status = "idle".to_owned();
                    self.phase = Phase::Waiting;
                    IDLE_MS
                } else {
                    self.phase = Phase::Playing { left: left - 1 };
                    TICK_MS
                }
            },
        }
    }
}

/// The phase after so many steps.
pub open spec fn phase_later(p: Phase, n: nat) -> Phase
    decreases n,
{
    if n == 0 {
        p
    } else {
        phase_after(phase_later(p, (n - 1) as nat))
    }
}

/// A match lasts eight changes of its score; then there is none again.
pub proof fn law_match_comes_and_goes(n: nat)
    requires
        n <= 8,
    ensures
        n >= 1 ==> phase_later(Phase::Waiting, n) == (Phase::Playing { left: (9 - n) as u32 }),
        phase_later(Phase::Waiting, 9) == Phase::Waiting,
{
    reveal_with_fuel(phase_later, 10);
}

/// While a match is shown nobody is looked up: every player is in both caches.
pub proof fn law_match_asks_nobody(
    ranks: RankModel,
    forms: FormModel,
    me: Seq<char>,
    round: u32,
    n: int,
    i: int,
    now: u64,
    later: u64,
)
    requires
        0 <= i < n <= 10,
        text::trimmed(id_at(i, me)).len() > 0,
        later - now < form::CACHE_TTL,
    ensures
        !ranks_seeded(ranks, me, round, n).must_queue(text::trimmed(id_at(i, me))),
        !forms_seeded(forms, me, n, now).must_queue(text::trimmed(id_at(i, me)), later),
    decreases n,
{
    if i < n - 1 {
        law_match_asks_nobody(ranks, forms, me, round, n - 1, i, now, later);
    }
}

/// A round has ten players, five on each side, of whom the first is the own account; the kills
/// fall and the deaths rise down the list, and everybody is rated.
pub proof fn law_round_has_two_teams(round: u32, me: Seq<char>, i: int)
    requires
        0 <= i < 10,
    ensures
        match_at(round, me).players.len() == 10,
        match_at(round, me).players[0].steam_id == me,
        i > 0 ==> text::has_prefix(match_at(round, me).players[i].steam_id, "7656119"@),
        match_at(round, me).players[i].side == "CT"@ <==> i < 5,
        match_at(round, me).players[i].side == "T"@ <==> i >= 5,
        i > 0 ==> match_at(round, me).players[i].kill < match_at(round, me).players[i - 1].kill,
        i > 0 ==> match_at(round, me).players[i].death > match_at(round, me).players[i - 1].death,
        match_at(round, me).players[i].alive <==> i % 2 == 0,
        match_at(round, me).players[i].rating is Some,
        match_at(round, me).players[i].name is None,
        match_at(round, me).ct_score == 4,
        match_at(round, me).t_score == 3,
{
    reveal_strlit("CT");
    reveal_strlit("T");
    assert("CT"@.len() == 2 && "T"@.len() == 1);
    if i > 0 {
        let id = id_at(i, me);
        assert(id.take("7656119"@.len() as int) =~= "7656119"@);
    }
}

/// Every round is a match of its own.
pub proof fn law_rounds_are_different_matches(a: u32, b: u32, me: Seq<char>)
    requires
        a != b,
    ensures
        match_at(a, me).match_id != match_at(b, me).match_id,
{
    let n = "MOCK-"@.len() as int;
    assert(match_at(a, me).match_id.skip(n) =~= text::decimal(a as nat));
    assert(match_at(b, me).match_id.skip(n) =~= text::decimal(b as nat));
    text::law_decimal_round_trip(a as nat, u32::MAX as nat);
    text::law_decimal_round_trip(b as nat, u32::MAX as nat);
}

/// A change of the score gives the first side a round, and the other one too at every third; the
/// players and the rest of the match stay.
pub proof fn law_score_goes_up(m: MatchView)
    requires
        m.ct_score < u32::MAX,
        m.t_score < u32::MAX,
    ensures
        scored(m).ct_score == m.ct_score + 1,
        (m.ct_score + 1) % 3 == 0 ==> scored(m).t_score == m.t_score + 1,
        (m.ct_score + 1) % 3 != 0 ==> scored(m).t_score == m.t_score,
        scored(m).players == m.players,
        scored(m).match_id == m.match_id,
        scored(m).map == m.map,
        scored(m).ct_half == m.ct_half,
        scored(m).t_half == m.t_half,
{
}

/// After a wait a match is shown and the card says so; after its last change there is none, and the
/// card says that. In between the match stays, with its score.
pub proof fn law_steps_show_and_hide_the_match(
    app: AppModel,
    round: u32,
    left: u32,
    me: Seq<char>,
    now: u64,
)
    requires
        round < u32::MAX,
    ensures
        ({
            let shown = app_step(app, round, Phase::Waiting, me, now);
            shown.match_state == Some(match_at((round + 1) as u32, me)) && shown.my.ws_status
                == "in-match"@ && shown.updated_at == now && shown.my.nickname == app.my.nickname
                && shown.my.rank_label == app.my.rank_label && shown.plugins == app.plugins
        }),
        left <= 1 ==> ({
            let hidden = app_step(app, round, Phase::Playing { left }, me, now);
            hidden.match_state is None && hidden.my.ws_status == "idle"@ && hidden.updated_at == now
                && hidden.my.nickname == app.my.nickname
        }),
        left > 1 ==> ({
            let next = app_step(app, round, Phase::Playing { left }, me, now);
            next.my == app.my && next.updated_at == now && (app.match_state matches Some(m)
                ==> next.match_state == Some(scored(m))) && (app.match_state is None
                ==> next.match_state is None)
        }),
        IDLE_MS == 6000,
        TICK_MS == 3000,
        TICKS == 8,
{
}

/// The player who is put in last is known to both caches: by nickname and by the rank of the score
/// of the round, and with five results.
pub proof fn law_players_of_a_round_are_known(
    ranks: RankModel,
    forms: FormModel,
    me: Seq<char>,
    round: u32,
    n: int,
    now: u64,
)
    requires
        0 < n <= 10,
        text::trimmed(id_at(n - 1, me)).len() > 0,
    ensures
        ({
            let id = text::trimmed(id_at(n - 1, me));
            let known = ranks_seeded(ranks, me, round, n);
            &&& known.rank(id) matches Some(meta) && meta.label == rank::rank_of_score(
                Some(number::whole(score_at(n - 1, round))),
            ).label && (the_roster()[n - 1].score > 2400 ==> meta.stars == Some(
                stars_at(n - 1, round),
            ))
            &&& forms_seeded(forms, me, n, now).answer(id).results.len() == 5
            &&& forms_seeded(forms, me, n, now).answer(id).results == the_roster()[n - 1].form
        }),
        n - 1 != elite_index(round) ==> score_at(n - 1, round) == the_roster()[n - 1].score,
        score_at(elite_index(round), round) == elite_score(round),
{
    law_round_is_as_described(round);
    let before = ranks_seeded(ranks, me, round, n - 1);
    let id = text::trimmed(id_at(n - 1, me));
    let seeded = before.stored(id, entry_at(n - 1, round));
    assert(seeded.rank(id) == Some(entry_at(n - 1, round).meta));
    if the_roster()[n - 1].score > 2400 {
        assert(n - 1 == 5 || n - 1 == 6);
        rank::law_stars_are_added(seeded, id, stars_at(n - 1, round));
    }
}

/// The made-up card is that of the own account, with a rank and statistics, and without a match.
pub proof fn law_made_up_card(me: Seq<char>, x: Real)
    requires
        x.is_finite(),
        x.bits < number::SIGN,
        x.scaled() == 2100 * number::unit(),
    ensures
        made_up_card(me).steam_id == me,
        made_up_card(me).rank_score == Some(2100u32),
        made_up_card(me).rank_label == "A+"@,
        made_up_card(me).ws_status == "idle"@,
        made_up_card(me).stats is Some,
        made_up_card(me).avatar is None,
        made_up_card(me).nickname == the_roster()[0].nick,
        the_roster()[0].score == 2100,
{
    let w = number::whole(2100);
    assert(w.is_finite() && w.bits < number::SIGN && w.scaled() == 2100 * number::unit());
    rank::law_label_is_that_of_the_tier(w);
    vstd::arithmetic::power2::lemma_pow2_pos(1074);
}

/// In eight rounds everybody outside the top tier is of an elite tier once.
pub proof fn law_elite_goes_round(round: u32)
    ensures
        round % 8 < 5 ==> elite_index(round) == round % 8,
        round % 8 >= 5 ==> elite_index(round) == round % 8 + 2,
{
    lemma_eighth(round as int, shuffled(round) as int);
}

proof fn lemma_eighth(x: int, h: int)
    requires
        h == (x * 2_654_435_761) % 0x1_0000_0000,
    ensures
        h % 8 == x % 8,
{
    let y = x * 2_654_435_761;
    vstd::arithmetic::div_mod::lemma_fundamental_div_mod(y, 0x1_0000_0000);
    let q = y / 0x1_0000_0000;
    let m = x * 331_804_470 - q * 0x2000_0000;
    assert(h == 8 * m + x);
    vstd::arithmetic::div_mod::lemma_mod_multiples_vanish(m, x, 8);
}

/// Each of the three elite tiers comes up in some round.
pub proof fn law_every_elite_tier_comes_up()
    ensures
        exists|r: u32| 1350 <= #[trigger] elite_score(r) < 1450,
        exists|r: u32| 1800 <= #[trigger] elite_score(r) < 1900,
        exists|r: u32| 2250 <= #[trigger] elite_score(r) < 2400,
{
    assert(shuffled(1) == 2_654_435_761u32);
    assert((2_654_435_761u32 >> 16) % 3 == 0) by (bit_vector);
    assert(1350 <= elite_score(1) < 1450);
    assert(shuffled(2) == 1_013_904_226u32);
    assert((1_013_904_226u32 >> 16) % 3 == 2) by (bit_vector);
    assert(2250 <= elite_score(2) < 2400);
    assert(shuffled(10) == 774_553_834u32);
    assert((774_553_834u32 >> 16) % 3 == 1) by (bit_vector);
    assert(1800 <= elite_score(10) < 1900);
}

} // verus!
