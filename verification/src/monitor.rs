//! The rules of following an account: what a message of a match changes, how statistics reach the
//! card, and which step comes next while the connection is made, lost and made again.

use crate::config::{MonitorConfig, MonitorConfigView};
use crate::form::FormService;
use crate::kills::{KillNote, KillTracker, MatchPayload, PlayerPayload};
use crate::rank::{RankModel, RankService, RankStatus};
use crate::state::{
    AppModel, AppState, AvatarCache, AvatarView, CardView, MatchState, MatchView, MyCard, Player,
    PlayerStats, PlayerView, StatsView,
};
use crate::wmpvp::{DetailStats, StatsError};
use crate::{kills, rank, state, text};
use vstd::prelude::*;
use vstd::string::*;

verus! {

/// The name of a side that is written in upper case.
pub open spec fn side_name(upper: Seq<char>) -> Seq<char> {
    if upper == "CT"@ || text::has_text(upper, "COUNTER"@) {
        "CT"@
    } else if upper == "T"@ || text::has_text(upper, "TERROR"@) {
        "T"@
    } else {
        upper
    }
}

/// Names a side that is written in upper case.
pub fn side_of_upper(upper: &str) -> (r: String)
    ensures
        r@ == side_name(upper@),
{
    if text::same(upper, "CT") || text::contains(upper, "COUNTER") {
        "CT".to_owned()
    } else if text::same(upper, "T") || text::contains(upper, "TERROR") {
        "T".to_owned()
    } else {
        upper.to_owned()
    }
}

/// The name of a side, as the platform wrote it.
pub open spec fn side_in(s: Seq<char>) -> Seq<char> {
    side_name(text::upper_cased(text::trimmed(s)))
}

/// Names a side, however the platform wrote it.
pub fn normalize_side(s: &str) -> (r: String)
    ensures
        r@ == side_in(s@),
{
    side_of_upper(text::uppercase(text::trim(s).as_str()).as_str())
}

/// The name of a side is the name of itself.
pub proof fn law_side_name_stays(upper: Seq<char>)
    ensures
        side_name(side_name(upper)) == side_name(upper),
{
    reveal_strlit("CT");
    reveal_strlit("T");
    reveal_strlit("COUNTER");
    if text::has_text("T"@, "COUNTER"@) {
        let i = choose|i: int| text::occurs_at("T"@, "COUNTER"@, i);
        assert(text::occurs_at("T"@, "COUNTER"@, i));
    }
}

/// The name of a side has no small ASCII letter and no outer white space, and is the name of
/// itself.
pub proof fn law_side_is_normal(s: Seq<char>)
    requires
        text::plain_case(s),
    ensures
        forall|i: int| 0 <= i < side_in(s).len() ==> !('a' <= #[trigger] side_in(s)[i] <= 'z'),
        text::trimmed(side_in(s)) == side_in(s),
        side_in(side_in(s)) == side_in(s),
{
    reveal_strlit("CT");
    reveal_strlit("T");
    let t = text::trimmed(s);
    let upper = text::upper_cased(t);
    let side = side_in(s);
    text::law_plain_case(s);
    text::law_plain_case(t);
    text::law_trimming(s);
    text::law_trimming(t);
    text::law_trimming(side);
    assert(text::plain_case(side));
    if side == "CT"@ || side == "T"@ {
        assert(text::is_trimmed(side));
    } else {
        assert(text::trimmed(upper) == upper);
    }
    assert(text::upper_cased(side) =~= side);
    law_side_name_stays(upper);
}

/// However the platform wrote a side, in which case and between which white space, its name is the
/// same.
pub proof fn law_side_is_blind_to_case_and_space(
    s: Seq<char>,
    other: Seq<char>,
    before: Seq<char>,
    after: Seq<char>,
)
    requires
        text::plain_case(s),
        text::plain_case(other),
        text::lower_cased(other) == text::lower_cased(s),
        text::all_white(before),
        text::all_white(after),
    ensures
        side_in(before + other + after) == side_in(s),
{
    text::law_trimming_is_blind_to_outer_space(before, other, after);
    text::law_plain_case(s);
    text::law_plain_case(other);
    text::law_plain_case(text::trimmed(s));
    text::law_plain_case(text::trimmed(other));
}

/// A card with a new status; an empty reason leaves the last one.
pub open spec fn with_status(my: CardView, status: Seq<char>, reason: Seq<char>) -> CardView {
    CardView {
        ws_status: status,
        last_error: if reason.len() > 0 {
            reason
        } else {
            my.last_error
        },
        ..my
    }
}

/// Puts a status on the card.
pub fn set_status(my: &mut MyCard, status: &str, err: &str)
    ensures
        final(my)@ == with_status(old(my)@, status@, err@),
{
    my.ws_status = status.to_owned();
    if !err.is_empty() {
        my.last_error = err.to_owned();
    }
}

/// A card with the rank of `sid`, where that is known.
pub open spec fn with_own_rank(my: CardView, ranks: RankModel, sid: Seq<char>) -> CardView {
    match ranks.rank(text::trimmed(sid)) {
        Some(meta) if meta.status == RankStatus::Ready => CardView {
            rank_label: meta.label,
            rank_score: meta.score,
            ..my
        },
        _ => my,
    }
}

/// Puts the rank of `sid` on the card, where that is known.
pub fn sync_own_rank(my: &mut MyCard, ranks: &RankService, sid: &str)
    ensures
        final(my)@ == with_own_rank(old(my)@, ranks@, sid@),
{
    match ranks.get(sid) {
        Some(meta) => {
            if meta.status == RankStatus::Ready {
                my.rank_label = meta.label;
                my.rank_score = meta.score;
            }
        },
        None => {},
    }
}

/// A player of a message; without an id it is none.
pub open spec fn player_in(p: PlayerPayload) -> Option<PlayerView> {
    let id = text::trimmed(text::text_or_empty(text::opt_text(p.steam_id)));
    if id.len() == 0 {
        None
    } else {
        Some(
            PlayerView {
                steam_id: id,
                side: side_in(text::text_or_empty(text::opt_text(p.side))),
                name: text::not_blank(text::opt_text(p.name)),
                kill: or_zero(p.kill),
                death: or_zero(p.death),
                assist: or_zero(p.assist),
                adr: p.adr,
                alive: match p.alive {
                    Some(b) => b,
                    None => true,
                },
                rating: p.rating,
            },
        )
    }
}

/// The number, zero where it is missing.
pub open spec fn or_zero(n: Option<u32>) -> u32 {
    match n {
        Some(x) => x,
        None => 0,
    }
}

/// The players of a message, in its order.
pub open spec fn players_in(list: Seq<PlayerPayload>) -> Seq<PlayerView>
    decreases list.len(),
{
    if list.len() == 0 {
        Seq::empty()
    } else {
        match player_in(list.last()) {
            Some(p) => players_in(list.drop_last()).push(p),
            None => players_in(list.drop_last()),
        }
    }
}

/// The rank cache once the players of a list were asked for, in order.
pub open spec fn ranks_asked(ranks: RankModel, list: Seq<PlayerView>) -> RankModel
    decreases list.len(),
{
    if list.len() == 0 {
        ranks
    } else {
        ranks_asked(ranks, list.drop_last()).asked(text::trimmed(list.last().steam_id))
    }
}

/// The rank lookups that asking for the players of a list starts, in order.
pub open spec fn rank_lookups(ranks: RankModel, list: Seq<PlayerView>) -> Seq<Seq<char>>
    decreases list.len(),
{
    if list.len() == 0 {
        Seq::empty()
    } else {
        let before = rank_lookups(ranks, list.drop_last());
        let id = text::trimmed(list.last().steam_id);
        if ranks_asked(ranks, list.drop_last()).must_queue(id) {
            before.push(id)
        } else {
            before
        }
    }
}

/// Asking for players tells no nickname and forgets none, and takes back no rank.
pub proof fn law_asking_keeps_what_is_known(ranks: RankModel, list: Seq<PlayerView>, id: Seq<char>)
    ensures
        ranks_asked(ranks, list).nickname(id) == ranks.nickname(id),
        ranks.rank(id) is Some ==> ranks_asked(ranks, list).rank(id) == ranks.rank(id),
        ranks.wf() ==> ranks_asked(ranks, list).wf(),
    decreases list.len(),
{
    if list.len() > 0 {
        law_asking_keeps_what_is_known(ranks, list.drop_last(), id);
    }
}

fn zero_if_none(n: Option<u32>) -> (r: u32)
    ensures
        r == or_zero(n),
{
    match n {
        Some(x) => x,
        None => 0,
    }
}

fn read_player(p: &PlayerPayload) -> (r: Option<Player>)
    ensures
        match r {
            Some(x) => player_in(*p) == Some(x@),
            None => player_in(*p) is None,
        },
{
    let steam_id = text::trimmed_or_empty(&p.steam_id);
    if steam_id.as_str().is_empty() {
        return None;
    }
    let side = match &p.side {
        Some(s) => normalize_side(s.as_str()),
        None => {
            let none = String::new();
            normalize_side(none.as_str())
        },
    };
    Some(
        Player {
            steam_id,
            side,
            name: text::unless_blank(&p.name),
            kill: zero_if_none(p.kill),
            death: zero_if_none(p.death),
            assist: zero_if_none(p.assist),
            adr: p.adr,
            alive: match p.alive {
                Some(b) => b,
                None => true,
            },
            rating: p.rating,
        },
    )
}

/// The id of the match that a message is about.
pub open spec fn match_id_of(payload: MatchPayload) -> Seq<char> {
    text::trimmed(text::text_or_empty(text::opt_text(payload.match_id)))
}

/// The match that a message describes.
pub open spec fn match_of(payload: MatchPayload) -> MatchView {
    MatchView {
        match_id: match_id_of(payload),
        map: text::text_or_empty(text::opt_text(payload.map)),
        ct_score: or_zero(payload.ct_score),
        t_score: or_zero(payload.t_score),
        ct_half: payload.ct_half,
        t_half: payload.t_half,
        players: players_in(payload.players@),
    }
}

/// The message is about another match than the one that is known.
pub open spec fn is_new_match(app: AppModel, payload: MatchPayload) -> bool {
    match app.match_state {
        Some(m) => m.match_id != match_id_of(payload),
        None => true,
    }
}

/// The rank cache from which a message starts: a new match starts with an empty one, so that every
/// rank is looked up once per match.
pub open spec fn ranks_at_start(app: AppModel, payload: MatchPayload, ranks: RankModel) -> RankModel {
    if is_new_match(app, payload) {
        rank::no_ranks()
    } else {
        ranks
    }
}

/// What the program knows after a message of a match. A new match puts `in-match` on the card, and
/// the own rank as far as it was known before.
pub open spec fn app_after(
    app: AppModel,
    payload: MatchPayload,
    ranks: RankModel,
    now: u64,
) -> AppModel {
    AppModel {
        my: if is_new_match(app, payload) {
            let my = with_status(app.my, "in-match"@, Seq::empty());
            with_own_rank(my, ranks, my.steam_id)
        } else {
            app.my
        },
        match_state: Some(match_of(payload)),
        updated_at: now,
        ..app
    }
}

/// The table of kills that the next message is held against: a new match starts without one.
pub open spec fn table_before(
    app: AppModel,
    payload: MatchPayload,
    prev: Option<Vec<(String, crate::json::Json)>>,
) -> Option<Vec<(String, crate::json::Json)>> {
    if is_new_match(app, payload) {
        None
    } else {
        prev
    }
}

/// What a message of a match brought.
pub struct MatchOutcome {
    pub is_new: bool,
    pub rank_queue: Vec<String>,
    pub form_queue: Vec<String>,
    pub kills: Vec<KillNote>,
}

proof fn lemma_names_stay(
    payload: MatchPayload,
    prev: Option<Vec<(String, crate::json::Json)>>,
    ranks: RankModel,
    list: Seq<PlayerView>,
    me: Seq<char>,
)
    ensures
        kills::news_can_be_named(payload, prev, ranks) ==> kills::news_can_be_named(
            payload,
            prev,
            ranks_asked(ranks, list),
        ),
        kills::notes_of(payload, prev, ranks_asked(ranks, list), me) == kills::notes_of(
            payload,
            prev,
            ranks,
            me,
        ),
{
    let later = ranks_asked(ranks, list);
    let all = kills::new_pairs(payload, prev);
    assert forall|key: Seq<char>|
        kills::nickname_of(payload.players@, later, key) == kills::nickname_of(
            payload.players@,
            ranks,
            key,
        ) by {
        match kills::player_with(payload.players@, text::trimmed(key)) {
            Some(p) => {
                law_asking_keeps_what_is_known(
                    ranks,
                    list,
                    text::trimmed(text::opt_text(p.steam_id)->0),
                );
            },
            None => {},
        }
    }
    assert forall|key: Seq<char>|
        #![auto]
        kills::name_to_show(payload.players@, later, key) == kills::name_to_show(
            payload.players@,
            ranks,
            key,
        ) by {
        assert(kills::nickname_of(payload.players@, later, key) == kills::nickname_of(
            payload.players@,
            ranks,
            key,
        ));
    }
    assert(kills::notes_of(payload, prev, later, me) =~= kills::notes_of(payload, prev, ranks, me));
    if kills::news_can_be_named(payload, prev, ranks) {
        assert forall|i: int| 0 <= i < all.len() implies kills::can_be_named(
            payload.players@,
            later,
            (#[trigger] all[i]).0,
        ) && kills::can_be_named(payload.players@, later, all[i].1) by {
            assert(kills::can_be_named(payload.players@, ranks, all[i].0));
            assert(kills::nickname_of(payload.players@, later, all[i].0) == kills::nickname_of(
                payload.players@,
                ranks,
                all[i].0,
            ));
            assert(kills::nickname_of(payload.players@, later, all[i].1) == kills::nickname_of(
                payload.players@,
                ranks,
                all[i].1,
            ));
        }
    }
}

fn read_players(
    list: &Vec<PlayerPayload>,
    ranks: &mut RankService,
    forms: &mut FormService,
    now: u64,
) -> (r: (Vec<Player>, Vec<String>, Vec<String>))
    ensures
        state::players_of(r.0@) == players_in(list@),
        text::texts(r.1@) == rank_lookups(old(ranks)@, players_in(list@)),
        text::texts(r.2@) == state::lookups(old(forms)@, players_in(list@), now),
        final(ranks)@ == ranks_asked(old(ranks)@, players_in(list@)),
        final(forms)@ == state::asked_all(old(forms)@, players_in(list@), now),
{
    let mut players: Vec<Player> = Vec::new();
    let mut rank_queue: Vec<String> = Vec::new();
    let mut form_queue: Vec<String> = Vec::new();
    let ghost start_ranks = ranks@;
    let ghost start_forms = forms@;
    let mut i: usize = 0;
    assert(list@.take(0) == Seq::<PlayerPayload>::empty());
    assert(state::players_of(players@) =~= players_in(list@.take(0)));
    assert(text::texts(rank_queue@) =~= Seq::<Seq<char>>::empty());
    assert(text::texts(form_queue@) =~= Seq::<Seq<char>>::empty());
    while i < list.len()
        invariant
            i <= list@.len(),
            state::players_of(players@) == players_in(list@.take(i as int)),
            text::texts(rank_queue@) == rank_lookups(
                start_ranks,
                players_in(list@.take(i as int)),
            ),
            text::texts(form_queue@) == state::lookups(
                start_forms,
                players_in(list@.take(i as int)),
                now,
            ),
            ranks@ == ranks_asked(start_ranks, players_in(list@.take(i as int))),
            forms@ == state::asked_all(start_forms, players_in(list@.take(i as int)), now),
        decreases list@.len() - i,
    {
        let ghost before = players_in(list@.take(i as int));
        proof {
            assert(list@.take(i + 1).drop_last() == list@.take(i as int));
            assert(list@.take(i + 1).last() == list@[i as int]);
        }
        match read_player(&list[i]) {
            Some(p) => {
                let ghost rq = text::texts(rank_queue@);
                let ghost fq = text::texts(form_queue@);
                let ghost view = p@;
                assert(before.push(view).drop_last() == before);
                let a = ranks.ensure(p.steam_id.as_str());
                match a.queue {
                    Some(id) => {
                        rank_queue.push(id);
                        assert(text::texts(rank_queue@) =~= rq.push(id@));
                    },
                    None => {},
                }
                let b = forms.ensure(p.steam_id.as_str(), now);
                match b.queue {
                    Some(id) => {
                        form_queue.push(id);
                        assert(text::texts(form_queue@) =~= fq.push(id@));
                    },
                    None => {},
                }
                players.push(p);
                assert(state::players_of(players@) =~= before.push(view));
            },
            None => {},
        }
        i += 1;
    }
    assert(list@.take(i as int) == list@);
    (players, rank_queue, form_queue)
}

/// Takes in a message of a match: the match itself, the players to look up, the new kills. A
/// message without the id of a match is ignored.
pub fn handle_match_payload(
    app: &mut AppState,
    ranks: &mut RankService,
    forms: &mut FormService,
    tracker: &mut KillTracker,
    my_sid: &str,
    payload: MatchPayload,
    now_ms: u64,
    now: u64,
) -> (r: Option<MatchOutcome>)
    requires
        match_id_of(payload).len() > 0 ==> kills::news_can_be_named(
            payload,
            table_before(old(app)@, payload, old(tracker).prev),
            old(ranks)@,
        ),
    ensures
        r is Some <==> match_id_of(payload).len() > 0,
        r is None ==> *final(app) == *old(app) && *final(ranks) == *old(ranks) && *final(forms)
            == *old(forms) && *final(tracker) == *old(tracker),
        r matches Some(out) ==> {
            let list = players_in(payload.players@);
            let prev = table_before(old(app)@, payload, old(tracker).prev);
            let base = ranks_at_start(old(app)@, payload, old(ranks)@);
            &&& out.is_new == is_new_match(old(app)@, payload)
            &&& text::texts(out.rank_queue@) == rank_lookups(base, list)
            &&& text::texts(out.form_queue@) == state::lookups(old(forms)@, list, now)
            &&& kills::note_views(out.kills@) == kills::notes_of(
                payload,
                prev,
                old(ranks)@,
                my_sid@,
            )
            &&& final(app)@ == app_after(old(app)@, payload, old(ranks)@, now_ms)
            &&& final(app).plugins == old(app).plugins
            &&& final(ranks)@ == ranks_asked(base, list)
            &&& final(forms)@ == state::asked_all(old(forms)@, list, now)
            &&& final(tracker).prev == kills::table_after(payload, prev)
        },
{
    let match_id = text::trimmed_or_empty(&payload.match_id);
    if match_id.as_str().is_empty() {
        return None;
    }
    let ghost list = players_in(payload.players@);
    let is_new = match &app.match_state {
        Some(m) => !text::same(m.match_id.as_str(), match_id.as_str()),
        None => true,
    };
    if is_new {
        tracker.reset();
        let none = String::new();
        set_status(&mut app.my, "in-match", none.as_str());
        let sid = app.my.steam_id.clone();
        sync_own_rank(&mut app.my, ranks, sid.as_str());
        ranks.reset_for_match();
    }
    let ghost base = ranks@;
    let (players, rank_queue, form_queue) = read_players(&payload.players, ranks, forms, now);
    let map = match &payload.map {
        Some(m) => m.clone(),
        None => String::new(),
    };
    app.match_state = Some(
        MatchState {
            match_id,
            map,
            ct_score: zero_if_none(payload.ct_score),
            t_score: zero_if_none(payload.t_score),
            ct_half: payload.ct_half,
            t_half: payload.t_half,
            players,
        },
    );
    app.updated_at = now_ms;
    proof {
        lemma_names_stay(payload, tracker.prev, base, list, my_sid@);
        if is_new {
            kills::law_no_kill_no_news(kills::history_of(payload));
            assert(kills::notes_of(payload, None, base, my_sid@) =~= kills::notes_of(
                payload,
                None,
                old(ranks)@,
                my_sid@,
            ));
        }
    }
    let kills = kills::log_kills(payload, tracker, ranks, my_sid);
    Some(MatchOutcome { is_new, rank_queue, form_queue, kills })
}

/// Whether the kills of a message can be told.
pub fn can_handle(
    app: &AppState,
    ranks: &RankService,
    tracker: &KillTracker,
    payload: &MatchPayload,
) -> (r: bool)
    ensures
        r == (match_id_of(*payload).len() > 0 ==> kills::news_can_be_named(
            *payload,
            table_before(app@, *payload, tracker.prev),
            ranks@,
        )),
{
    let match_id = text::trimmed_or_empty(&payload.match_id);
    if match_id.as_str().is_empty() {
        return true;
    }
    let is_new = match &app.match_state {
        Some(m) => !text::same(m.match_id.as_str(), match_id.as_str()),
        None => true,
    };
    if is_new {
        return true;
    }
    kills::can_tell_kills(payload, tracker, ranks)
}

proof fn lemma_ranks_all_asked(ranks: RankModel, list: Seq<PlayerView>)
    ensures
        forall|i: int|
            0 <= i < list.len() ==> !ranks_asked(ranks, list).must_queue(
                text::trimmed((#[trigger] list[i]).steam_id),
            ),
    decreases list.len(),
{
    if list.len() > 0 {
        let front = list.drop_last();
        lemma_ranks_all_asked(ranks, front);
        let f = ranks_asked(ranks, front);
        let last = text::trimmed(list.last().steam_id);
        assert forall|i: int| 0 <= i < list.len() implies !ranks_asked(ranks, list).must_queue(
            text::trimmed((#[trigger] list[i]).steam_id),
        ) by {
            let id = text::trimmed(list[i].steam_id);
            if i < front.len() {
                assert(front[i] == list[i]);
            }
            if id == last {
                rank::law_queued_once(f, id);
            } else {
                rank::law_question_is_local(f, last, id);
            }
        }
    }
}

proof fn lemma_no_rank_lookup_left(ranks: RankModel, list: Seq<PlayerView>)
    requires
        forall|i: int|
            0 <= i < list.len() ==> !ranks.must_queue(
                text::trimmed((#[trigger] list[i]).steam_id),
            ),
    ensures
        rank_lookups(ranks, list) == Seq::<Seq<char>>::empty(),
        ranks_asked(ranks, list) == ranks,
    decreases list.len(),
{
    if list.len() > 0 {
        let front = list.drop_last();
        assert forall|i: int| 0 <= i < front.len() implies !ranks.must_queue(
            text::trimmed((#[trigger] front[i]).steam_id),
        ) by {
            assert(front[i] == list[i]);
        }
        lemma_no_rank_lookup_left(ranks, front);
        assert(list.last() == list[list.len() - 1]);
    }
}

/// A message that comes again is not about a new match, looks nobody up, tells no kill, and
/// changes nothing but the time.
pub proof fn law_same_message_is_quiet(
    app: AppModel,
    payload: MatchPayload,
    ranks: RankModel,
    me: Seq<char>,
    now: u64,
    later: u64,
)
    requires
        payload.kill_count matches Some(table) ==> kills::is_table(table@),
    ensures
        ({
            let list = players_in(payload.players@);
            let known = ranks_asked(ranks_at_start(app, payload, ranks), list);
            let app2 = app_after(app, payload, ranks, now);
            &&& !is_new_match(app2, payload)
            &&& ranks_at_start(app2, payload, known) == known
            &&& rank_lookups(known, list) == Seq::<Seq<char>>::empty()
            &&& kills::notes_of(payload, payload.kill_count, known, me) == Seq::<
                kills::KillNoteView,
            >::empty()
            &&& app_after(app2, payload, known, later) == (AppModel { updated_at: later, ..app2 })
        }),
{
    let list = players_in(payload.players@);
    let base = ranks_at_start(app, payload, ranks);
    lemma_ranks_all_asked(base, list);
    lemma_no_rank_lookup_left(ranks_asked(base, list), list);
    kills::law_first_and_same_message_are_silent(payload, ranks_asked(base, list), me);
}

/// In a new match the old ranks are gone, and every player is looked up exactly once.
pub proof fn law_new_match_looks_everybody_up(list: Seq<PlayerView>)
    ensures
        forall|i: int|
            0 <= i < list.len() && text::trimmed((#[trigger] list[i]).steam_id).len() > 0
                ==> rank_lookups(rank::no_ranks(), list).contains(
                text::trimmed(list[i].steam_id),
            ) && ranks_asked(rank::no_ranks(), list).rank(text::trimmed(list[i].steam_id)) == Some(
                rank::bare_rank(RankStatus::Loading),
            ),
        rank_lookups(rank::no_ranks(), list).no_duplicates(),
        forall|id: Seq<char>|
            rank_lookups(rank::no_ranks(), list).contains(id) <==> ranks_asked(
                rank::no_ranks(),
                list,
            ).pending.contains(id),
    decreases list.len(),
{
    let none = rank::no_ranks();
    if list.len() > 0 {
        let front = list.drop_last();
        law_new_match_looks_everybody_up(front);
        let before = rank_lookups(none, front);
        let f = ranks_asked(none, front);
        let id = text::trimmed(list.last().steam_id);
        let all = rank_lookups(none, list);
        law_asking_keeps_what_is_known(none, front, id);
        lemma_only_loading(front);
        if f.must_queue(id) {
            assert(all == before.push(id));
            assert(all.last() == id);
            assert forall|x: Seq<char>| all.contains(x) <==> before.contains(x) || x == id by {
                if before.contains(x) {
                    let j = choose|j: int| 0 <= j < before.len() && before[j] == x;
                    assert(all[j] == x);
                }
                if x == id {
                    assert(all[before.len() as int] == x);
                }
            }
            assert(!before.contains(id));
            assert forall|i: int, j: int| 0 <= i < all.len() && 0 <= j < all.len() && i != j implies all[i]
                != all[j] by {
                if i < before.len() && j < before.len() {
                    assert(before[i] != before[j]);
                } else if i < before.len() {
                    assert(before.contains(before[i]));
                } else {
                    assert(before.contains(before[j]));
                }
            }
        }
        assert forall|i: int|
            0 <= i < list.len() && text::trimmed((#[trigger] list[i]).steam_id).len() > 0 implies {
            &&& all.contains(text::trimmed(list[i].steam_id))
            &&& ranks_asked(none, list).rank(text::trimmed(list[i].steam_id)) == Some(
                rank::bare_rank(RankStatus::Loading),
            )
        } by {
            if i < front.len() {
                assert(front[i] == list[i]);
            }
        }
    }
}

proof fn lemma_only_loading(list: Seq<PlayerView>)
    ensures
        forall|id: Seq<char>|
            #![trigger ranks_asked(rank::no_ranks(), list).entries.contains_key(id)]
            #![trigger ranks_asked(rank::no_ranks(), list).pending.contains(id)]
            ranks_asked(rank::no_ranks(), list).entries.contains_key(id) <==> ranks_asked(
                rank::no_ranks(),
                list,
            ).pending.contains(id),
        forall|id: Seq<char>|
            ranks_asked(rank::no_ranks(), list).entries.contains_key(id) ==> (
            #[trigger] ranks_asked(rank::no_ranks(), list).rank(id)) == Some(
                rank::bare_rank(RankStatus::Loading),
            ),
    decreases list.len(),
{
    if list.len() > 0 {
        lemma_only_loading(list.drop_last());
        let f = ranks_asked(rank::no_ranks(), list.drop_last());
        let all = ranks_asked(rank::no_ranks(), list);
        assert forall|id: Seq<char>| all.entries.contains_key(id) implies (#[trigger] all.rank(id))
            == Some(rank::bare_rank(RankStatus::Loading)) by {
            if f.entries.contains_key(id) {
                assert(f.rank(id) == Some(rank::bare_rank(RankStatus::Loading)));
            }
        }
    }
}

/// Season statistics as the card holds them.
pub open spec fn stats_view(s: DetailStats) -> StatsView {
    StatsView {
        avg_we: s.avg_we,
        rating_pro: s.pw_rating,
        season_cnt: s.cnt,
        adr: s.adr,
        win_rate: s.win_rate,
        kda: s.kd,
        headshot_ratio: s.head_shot_ratio,
        rws: s.rws,
        stars: s.stars,
        season_id: s.season_id@,
        summary: text::text_or_empty(text::opt_text(s.summary)),
    }
}

/// A card once season statistics were asked for: a refused token is put on the card, another
/// failure leaves it.
pub open spec fn with_stats(
    my: CardView,
    reply: Result<Option<DetailStats>, StatsError>,
) -> CardView {
    match reply {
        Ok(Some(s)) => CardView { stats: Some(stats_view(s)), ..my },
        Err(StatsError::LoginExpired) => CardView {
            ws_status: "token-invalid"@,
            last_error: "token 已失效, 请重新抓取"@,
            ..my
        },
        _ => my,
    }
}

/// Puts the outcome of a request for season statistics on the card. Gives false where the token
/// was refused.
pub fn refresh_stats(
    my: &mut MyCard,
    reply: Result<Option<DetailStats>, StatsError>,
) -> (r: bool)
    ensures
        r == !(reply matches Err(StatsError::LoginExpired)),
        final(my)@ == with_stats(old(my)@, reply),
{
    match reply {
        Ok(Some(s)) => {
            let summary = match s.summary {
                Some(t) => t,
                None => String::new(),
            };
            my.stats = Some(
                PlayerStats {
                    avg_we: s.avg_we,
                    rating_pro: s.pw_rating,
                    season_cnt: s.cnt,
                    adr: s.adr,
                    win_rate: s.win_rate,
                    kda: s.kd,
                    headshot_ratio: s.head_shot_ratio,
                    rws: s.rws,
                    stars: s.stars,
                    season_id: s.season_id,
                    summary,
                },
            );
            true
        },
        Err(StatsError::LoginExpired) => {
            my.ws_status = "token-invalid".to_owned();
            my.last_error = "token 已失效, 请重新抓取".to_owned();
            false
        },
        _ => true,
    }
}

/// How long season statistics stay as they are, in milliseconds.
pub const STATS_REFRESH_MS: u64 = 600_000;

/// The token and the account that were asked for last.
pub struct StatsLoop {
    pub last: Option<(String, String)>,
}

/// What to do about season statistics.
pub enum StatsStep {
    /// Wait for a change of the configuration.
    Wait,
    /// Ask now.
    Query { token: String, target: String },
    /// Ask after the given time; start over where the configuration changes before.
    QueryAfter { millis: u64, token: String, target: String },
}

/// What to do about season statistics, by characters.
pub enum StatsStepView {
    Wait,
    Query { token: Seq<char>, target: Seq<char> },
    QueryAfter { millis: u64, token: Seq<char>, target: Seq<char> },
}

impl View for StatsStep {
    type V = StatsStepView;

    open spec fn view(&self) -> StatsStepView {
        match self {
            StatsStep::Wait => StatsStepView::Wait,
            StatsStep::Query { token, target } => StatsStepView::Query {
                token: token@,
                target: target@,
            },
            StatsStep::QueryAfter { millis, token, target } => StatsStepView::QueryAfter {
                millis: *millis,
                token: token@,
                target: target@,
            },
        }
    }
}

/// A token and an account, by characters.
pub open spec fn opt_pair(p: Option<(String, String)>) -> Option<(Seq<char>, Seq<char>)> {
    match p {
        Some((a, b)) => Some((a@, b@)),
        None => None,
    }
}

/// The step under a configuration: without a token or an account there is nothing to ask; what
/// was asked last is asked again only after a while.
pub open spec fn stats_step(
    last: Option<(Seq<char>, Seq<char>)>,
    cfg: MonitorConfigView,
) -> StatsStepView {
    let token = text::trimmed(cfg.token);
    let target = text::trimmed(cfg.steam_id);
    if token.len() == 0 || target.len() == 0 {
        StatsStepView::Wait
    } else if last == Some((token, target)) {
        StatsStepView::QueryAfter { millis: STATS_REFRESH_MS, token, target }
    } else {
        StatsStepView::Query { token, target }
    }
}

impl StatsLoop {
    /// Nothing was asked yet.
    pub fn new() -> (r: StatsLoop)
        ensures
            r.last is None,
    {
        StatsLoop { last: None }
    }

    /// The next step under a configuration.
    pub fn next(&mut self, cfg: &MonitorConfig) -> (r: StatsStep)
        ensures
            r@ == stats_step(opt_pair(old(self).last), cfg@),
            opt_pair(final(self).last) == (if r is Wait {
                None
            } else {
                Some((text::trimmed(cfg@.token), text::trimmed(cfg@.steam_id)))
            }),
    {
        let token = text::trim(cfg.token.as_str());
        let target = text::trim(cfg.steam_id.as_str());
        if token.as_str().is_empty() || target.as_str().is_empty() {
            self.last = None;
            return StatsStep::Wait;
        }
        let again = match &self.last {
            Some((a, b)) => text::same(a.as_str(), token.as_str()) && text::same(
                b.as_str(),
                target.as_str(),
            ),
            None => false,
        };
        if again {
            return StatsStep::QueryAfter { millis: STATS_REFRESH_MS, token, target };
        }
        self.last = Some((token.clone(), target.clone()));
        StatsStep::Query { token, target }
    }

    /// After a reply: a refused token is not asked with again until the configuration changes,
    /// and true is given to wait for that.
    pub fn after_reply(&mut self, accepted: bool) -> (r: bool)
        ensures
            r == !accepted,
            final(self).last == (if accepted {
                old(self).last
            } else {
                None
            }),
    {
        if !accepted {
            self.last = None;
        }
        !accepted
    }
}

/// Under one configuration a second question waits its time.
pub proof fn law_stats_are_asked_seldom(
    last: Option<(Seq<char>, Seq<char>)>,
    cfg: MonitorConfigView,
)
    requires
        !(stats_step(last, cfg) is Wait),
    ensures
        stats_step(
            Some((text::trimmed(cfg.token), text::trimmed(cfg.steam_id))),
            cfg,
        ) matches StatsStepView::QueryAfter { millis, .. } && millis == STATS_REFRESH_MS,
{
}

/// The avatar has to be downloaded: it is not the one that is kept.
pub open spec fn avatar_wanted(app: AppModel, url: Seq<char>) -> bool {
    match app.avatar {
        Some(a) => a.url != url,
        None => true,
    }
}

/// Whether an avatar has to be downloaded.
pub fn must_fetch_avatar(app: &AppState, url: &str) -> (r: bool)
    ensures
        r == avatar_wanted(app@, url@),
{
    match &app.avatar {
        Some(a) => !text::same(a.url.as_str(), url),
        None => true,
    }
}

/// Keeps a downloaded avatar; an empty one is not kept.
pub fn keep_avatar(app: &mut AppState, url: String, bytes: Vec<u8>) -> (r: bool)
    ensures
        r == (bytes@.len() > 0),
        final(app)@ == (if r {
            AppModel {
                avatar: Some(AvatarView { url: url@, bytes: bytes@ }),
                ..old(app)@
            }
        } else {
            old(app)@
        }),
        final(app).plugins == old(app).plugins,
{
    if bytes.len() == 0 {
        return false;
    }
    app.avatar = Some(AvatarCache { url, bytes });
    true
}

/// An avatar that is kept is not downloaded again.
pub proof fn law_avatar_is_fetched_once(app: AppModel, url: Seq<char>, bytes: Seq<u8>)
    ensures
        !avatar_wanted(AppModel { avatar: Some(AvatarView { url, bytes }), ..app }, url),
{
}

/// A side is that of the counter-terrorists where its name says so, else that of the terrorists
/// where its name says that; any other name stays, in upper case.
pub proof fn law_side_is_told_by_its_name(s: Seq<char>, before: Seq<char>, after: Seq<char>)
    requires
        text::plain_case(s),
    ensures
        ({
            let u = text::upper_cased(text::trimmed(s));
            &&& u == "CT"@ || u == before + "COUNTER"@ + after ==> side_in(s) == "CT"@
            &&& !text::has_text(u, "COUNTER"@) && u != "CT"@ && (u == "T"@ || u == before
                + "TERROR"@ + after) ==> side_in(s) == "T"@
            &&& u != "CT"@ && u != "T"@ && !text::has_text(u, "COUNTER"@) && !text::has_text(
                u,
                "TERROR"@,
            ) ==> side_in(s) == u
        }),
{
    let u = text::upper_cased(text::trimmed(s));
    let at = before.len() as int;
    if u == before + "COUNTER"@ + after {
        assert(u.subrange(at, at + "COUNTER"@.len()) =~= "COUNTER"@);
        assert(text::occurs_at(u, "COUNTER"@, at));
    }
    if u == before + "TERROR"@ + after {
        assert(u.subrange(at, at + "TERROR"@.len()) =~= "TERROR"@);
        assert(text::occurs_at(u, "TERROR"@, at));
    }
}

/// A status is put on the card, and a reason only where there is one; nothing else changes.
pub proof fn law_status_changes_the_status(my: CardView, status: Seq<char>, reason: Seq<char>)
    ensures
        with_status(my, status, reason).ws_status == status,
        reason.len() > 0 ==> with_status(my, status, reason).last_error == reason,
        reason.len() == 0 ==> with_status(my, status, reason).last_error == my.last_error,
        with_status(my, status, reason).nickname == my.nickname,
        with_status(my, status, reason).steam_id == my.steam_id,
        with_status(my, status, reason).avatar == my.avatar,
        with_status(my, status, reason).rank_label == my.rank_label,
        with_status(my, status, reason).rank_score == my.rank_score,
        with_status(my, status, reason).stats == my.stats,
{
}

/// The card takes over label and score of a rank that is known, and keeps its own where none is;
/// nothing else changes.
pub proof fn law_card_takes_the_known_rank(
    my: CardView,
    ranks: RankModel,
    sid: Seq<char>,
    meta: rank::RankMetaView,
)
    ensures
        ranks.rank(text::trimmed(sid)) == Some(meta) && meta.status == RankStatus::Ready
            ==> with_own_rank(my, ranks, sid).rank_label == meta.label && with_own_rank(
            my,
            ranks,
            sid,
        ).rank_score == meta.score,
        ranks.rank(text::trimmed(sid)) is None || (ranks.rank(text::trimmed(sid)) == Some(meta)
            && meta.status != RankStatus::Ready) ==> with_own_rank(my, ranks, sid) == my,
        with_own_rank(my, ranks, sid).nickname == my.nickname,
        with_own_rank(my, ranks, sid).steam_id == my.steam_id,
        with_own_rank(my, ranks, sid).avatar == my.avatar,
        with_own_rank(my, ranks, sid).ws_status == my.ws_status,
        with_own_rank(my, ranks, sid).last_error == my.last_error,
        with_own_rank(my, ranks, sid).stats == my.stats,
{
}

/// The players of a match are those of the message that have an id, one each and in order, with
/// the numbers of the message: a missing number counts zero, and who is not said to be dead is
/// alive.
pub proof fn law_players_are_those_of_the_message(list: Seq<PlayerPayload>, i: int)
    ensures
        ({
            let those = list.filter(
                |p: PlayerPayload| p.steam_id is Some && !text::all_white((p.steam_id->0)@),
            );
            let players = players_in(list);
            &&& players.len() == those.len()
            &&& 0 <= i < those.len() ==> {
                let (p, x) = (players[i], those[i]);
                &&& p.steam_id == text::trimmed((x.steam_id->0)@)
                &&& x.side matches Some(side) ==> p.side == side_in(side@)
                &&& x.side is None ==> p.side.len() == 0
                &&& x.name matches Some(name) ==> (!text::all_white(name@) ==> p.name == Some(name@))
                &&& x.name is None || text::all_white((x.name->0)@) ==> p.name is None
                &&& x.kill matches Some(n) ==> p.kill == n
                &&& x.death matches Some(n) ==> p.death == n
                &&& x.assist matches Some(n) ==> p.assist == n
                &&& x.kill is None ==> p.kill == 0
                &&& x.death is None ==> p.death == 0
                &&& x.assist is None ==> p.assist == 0
                &&& p.adr == x.adr
                &&& p.rating == x.rating
                &&& p.alive <==> x.alive != Some(false)
            }
        }),
    decreases list.len(),
{
    reveal(Seq::filter);
    let has_id = |p: PlayerPayload| p.steam_id is Some && !text::all_white((p.steam_id->0)@);
    if list.len() > 0 {
        let front = list.drop_last();
        let x = list.last();
        law_players_are_those_of_the_message(front, i);
        assert(text::trimmed(Seq::empty()) =~= Seq::empty());
        if x.steam_id is Some {
            text::lemma_all_white_trims((x.steam_id->0)@);
        }
        if x.name is Some {
            text::lemma_all_white_trims((x.name->0)@);
        }
        lemma_no_side();
        if has_id(x) {
            assert(list.filter(has_id) == front.filter(has_id).push(x));
            assert(player_in(x) is Some);
            assert(players_in(list) == players_in(front).push(player_in(x)->0));
        } else {
            assert(player_in(x) is None);
        }
    }
}

proof fn lemma_no_side()
    ensures
        side_in(Seq::empty()).len() == 0,
{
    let none = Seq::<char>::empty();
    assert(text::trimmed(none) =~= none);
    assert(text::upper_cased(none) =~= none);
    reveal_strlit("CT");
    reveal_strlit("T");
    reveal_strlit("COUNTER");
    reveal_strlit("TERROR");
    if text::has_text(none, "COUNTER"@) {
        let i = choose|i: int| text::occurs_at(none, "COUNTER"@, i);
        assert("COUNTER"@.len() == 7);
    }
    if text::has_text(none, "TERROR"@) {
        let i = choose|i: int| text::occurs_at(none, "TERROR"@, i);
        assert("TERROR"@.len() == 6);
    }
    assert("CT"@.len() == 2 && "T"@.len() == 1);
}

/// The match is the one that the message describes: its id without outer white space, its map and
/// its scores, zero where one is missing, and the halves as they came.
pub proof fn law_match_is_that_of_the_message(payload: MatchPayload)
    ensures
        payload.match_id matches Some(id) ==> match_of(payload).match_id == text::trimmed(id@),
        payload.match_id is None ==> match_of(payload).match_id.len() == 0,
        payload.map matches Some(map) ==> match_of(payload).map == map@,
        payload.map is None ==> match_of(payload).map.len() == 0,
        payload.ct_score matches Some(n) ==> match_of(payload).ct_score == n,
        payload.ct_score is None ==> match_of(payload).ct_score == 0,
        payload.t_score matches Some(n) ==> match_of(payload).t_score == n,
        payload.t_score is None ==> match_of(payload).t_score == 0,
        match_of(payload).ct_half == payload.ct_half,
        match_of(payload).t_half == payload.t_half,
        match_of(payload).players == players_in(payload.players@),
        match_id_of(payload) == match_of(payload).match_id,
{
}

/// A match is new exactly where none was known or the known one has another id; it starts without
/// any rank and without a table of kills.
pub proof fn law_match_is_new_by_its_id(
    app: AppModel,
    payload: MatchPayload,
    prev: Option<Vec<(String, crate::json::Json)>>,
    ranks: RankModel,
    id: Seq<char>,
)
    ensures
        is_new_match(app, payload) ==> ranks_at_start(app, payload, ranks).rank(id) is None
            && ranks_at_start(app, payload, ranks).nickname(id) is None,
        !is_new_match(app, payload) ==> ranks_at_start(app, payload, ranks) == ranks,
        app.match_state is None ==> is_new_match(app, payload),
        app.match_state matches Some(m) ==> (is_new_match(app, payload) <==> m.match_id != match_of(
            payload,
        ).match_id),
        is_new_match(app, payload) ==> table_before(app, payload, prev) is None,
        !is_new_match(app, payload) ==> table_before(app, payload, prev) == prev,
{
}

/// A message changes the match and the time; a new match also the status on the card, and the own
/// rank as far as it is known. Everything else stays.
pub proof fn law_message_changes_the_match(
    app: AppModel,
    payload: MatchPayload,
    ranks: RankModel,
    now: u64,
)
    ensures
        ({
            let after = app_after(app, payload, ranks, now);
            &&& after.match_state == Some(match_of(payload))
            &&& after.updated_at == now
            &&& after.avatar == app.avatar
            &&& after.plugins == app.plugins
            &&& after.datalog == app.datalog
            &&& after.board_showing == app.board_showing
            &&& after.cfg_epoch == app.cfg_epoch
            &&& !is_new_match(app, payload) ==> after.my == app.my
            &&& is_new_match(app, payload) ==> after.my.ws_status == "in-match"@
                && after.my.last_error == app.my.last_error && after.my.nickname
                == app.my.nickname && after.my.steam_id == app.my.steam_id && after.my.avatar
                == app.my.avatar && after.my.stats == app.my.stats
            &&& is_new_match(app, payload) ==> (ranks.rank(
                text::trimmed(app.my.steam_id),
            ) matches Some(meta) ==> (meta.status == RankStatus::Ready ==> after.my.rank_label
                == meta.label && after.my.rank_score == meta.score))
            &&& is_new_match(app, payload) && ranks.rank(text::trimmed(app.my.steam_id)) is None
                ==> after.my.rank_label == app.my.rank_label && after.my.rank_score
                == app.my.rank_score
        }),
{
}

/// Asking for the players of a list starts a lookup of exactly those that the cache does not know,
/// once each.
pub proof fn law_every_unknown_rank_is_looked_up(
    ranks: RankModel,
    list: Seq<PlayerView>,
    id: Seq<char>,
)
    ensures
        rank_lookups(ranks, list).contains(id) <==> ranks.must_queue(id) && exists|i: int|
            0 <= i < list.len() && text::trimmed((#[trigger] list[i]).steam_id) == id,
        rank_lookups(ranks, list).no_duplicates(),
{
    lemma_rank_lookups(ranks, list);
}

spec fn named_in(list: Seq<PlayerView>, id: Seq<char>) -> bool {
    exists|i: int| 0 <= i < list.len() && text::trimmed((#[trigger] list[i]).steam_id) == id
}

proof fn lemma_rank_lookups(ranks: RankModel, list: Seq<PlayerView>)
    ensures
        forall|id: Seq<char>| #[trigger]
            rank_lookups(ranks, list).contains(id) <==> ranks.must_queue(id) && named_in(list, id),
        forall|id: Seq<char>| #[trigger]
            ranks_asked(ranks, list).must_queue(id) <==> ranks.must_queue(id) && !named_in(list, id),
        rank_lookups(ranks, list).no_duplicates(),
    decreases list.len(),
{
    if list.len() > 0 {
        let front = list.drop_last();
        let last = text::trimmed(list.last().steam_id);
        let asked = ranks_asked(ranks, front);
        let before = rank_lookups(ranks, front);
        lemma_rank_lookups(ranks, front);
        assert(list[list.len() - 1] == list.last());
        assert forall|id: Seq<char>| #[trigger] named_in(list, id) <==> id == last || named_in(
            front,
            id,
        ) by {
            if named_in(list, id) {
                let i = choose|i: int|
                    0 <= i < list.len() && text::trimmed((#[trigger] list[i]).steam_id) == id;
                if i < front.len() {
                    assert(front[i] == list[i]);
                }
            }
            if named_in(front, id) {
                let i = choose|i: int|
                    0 <= i < front.len() && text::trimmed((#[trigger] front[i]).steam_id) == id;
                assert(list[i] == front[i]);
            }
            if id == last {
                assert(text::trimmed(list[list.len() - 1].steam_id) == id);
            }
        }
        if asked.must_queue(last) {
            rank::law_queued_once(asked, last);
            assert(!named_in(front, last));
            assert(!before.contains(last));
            let all = before.push(last);
            assert(rank_lookups(ranks, list) == all);
            assert forall|id: Seq<char>| #[trigger] all.contains(id) <==> id == last
                || before.contains(id) by {
                if before.contains(id) {
                    let k = choose|k: int| 0 <= k < before.len() && before[k] == id;
                    assert(all[k] == id);
                }
                if id == last {
                    assert(all[before.len() as int] == id);
                }
                if all.contains(id) && id != last {
                    let k = choose|k: int| 0 <= k < all.len() && all[k] == id;
                    assert(before[k] == id);
                }
            }
        }
        assert forall|id: Seq<char>| #[trigger]
            rank_lookups(ranks, list).contains(id) <==> ranks.must_queue(id) && named_in(
                list,
                id,
            ) by {
            assert(before.contains(id) <==> ranks.must_queue(id) && named_in(front, id));
            assert(asked.must_queue(last) <==> ranks.must_queue(last) && !named_in(front, last));
        }
        assert forall|id: Seq<char>| #[trigger]
            ranks_asked(ranks, list).must_queue(id) <==> ranks.must_queue(id) && !named_in(
                list,
                id,
            ) by {
            assert(asked.must_queue(id) <==> ranks.must_queue(id) && !named_in(front, id));
            if id != last {
                rank::law_question_is_local(asked, last, id);
            } else {
                rank::law_queued_once(asked, last);
            }
        }
    } else {
        assert(rank_lookups(ranks, list) =~= Seq::<Seq<char>>::empty());
    }
}

/// The card shows the statistics of the reply, each in its place.
pub proof fn law_statistics_go_on_the_card(my: CardView, s: DetailStats)
    ensures
        with_stats(my, Ok(Some(s))).stats matches Some(t) && t.avg_we == s.avg_we && t.rating_pro
            == s.pw_rating && t.season_cnt == s.cnt && t.adr == s.adr && t.win_rate == s.win_rate
            && t.kda == s.kd && t.headshot_ratio == s.head_shot_ratio && t.rws == s.rws && t.stars
            == s.stars && t.season_id == s.season_id@ && (s.summary matches Some(x) ==> t.summary
            == x@) && (s.summary is None ==> t.summary.len() == 0),
        with_stats(my, Ok(Some(s))).ws_status == my.ws_status,
        with_stats(my, Ok(Some(s))).rank_label == my.rank_label,
        with_stats(my, Ok(Some(s))).rank_score == my.rank_score,
        with_stats(my, Ok(Some(s))).nickname == my.nickname,
        with_stats(my, Ok(Some(s))).steam_id == my.steam_id,
        with_stats(my, Ok(Some(s))).last_error == my.last_error,
{
}

/// A reply without statistics, and any failure but a refused token, leaves the card; a refused
/// token is told on it, and the statistics stay.
pub proof fn law_failed_statistics_leave_the_card(my: CardView, e: String)
    ensures
        with_stats(my, Ok(None)) == my,
        with_stats(my, Err(StatsError::Other(e))) == my,
        with_stats(my, Err(StatsError::LoginExpired)).ws_status == "token-invalid"@,
        with_stats(my, Err(StatsError::LoginExpired)).last_error == "token 已失效, 请重新抓取"@,
        with_stats(my, Err(StatsError::LoginExpired)).stats == my.stats,
        with_stats(my, Err(StatsError::LoginExpired)).rank_label == my.rank_label,
        with_stats(my, Err(StatsError::LoginExpired)).nickname == my.nickname,
{
}

/// Statistics are asked for exactly where there is a token and an account: at once after either
/// changed, and then every ten minutes.
pub proof fn law_statistics_are_asked_for(
    last: Option<(Seq<char>, Seq<char>)>,
    cfg: MonitorConfigView,
)
    ensures
        stats_step(last, cfg) is Wait <==> text::trimmed(cfg.token).len() == 0 || text::trimmed(
            cfg.steam_id,
        ).len() == 0,
        stats_step(last, cfg) matches StatsStepView::Query { token, target } ==> token
            == text::trimmed(cfg.token) && target == text::trimmed(cfg.steam_id) && last != Some(
            (token, target),
        ),
        stats_step(last, cfg) matches StatsStepView::QueryAfter { millis, token, target } ==> millis
            == 10 * 60 * 1000 && token == text::trimmed(cfg.token) && target == text::trimmed(
            cfg.steam_id,
        ) && last == Some((token, target)),
{
}

/// An avatar is downloaded exactly where none is kept or the kept one has another address.
pub proof fn law_avatar_is_wanted_by_its_address(app: AppModel, url: Seq<char>)
    ensures
        app.avatar is None ==> avatar_wanted(app, url),
        app.avatar matches Some(a) ==> (avatar_wanted(app, url) <==> a.url != url),
{
}

} // verus!
