//! Recent results of players: a cache with a time limit and one lookup at a time per player.
//!
//! A lookup that fails counts as "no data yet" and is tried again once the entry is too old.

use crate::text;
use crate::wmpvp::{DetailStats, StatsError};
use vstd::hash_map::StringHashMap;
use vstd::hash_set::StringHashSet;
use vstd::prelude::*;
use vstd::string::*;

verus! {

/// How long an entry stays fresh, in nanoseconds: each player is looked up about once per match.
pub const CACHE_TTL: u64 = 1_800_000_000_000;

/// How many matches are shown.
pub const FORM_GAMES: usize = 5;

/// The last results of a player, latest first, and the stars of the top tier.
pub struct FormEntry {
    pub results: Vec<bool>,
    pub stars: Option<u32>,
}

/// The last results of a player, as a sequence.
pub struct FormEntryView {
    pub results: Seq<bool>,
    pub stars: Option<u32>,
}

impl View for FormEntry {
    type V = FormEntryView;

    open spec fn view(&self) -> FormEntryView {
        FormEntryView { results: self.results@, stars: self.stars }
    }
}

impl Clone for FormEntry {
    fn clone(&self) -> (r: Self)
        ensures
            r@ == self@,
    {
        let results = self.results.clone();
        assert(results@ =~= self.results@);
        FormEntry { results, stars: self.stars }
    }
}

/// No data yet.
pub open spec fn no_form() -> FormEntryView {
    FormEntryView { results: Seq::empty(), stars: None }
}

impl Default for FormEntry {
    fn default() -> (r: Self)
        ensures
            r@ == no_form(),
    {
        FormEntry { results: Vec::new(), stars: None }
    }
}

/// An entry and the time at which it was stored.
struct Slot {
    entry: FormEntry,
    at: u64,
}

/// An entry and the time at which it was stored, as a sequence.
pub struct SlotView {
    pub entry: FormEntryView,
    pub at: u64,
}

impl View for Slot {
    type V = SlotView;

    closed spec fn view(&self) -> SlotView {
        SlotView { entry: self.entry@, at: self.at }
    }
}

/// The results that were looked up, the lookups under way, and the token that lookups use.
pub struct FormService {
    token: String,
    map: StringHashMap<Slot>,
    pending: StringHashSet,
}

/// What the cache holds, which lookups are under way, and the token that they use.
#[verifier::ext_equal]
pub struct FormModel {
    pub token: Seq<char>,
    pub entries: Map<Seq<char>, SlotView>,
    pub pending: Set<Seq<char>>,
}

/// An entry stored at `at` is still fresh at `now`.
pub open spec fn is_fresh(at: u64, now: u64) -> bool {
    now - at < CACHE_TTL
}

impl FormModel {
    /// A lookup that is under way has an entry.
    pub open spec fn wf(self) -> bool {
        self.pending.subset_of(self.entries.dom())
    }

    /// A lookup of `sid` has to be started.
    pub open spec fn must_queue(self, sid: Seq<char>, now: u64) -> bool {
        &&& sid.len() > 0
        &&& !(self.entries.contains_key(sid) && is_fresh(self.entries[sid].at, now))
        &&& !self.pending.contains(sid)
    }

    /// The cache once `sid` was asked for. An entry that is too old stays until the lookup is
    /// done.
    pub open spec fn asked(self, sid: Seq<char>, now: u64) -> FormModel {
        if self.must_queue(sid, now) {
            FormModel {
                token: self.token,
                entries: if self.entries.contains_key(sid) {
                    self.entries
                } else {
                    self.entries.insert(sid, SlotView { entry: no_form(), at: now })
                },
                pending: self.pending.insert(sid),
            }
        } else {
            self
        }
    }

    /// What asking for `sid` gives at once.
    pub open spec fn answer(self, sid: Seq<char>) -> FormEntryView {
        if sid.len() > 0 && self.entries.contains_key(sid) {
            self.entries[sid].entry
        } else {
            no_form()
        }
    }

    /// The cache once `entry` is stored for `sid`.
    pub open spec fn stored(self, sid: Seq<char>, entry: FormEntryView, now: u64) -> FormModel {
        FormModel {
            token: self.token,
            entries: self.entries.insert(sid, SlotView { entry, at: now }),
            pending: self.pending.remove(sid),
        }
    }
}

/// The answer of the cache: what is known now, and the id whose lookup has to be started.
pub struct FormAnswer {
    pub entry: FormEntry,
    pub queue: Option<String>,
}

impl View for FormService {
    type V = FormModel;

    closed spec fn view(&self) -> FormModel {
        FormModel {
            token: self.token@,
            entries: self.map@.map_values(|s: Slot| s@),
            pending: self.pending@,
        }
    }
}

/// The stars in the outcome of a request for season statistics.
pub open spec fn stars_in(reply: Result<Option<DetailStats>, StatsError>) -> Option<u32> {
    match reply {
        Ok(Some(stats)) => stats.stars,
        _ => None,
    }
}

/// The stars in the outcome of a request for season statistics.
pub fn stars_of(reply: &Result<Option<DetailStats>, StatsError>) -> (r: Option<u32>)
    ensures
        r == stars_in(*reply),
{
    match reply {
        Ok(Some(stats)) => stats.stars,
        _ => None,
    }
}

impl FormService {
    /// An empty cache whose lookups use `token`.
    pub fn new(token: String) -> (r: FormService)
        ensures
            r@.token == token@,
            r@.entries == Map::<Seq<char>, SlotView>::empty(),
            r@.pending == Set::<Seq<char>>::empty(),
            r@.wf(),
    {
        let r = FormService { token, map: StringHashMap::new(), pending: StringHashSet::new() };
        assert(r@.entries =~= Map::<Seq<char>, SlotView>::empty());
        r
    }

    /// The token that lookups use.
    pub fn token(&self) -> (r: &str)
        ensures
            r@ == self@.token,
    {
        self.token.as_str()
    }

    /// Takes a new token; what was looked up with the old one is dropped.
    pub fn set_token(&mut self, token: String)
        ensures
            final(self)@.token == token@,
            final(self)@.entries == Map::<Seq<char>, SlotView>::empty(),
            final(self)@.pending == Set::<Seq<char>>::empty(),
            final(self)@.wf(),
    {
        self.token = token;
        self.map.clear();
        self.pending.clear();
        assert(self@.entries =~= Map::<Seq<char>, SlotView>::empty());
    }

    fn put(&mut self, sid: &str, slot: Slot)
        ensures
            final(self)@.entries == old(self)@.entries.insert(sid@, slot@),
            final(self)@.pending == old(self)@.pending,
            final(self)@.token == old(self)@.token,
    {
        self.map.insert(sid.to_owned(), slot);
        assert(self@.entries =~= old(self)@.entries.insert(sid@, slot@));
    }

    /// Stores the outcome of a queued lookup.
    pub fn complete(&mut self, sid: &str, results: Vec<bool>, stars: Option<u32>, now: u64)
        ensures
            final(self)@ == old(self)@.stored(
                sid@,
                (FormEntryView { results: results@, stars }),
                now,
            ),
            old(self)@.wf() ==> final(self)@.wf(),
    {
        self.pending.remove(sid);
        assert(self@.entries == old(self)@.entries);
        self.put(sid, Slot { entry: FormEntry { results, stars }, at: now });
    }

    /// Stores known results without a lookup.
    pub fn seed(&mut self, steam_id: &str, results: Vec<bool>, now: u64)
        ensures
            final(self)@ == (if text::trimmed(steam_id@).len() > 0 {
                old(self)@.stored(
                    text::trimmed(steam_id@),
                    (FormEntryView { results: results@, stars: None }),
                    now,
                )
            } else {
                old(self)@
            }),
            old(self)@.wf() ==> final(self)@.wf(),
    {
        let sid = text::trim(steam_id);
        if sid.as_str().is_empty() {
            return;
        }
        self.complete(sid.as_str(), results, None, now);
    }

    /// Asks for a player's last results. What the cache holds is given at once; a lookup is queued
    /// where the entry is missing or too old and none is under way.
    pub fn ensure(&mut self, steam_id: &str, now: u64) -> (r: FormAnswer)
        ensures
            r.entry@ == old(self)@.answer(text::trimmed(steam_id@)),
            text::opt_text(r.queue) == (if old(self)@.must_queue(text::trimmed(steam_id@), now) {
                Some(text::trimmed(steam_id@))
            } else {
                None
            }),
            final(self)@ == old(self)@.asked(text::trimmed(steam_id@), now),
            old(self)@.wf() ==> final(self)@.wf(),
    {
        let sid = text::trim(steam_id);
        if sid.as_str().is_empty() {
            return FormAnswer { entry: FormEntry::default(), queue: None };
        }
        let mut entry = FormEntry::default();
        let mut known = false;
        match self.map.get(sid.as_str()) {
            Some(slot) => {
                known = true;
                entry = slot.entry.clone();
                let age: u64 = if now > slot.at {
                    now - slot.at
                } else {
                    0
                };
                if age < CACHE_TTL {
                    return FormAnswer { entry, queue: None };
                }
            },
            None => {},
        }
        if self.pending.contains(sid.as_str()) {
            return FormAnswer { entry, queue: None };
        }
        self.pending.insert(sid.clone());
        assert(self@.entries == old(self)@.entries);
        if !known {
            self.put(sid.as_str(), Slot { entry: FormEntry::default(), at: now });
        }
        FormAnswer { entry, queue: Some(sid) }
    }
}

/// While a lookup is under way, or its outcome is fresh, the player is not queued again.
pub proof fn law_queued_once(m: FormModel, sid: Seq<char>, now: u64, later: u64)
    requires
        m.must_queue(sid, now),
    ensures
        !m.asked(sid, now).must_queue(sid, later),
        m.asked(sid, now).asked(sid, later) == m.asked(sid, now),
        m.asked(sid, now).answer(sid) == m.answer(sid),
{
}

/// A stored outcome is given back, and queues nothing until it is too old.
pub proof fn law_stored_is_answered(
    m: FormModel,
    sid: Seq<char>,
    entry: FormEntryView,
    now: u64,
    later: u64,
)
    requires
        sid.len() > 0,
    ensures
        m.stored(sid, entry, now).answer(sid) == entry,
        m.stored(sid, entry, now).must_queue(sid, later) <==> later - now >= CACHE_TTL,
{
}

/// A question for one player leaves what is known of every other.
pub proof fn law_question_is_local(m: FormModel, sid: Seq<char>, other: Seq<char>, now: u64)
    requires
        sid != other,
    ensures
        m.asked(sid, now).answer(other) == m.answer(other),
        m.asked(sid, now).must_queue(other, now) == m.must_queue(other, now),
{
}

/// Results are fresh for half an hour: within it they are not looked up again, and after it they
/// are, unless a lookup is under way. Five matches are shown.
pub proof fn law_results_are_fresh_for_half_an_hour(m: FormModel, sid: Seq<char>, now: u64)
    requires
        sid.len() > 0,
    ensures
        m.entries.contains_key(sid) && now - m.entries[sid].at < 30 * 60 * 1_000_000_000
            ==> !m.must_queue(sid, now),
        m.entries.contains_key(sid) && now - m.entries[sid].at >= 30 * 60 * 1_000_000_000
            && !m.pending.contains(sid) ==> m.must_queue(sid, now),
        !m.entries.contains_key(sid) && !m.pending.contains(sid) ==> m.must_queue(sid, now),
        m.pending.contains(sid) ==> !m.must_queue(sid, now),
        !m.must_queue(Seq::empty(), now),
        FORM_GAMES == 5,
{
}

/// What the cache holds is given as it is, also where it is too old; of an unknown player there are
/// no results and no stars.
pub proof fn law_answer_is_what_is_held(m: FormModel, sid: Seq<char>, now: u64)
    requires
        sid.len() > 0,
    ensures
        m.entries.contains_key(sid) ==> m.answer(sid) == m.entries[sid].entry,
        !m.entries.contains_key(sid) ==> m.answer(sid).results.len() == 0 && m.answer(
            sid,
        ).stars is None,
        m.must_queue(sid, now) ==> m.asked(sid, now).pending.contains(sid),
        !m.must_queue(sid, now) ==> m.asked(sid, now) == m,
        m.asked(sid, now).token == m.token,
{
}

/// A stored outcome changes nothing for another player.
pub proof fn law_stored_is_local(
    m: FormModel,
    sid: Seq<char>,
    entry: FormEntryView,
    now: u64,
    other: Seq<char>,
)
    requires
        sid != other,
    ensures
        m.stored(sid, entry, now).answer(other) == m.answer(other),
        m.stored(sid, entry, now).must_queue(other, now) == m.must_queue(other, now),
        m.stored(sid, entry, now).token == m.token,
{
}

/// The stars are those of the statistics, where there are any.
pub proof fn law_stars_are_those_of_the_statistics(stats: DetailStats, e: StatsError)
    ensures
        stars_in(Ok(Some(stats))) == stats.stars,
        stars_in(Ok(None)) is None,
        stars_in(Err(e)) is None,
{
}

} // verus!
