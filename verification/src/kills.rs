//! Who killed whom, and with what: the kills that a message of a running match adds.
//!
//! The platform sends a table of counts that only grow. What a message adds is the difference to
//! the table of the message before; the weapons are taken from the end of the history that comes
//! with it.

use crate::json::Json;
use crate::number::Real;
use crate::rank::{RankModel, RankService};
use crate::{json, text};
use vstd::prelude::*;
use vstd::string::*;

verus! {

/// A player in a message of a running match.
pub struct PlayerPayload {
    pub steam_id: Option<String>,
    pub side: Option<String>,
    pub kill: Option<u32>,
    pub death: Option<u32>,
    pub assist: Option<u32>,
    pub adr: Option<Real>,
    pub alive: Option<bool>,
    pub rating: Option<Real>,
    pub name: Option<String>,
}

/// A message of a running match.
pub struct MatchPayload {
    pub match_id: Option<String>,
    pub map: Option<String>,
    pub ct_score: Option<u32>,
    pub t_score: Option<u32>,
    pub ct_half: Option<u32>,
    pub t_half: Option<u32>,
    pub players: Vec<PlayerPayload>,
    /// Counts by killer, then by victim.
    pub kill_count: Option<Vec<(String, Json)>>,
    /// Single kills with their weapons, oldest first.
    pub kill_history: Option<Vec<Json>>,
}

/// The table of kills of the message before.
pub struct KillTracker {
    pub prev: Option<Vec<(String, Json)>>,
}

impl KillTracker {
    /// No message came yet.
    pub fn new() -> (r: KillTracker)
        ensures
            r.prev is None,
    {
        KillTracker { prev: None }
    }

    /// Forgets the message before.
    pub fn reset(&mut self)
        ensures
            final(self).prev is None,
    {
        self.prev = None;
    }
}

/// The prefix of weapon names.
pub const WEAPON_PREFIX: &'static str = "weapon_";

/// A weapon name without its prefixes, in lower case.
pub open spec fn weapon_name(raw: Seq<char>) -> Seq<char> {
    text::lower_cased(text::stripped(text::trimmed(raw), WEAPON_PREFIX@))
}

/// Writes a weapon name without its prefixes, in lower case.
pub fn weapon_code(raw: &str) -> (r: String)
    ensures
        r@ == weapon_name(raw@),
{
    proof {
        reveal_strlit("weapon_");
    }
    text::lowercase(text::strip_start(text::trim(raw).as_str(), WEAPON_PREFIX).as_str())
}

/// A killer and a victim.
pub type Kill = (Seq<char>, Seq<char>);

/// A killer, a victim and a weapon.
pub struct ArmedKill {
    pub killer: String,
    pub victim: String,
    pub weapon: String,
}

/// A killer, a victim and a weapon, by characters.
pub struct ArmedKillView {
    pub killer: Seq<char>,
    pub victim: Seq<char>,
    pub weapon: Seq<char>,
}

impl View for ArmedKill {
    type V = ArmedKillView;

    open spec fn view(&self) -> ArmedKillView {
        ArmedKillView { killer: self.killer@, victim: self.victim@, weapon: self.weapon@ }
    }
}

/// Kills with their weapons, by characters.
pub open spec fn armed_views(v: Seq<ArmedKill>) -> Seq<ArmedKillView> {
    v.map_values(|k: ArmedKill| k@)
}

/// Kills, by characters.
pub open spec fn kill_views(v: Seq<(String, String)>) -> Seq<Kill> {
    text::text_pairs(v)
}

/// The text under a name, without outer white space; none where it is blank.
pub open spec fn named(h: Json, key: Seq<char>) -> Option<Seq<char>> {
    match json::text_in(h.field(key)) {
        Some(t) if text::trimmed(t).len() > 0 => Some(text::trimmed(t)),
        _ => None,
    }
}

/// The first that is there.
pub open spec fn either(a: Option<Seq<char>>, b: Option<Seq<char>>) -> Option<Seq<char>> {
    if a is Some {
        a
    } else {
        b
    }
}

/// The killer in an entry of the history.
pub open spec fn killer_in(h: Json) -> Option<Seq<char>> {
    either(either(named(h, "KillerId"@), named(h, "killerId"@)), named(h, "killer"@))
}

/// The victim in an entry of the history.
pub open spec fn victim_in(h: Json) -> Option<Seq<char>> {
    either(
        either(
            either(either(named(h, "VictimId"@), named(h, "victimId"@)), named(h, "victim"@)),
            named(h, "deadId"@),
        ),
        named(h, "DeadId"@),
    )
}

/// The weapon in an entry of the history; empty where there is none.
pub open spec fn weapon_in(h: Json) -> Seq<char> {
    text::text_or_empty(
        either(either(named(h, "Weapon"@), named(h, "weapon"@)), named(h, "gun"@)),
    )
}

/// An entry of the history: none without a killer or a victim.
pub open spec fn entry_in(h: Json) -> Option<ArmedKillView> {
    match (killer_in(h), victim_in(h)) {
        (Some(killer), Some(victim)) => Some(
            ArmedKillView { killer, victim, weapon: weapon_in(h) },
        ),
        _ => None,
    }
}

fn named_text(h: &Json, key: &str) -> (r: Option<String>)
    ensures
        text::opt_text(r) == named(*h, key@),
{
    match h.text_at(key) {
        Some(t) => {
            let v = text::trim(t);
            if v.as_str().is_empty() {
                None
            } else {
                Some(v)
            }
        },
        None => None,
    }
}

fn or_named(a: Option<String>, h: &Json, key: &str) -> (r: Option<String>)
    ensures
        text::opt_text(r) == either(text::opt_text(a), named(*h, key@)),
{
    if a.is_some() {
        a
    } else {
        named_text(h, key)
    }
}

/// Reads an entry of the history, under any of the names that its parts go by.
pub fn hist_entry(h: &Json) -> (r: Option<ArmedKill>)
    ensures
        match r {
            Some(k) => entry_in(*h) == Some(k@),
            None => entry_in(*h) is None,
        },
{
    let killer = or_named(or_named(named_text(h, "KillerId"), h, "killerId"), h, "killer");
    let victim = or_named(
        or_named(
            or_named(or_named(named_text(h, "VictimId"), h, "victimId"), h, "victim"),
            h,
            "deadId",
        ),
        h,
        "DeadId",
    );
    let weapon = or_named(or_named(named_text(h, "Weapon"), h, "weapon"), h, "gun");
    let weapon = match weapon {
        Some(w) => w,
        None => String::new(),
    };
    match (killer, victim) {
        (Some(killer), Some(victim)) => Some(ArmedKill { killer, victim, weapon }),
        _ => None,
    }
}

/// A count in the table; zero where it is no count.
pub open spec fn count_in(v: Option<Json>) -> nat {
    match json::uint_in(v) {
        Some(n) => n as nat,
        None => 0,
    }
}

/// How often `killer` had killed `victim`.
pub open spec fn count_before(
    prev: Seq<(String, Json)>,
    killer: Seq<char>,
    victim: Seq<char>,
) -> nat {
    match json::member_of(prev, killer) {
        Some(v) => count_in(v.field(victim)),
        None => 0,
    }
}

/// `k`, `n` times.
pub open spec fn times(k: Kill, n: nat) -> Seq<Kill> {
    Seq::new(n, |i: int| k)
}

/// How much a count grew.
pub open spec fn growth(now: nat, before: nat) -> nat {
    if now > before {
        (now - before) as nat
    } else {
        0
    }
}

/// The kills that the counts of one killer add.
pub open spec fn kills_by(
    killer: Seq<char>,
    victims: Seq<(String, Json)>,
    prev: Seq<(String, Json)>,
) -> Seq<Kill>
    decreases victims.len(),
{
    if victims.len() == 0 {
        Seq::empty()
    } else {
        let (victim, cnt) = victims.last();
        kills_by(killer, victims.drop_last(), prev) + times(
            (killer, victim@),
            growth(count_in(Some(cnt)), count_before(prev, killer, victim@)),
        )
    }
}

/// The kills that a table adds to the table before, in the order of the table.
pub open spec fn kills_since(
    table: Seq<(String, Json)>,
    prev: Seq<(String, Json)>,
) -> Seq<Kill>
    decreases table.len(),
{
    if table.len() == 0 {
        Seq::empty()
    } else {
        let (killer, victims) = table.last();
        kills_since(table.drop_last(), prev) + (match victims {
            Json::Object(fields) => kills_by(killer@, fields@, prev),
            _ => Seq::empty(),
        })
    }
}

fn push_kills(out: &mut Vec<(String, String)>, killer: &str, victim: &str, n: u64)
    ensures
        kill_views(final(out)@) == kill_views(old(out)@) + times((killer@, victim@), n as nat),
{
    let ghost start = kill_views(out@);
    let mut i: u64 = 0;
    assert(kill_views(out@) =~= start + times((killer@, victim@), 0));
    while i < n
        invariant
            i <= n,
            kill_views(out@) == start + times((killer@, victim@), i as nat),
        decreases n - i,
    {
        text::push_pair(out, killer, victim);
        assert((start + times((killer@, victim@), i as nat)).push((killer@, victim@)) =~= start
            + times((killer@, victim@), (i + 1) as nat));
        i += 1;
    }
}

fn count_of(v: Option<&Json>) -> (r: u64)
    ensures
        r == count_in(
            match v {
                Some(x) => Some(*x),
                None => None,
            },
        ),
{
    match v {
        Some(x) => match x.as_u64() {
            Some(n) => n,
            None => 0,
        },
        None => 0,
    }
}

/// The kills that a table adds to the table before.
pub fn new_kills(
    table: &Vec<(String, Json)>,
    prev: &Vec<(String, Json)>,
) -> (r: Vec<(String, String)>)
    ensures
        kill_views(r@) == kills_since(table@, prev@),
{
    let mut out: Vec<(String, String)> = Vec::new();
    let mut i: usize = 0;
    assert(table@.take(0) == Seq::<(String, Json)>::empty());
    assert(kill_views(out@) =~= kills_since(table@.take(0), prev@));
    while i < table.len()
        invariant
            i <= table@.len(),
            kill_views(out@) == kills_since(table@.take(i as int), prev@),
        decreases table@.len() - i,
    {
        let ghost done = kill_views(out@);
        assert(table@.take(i + 1).drop_last() == table@.take(i as int));
        assert(table@.take(i + 1).last() == table@[i as int]);
        let killer = table[i].0.as_str();
        match table[i].1.as_object() {
            Some(victims) => {
                let mut j: usize = 0;
                assert(victims@.take(0) == Seq::<(String, Json)>::empty());
                assert(done + kills_by(killer@, victims@.take(0), prev@) =~= done);
                while j < victims.len()
                    invariant
                        j <= victims@.len(),
                        kill_views(out@) == done + kills_by(
                            killer@,
                            victims@.take(j as int),
                            prev@,
                        ),
                    decreases victims@.len() - j,
                {
                    let victim = victims[j].0.as_str();
                    let now: u64 = count_of(Some(&victims[j].1));
                    let before: u64 = match json::member(prev, killer) {
                        Some(v) => count_of(v.get(victim)),
                        None => 0,
                    };
                    let grown: u64 = if now > before {
                        now - before
                    } else {
                        0
                    };
                    proof {
                        assert(victims@.take(j + 1).drop_last() == victims@.take(j as int));
                        assert(victims@.take(j + 1).last() == victims@[j as int]);
                        let x = kills_by(killer@, victims@.take(j as int), prev@);
                        let y = times((killer@, victim@), grown as nat);
                        assert(done + (x + y) =~= (done + x) + y);
                    }
                    push_kills(&mut out, killer, victim, grown);
                    j += 1;
                }
                assert(victims@.take(j as int) == victims@);
            },
            None => {
                assert(done + Seq::<Kill>::empty() == done);
            },
        }
        i += 1;
    }
    assert(table@.take(i as int) == table@);
    out
}

/// `list` without the first `k` in it.
pub open spec fn without(list: Seq<Kill>, k: Kill) -> Seq<Kill>
    decreases list.len(),
{
    if list.len() == 0 {
        Seq::empty()
    } else if list.first() == k {
        list.drop_first()
    } else {
        seq![list.first()] + without(list.drop_first(), k)
    }
}

/// The kills of the history that are among `left`, from the end of the history on, each taken
/// out of `left` once; and what is then left.
pub open spec fn armed(history: Seq<Json>, left: Seq<Kill>) -> (Seq<ArmedKillView>, Seq<Kill>)
    decreases history.len(),
{
    if history.len() == 0 {
        (Seq::empty(), left)
    } else {
        match entry_in(history.last()) {
            Some(e) if left.contains((e.killer, e.victim)) => {
                let (found, rest) = armed(
                    history.drop_last(),
                    without(left, (e.killer, e.victim)),
                );
                (
                    seq![ArmedKillView { weapon: weapon_name(e.weapon), ..e }] + found,
                    rest,
                )
            },
            _ => armed(history.drop_last(), left),
        }
    }
}

/// A kill whose weapon is not known.
pub open spec fn bare_handed(k: Kill) -> ArmedKillView {
    ArmedKillView { killer: k.0, victim: k.1, weapon: Seq::empty() }
}

/// New kills with their weapons: first those that the history tells, latest first, then the others.
pub open spec fn with_weapons(history: Seq<Json>, kills: Seq<Kill>) -> Seq<ArmedKillView> {
    let (found, rest) = armed(history, kills);
    found + rest.map_values(|k: Kill| bare_handed(k))
}

proof fn lemma_without(list: Seq<Kill>, k: Kill, i: int)
    requires
        0 <= i < list.len(),
        list[i] == k,
        forall|j: int| 0 <= j < i ==> list[j] != k,
    ensures
        without(list, k) == list.remove(i),
    decreases list.len(),
{
    if i > 0 {
        assert(list.first() == list[0]);
        lemma_without(list.drop_first(), k, i - 1);
        assert(seq![list.first()] + list.drop_first().remove(i - 1) =~= list.remove(i));
    } else {
        assert(list.drop_first() =~= list.remove(0));
    }
}

fn take_out(left: &mut Vec<(String, String)>, killer: &str, victim: &str) -> (r: bool)
    ensures
        r == kill_views(old(left)@).contains((killer@, victim@)),
        kill_views(final(left)@) == (if r {
            without(kill_views(old(left)@), (killer@, victim@))
        } else {
            kill_views(old(left)@)
        }),
{
    let ghost all = kill_views(left@);
    let ghost k = (killer@, victim@);
    let mut i: usize = 0;
    while i < left.len()
        invariant
            i <= left@.len(),
            all == kill_views(left@),
            all == kill_views(old(left)@),
            k == (killer@, victim@),
            forall|j: int| 0 <= j < i ==> #[trigger] all[j] != k,
        decreases left@.len() - i,
    {
        assert(all[i as int] == (left@[i as int].0@, left@[i as int].1@));
        if text::same(left[i].0.as_str(), killer) && text::same(left[i].1.as_str(), victim) {
            proof {
                lemma_without(all, k, i as int);
            }
            left.remove(i);
            assert(kill_views(left@) =~= all.remove(i as int));
            return true;
        }
        i += 1;
    }
    false
}

/// Finds the weapons of new kills.
pub fn arm_kills(history: &Vec<Json>, kills: Vec<(String, String)>) -> (r: Vec<ArmedKill>)
    ensures
        armed_views(r@) == with_weapons(history@, kill_views(kills@)),
{
    let ghost all = kill_views(kills@);
    let mut left = kills;
    let mut out: Vec<ArmedKill> = Vec::new();
    let mut i: usize = history.len();
    assert(history@.take(i as int) == history@);
    assert(armed_views(out@) =~= Seq::<ArmedKillView>::empty());
    assert(Seq::<ArmedKillView>::empty() + armed(history@, all).0 =~= armed(history@, all).0);
    while i > 0
        invariant
            i <= history@.len(),
            armed(history@, all).0 == armed_views(out@) + armed(
                history@.take(i as int),
                kill_views(left@),
            ).0,
            armed(history@, all).1 == armed(history@.take(i as int), kill_views(left@)).1,
        decreases i,
    {
        i -= 1;
        proof {
            assert(history@.take(i + 1).drop_last() == history@.take(i as int));
            assert(history@.take(i + 1).last() == history@[i as int]);
        }
        match hist_entry(&history[i]) {
            Some(e) => {
                let ghost done = armed_views(out@);
                let ghost entry = e@;
                if take_out(&mut left, e.killer.as_str(), e.victim.as_str()) {
                    let weapon = weapon_code(e.weapon.as_str());
                    out.push(ArmedKill { killer: e.killer, victim: e.victim, weapon });
                    proof {
                        let x = ArmedKillView { weapon: weapon_name(entry.weapon), ..entry };
                        let rest = armed(history@.take(i as int), kill_views(left@)).0;
                        assert(armed_views(out@) =~= done.push(x));
                        assert(done + (seq![x] + rest) =~= done.push(x) + rest);
                    }
                }
            },
            None => {},
        }
    }
    assert(armed_views(out@) + Seq::<ArmedKillView>::empty() =~= armed_views(out@));
    let ghost found = armed_views(out@);
    let ghost rest = kill_views(left@);
    let mut j: usize = 0;
    let ghost bare = |k: Kill| bare_handed(k);
    assert(found + rest.take(0).map_values(bare) =~= found);
    while j < left.len()
        invariant
            j <= left@.len(),
            rest == kill_views(left@),
            bare == (|k: Kill| bare_handed(k)),
            armed_views(out@) == found + rest.take(j as int).map_values(bare),
        decreases left@.len() - j,
    {
        let ghost done = armed_views(out@);
        out.push(
            ArmedKill {
                killer: left[j].0.clone(),
                victim: left[j].1.clone(),
                weapon: String::new(),
            },
        );
        proof {
            let k = rest[j as int];
            assert(armed_views(out@) =~= done.push(bare_handed(k)));
            let t = rest.take(j as int);
            assert(rest.take(j + 1) =~= t.push(k));
            assert(t.push(k).map_values(bare) =~= t.map_values(bare).push(bare(k)));
            assert(found + t.map_values(bare).push(bare(k)) =~= done.push(bare_handed(k)));
        }
        j += 1;
    }
    assert(rest.take(j as int) == rest);
    out
}

/// The killers and victims of a list.
pub open spec fn pairs(list: Seq<ArmedKillView>) -> Seq<Kill> {
    list.map_values(|e: ArmedKillView| (e.killer, e.victim))
}

proof fn lemma_armed(history: Seq<Json>, left: Seq<Kill>)
    ensures
        pairs(armed(history, left).0).to_multiset().add(armed(history, left).1.to_multiset())
            == left.to_multiset(),
    decreases history.len(),
{
    broadcast use vstd::multiset::group_multiset_axioms;
    broadcast use vstd::seq_lib::group_to_multiset_ensures;

    if history.len() == 0 {
        assert(pairs(Seq::<ArmedKillView>::empty()) =~= Seq::<Kill>::empty());
        assert(Seq::<Kill>::empty().to_multiset().add(left.to_multiset()) =~= left.to_multiset());
    } else {
        match entry_in(history.last()) {
            Some(e) if left.contains((e.killer, e.victim)) => {
                let k = (e.killer, e.victim);
                let x = ArmedKillView { weapon: weapon_name(e.weapon), ..e };
                let i = lemma_first(left, k);
                lemma_without(left, k, i);
                lemma_armed(history.drop_last(), without(left, k));
                let (found, rest) = armed(history.drop_last(), without(left, k));
                assert(pairs(seq![x] + found) =~= pairs(found).insert(0, k));
                let told = pairs(found).to_multiset();
                let kept = rest.to_multiset();
                let all = left.to_multiset();
                assert(all.count(k) > 0);
                assert(without(left, k).to_multiset() == all.remove(k));
                assert(pairs(found).insert(0, k).to_multiset() == told.insert(k));
                assert forall|x: Kill| told.insert(k).add(kept).count(x) == all.count(x) by {
                    assert(told.add(kept).count(x) == all.remove(k).count(x));
                }
                assert(told.insert(k).add(kept) =~= all);
            },
            _ => {
                lemma_armed(history.drop_last(), left);
            },
        }
    }
}

proof fn lemma_first(list: Seq<Kill>, k: Kill) -> (i: int)
    requires
        list.contains(k),
    ensures
        0 <= i < list.len(),
        list[i] == k,
        forall|j: int| 0 <= j < i ==> list[j] != k,
    decreases list.len(),
{
    if list.first() == k {
        0
    } else {
        let j = choose|j: int| 0 <= j < list.len() && list[j] == k;
        assert(list.drop_first()[j - 1] == k);
        let i = lemma_first(list.drop_first(), k) + 1;
        assert forall|j: int| 0 <= j < i implies list[j] != k by {
            if j > 0 {
                assert(list.drop_first()[j - 1] == list[j]);
            }
        }
        i
    }
}

/// Every new kill is told exactly once, whatever the history says.
pub proof fn law_every_kill_is_told_once(history: Seq<Json>, kills: Seq<Kill>)
    ensures
        pairs(with_weapons(history, kills)).to_multiset() == kills.to_multiset(),
{
    let (found, rest) = armed(history, kills);
    let bare = rest.map_values(|k: Kill| bare_handed(k));
    lemma_armed(history, kills);
    assert(pairs(bare) =~= rest);
    assert(pairs(found + bare) =~= pairs(found) + rest);
    vstd::seq_lib::lemma_multiset_commutative(pairs(found), rest);
}

/// Without new kills nothing is told, whatever the history says.
pub proof fn law_no_kill_no_news(history: Seq<Json>)
    ensures
        with_weapons(history, Seq::<Kill>::empty()) == Seq::<ArmedKillView>::empty(),
{
    broadcast use vstd::seq_lib::group_to_multiset_ensures;

    law_every_kill_is_told_once(history, Seq::empty());
    let told = with_weapons(history, Seq::<Kill>::empty());
    assert(pairs(told).to_multiset().len() == Seq::<Kill>::empty().to_multiset().len());
    assert(pairs(told).len() == told.len());
    assert(told =~= Seq::<ArmedKillView>::empty());
}

/// No name stands twice among the members.
pub open spec fn distinct(fields: Seq<(String, Json)>) -> bool {
    forall|i: int, j: int|
        0 <= i < j < fields.len() ==> (#[trigger] fields[i]).0@ != (#[trigger] fields[j]).0@
}

/// No killer stands twice in a table, nor a victim twice under a killer.
pub open spec fn is_table(table: Seq<(String, Json)>) -> bool {
    distinct(table) && forall|i: int|
        0 <= i < table.len() ==> ((#[trigger] table[i]).1 matches Json::Object(fields)
            ==> distinct(fields@))
}

proof fn lemma_member(fields: Seq<(String, Json)>, key: Seq<char>)
    ensures
        match json::member_of(fields, key) {
            Some(v) => exists|i: int|
                0 <= i < fields.len() && (#[trigger] fields[i]).0@ == key && fields[i].1 == v,
            None => forall|i: int| 0 <= i < fields.len() ==> (#[trigger] fields[i]).0@ != key,
        },
    decreases fields.len(),
{
    if fields.len() > 0 {
        let rest = fields.drop_first();
        if fields.first().0@ == key {
            assert(fields[0].1 == fields.first().1);
        } else {
            lemma_member(rest, key);
            match json::member_of(rest, key) {
                Some(v) => {
                    let i = choose|i: int|
                        0 <= i < rest.len() && (#[trigger] rest[i]).0@ == key && rest[i].1 == v;
                    assert(fields[i + 1] == rest[i]);
                },
                None => {
                    assert forall|i: int| 0 <= i < fields.len() implies (
                    #[trigger] fields[i]).0@ != key by {
                        if i > 0 {
                            assert(rest[i - 1] == fields[i]);
                        }
                    }
                },
            }
        }
    }
}

proof fn lemma_member_before_last(fields: Seq<(String, Json)>, key: Seq<char>)
    requires
        distinct(fields),
        fields.len() > 0,
    ensures
        distinct(fields.drop_last()),
        key == fields.last().0@ ==> json::member_of(fields, key) == Some(fields.last().1)
            && json::member_of(fields.drop_last(), key) is None,
        key != fields.last().0@ ==> json::member_of(fields, key) == json::member_of(
            fields.drop_last(),
            key,
        ),
{
    let front = fields.drop_last();
    assert forall|i: int, j: int| 0 <= i < j < front.len() implies (#[trigger] front[i]).0@ != (
    #[trigger] front[j]).0@ by {
        assert(fields[i] == front[i] && fields[j] == front[j]);
    }
    lemma_member(fields, key);
    lemma_member(front, key);
    assert(forall|i: int| 0 <= i < front.len() ==> front[i] == fields[i]);
    assert(fields[fields.len() - 1] == fields.last());
    if key != fields.last().0@ {
        match json::member_of(fields, key) {
            Some(v) => {
                let i = choose|i: int|
                    0 <= i < fields.len() && (#[trigger] fields[i]).0@ == key && fields[i].1 == v;
                assert(front[i].0@ == key);
                let w = json::member_of(front, key)->0;
                let j = choose|j: int|
                    0 <= j < front.len() && (#[trigger] front[j]).0@ == key && front[j].1 == w;
                assert(fields[j].0@ == fields[i].0@);
            },
            None => {
                if json::member_of(front, key) is Some {
                    let w = json::member_of(front, key)->0;
                    let j = choose|j: int|
                        0 <= j < front.len() && (#[trigger] front[j]).0@ == key && front[j].1 == w;
                    assert(fields[j].0@ == key);
                }
            },
        }
    } else {
        if json::member_of(front, key) is Some {
            let w = json::member_of(front, key)->0;
            let j = choose|j: int|
                0 <= j < front.len() && (#[trigger] front[j]).0@ == key && front[j].1 == w;
            assert(fields[j].0@ == fields[fields.len() - 1].0@);
        }
        let v = json::member_of(fields, key)->0;
        assert(fields[fields.len() - 1].0@ == key);
        let i = choose|i: int|
            0 <= i < fields.len() && (#[trigger] fields[i]).0@ == key && fields[i].1 == v;
        assert(fields[i].0@ == fields[fields.len() - 1].0@);
    }
}

proof fn lemma_times(k: Kill, n: nat, x: Kill)
    ensures
        times(k, n).to_multiset().count(x) == (if x == k {
            n
        } else {
            0
        }),
    decreases n,
{
    broadcast use vstd::multiset::group_multiset_axioms;
    broadcast use vstd::seq_lib::group_to_multiset_ensures;

    if n > 0 {
        lemma_times(k, (n - 1) as nat, x);
        assert(times(k, n) =~= times(k, (n - 1) as nat).push(k));
    } else {
        assert(times(k, 0) =~= Seq::<Kill>::empty());
    }
}

proof fn lemma_kills_by(
    killer: Seq<char>,
    victims: Seq<(String, Json)>,
    prev: Seq<(String, Json)>,
    k: Seq<char>,
    v: Seq<char>,
)
    requires
        distinct(victims),
    ensures
        kills_by(killer, victims, prev).to_multiset().count((k, v)) == (if k == killer {
            growth(count_in(json::member_of(victims, v)), count_before(prev, k, v))
        } else {
            0
        }),
    decreases victims.len(),
{
    broadcast use vstd::multiset::group_multiset_axioms;
    broadcast use vstd::seq_lib::group_to_multiset_ensures;

    if victims.len() > 0 {
        let (victim, cnt) = victims.last();
        let front = victims.drop_last();
        lemma_member_before_last(victims, v);
        lemma_kills_by(killer, front, prev, k, v);
        let n = growth(count_in(Some(cnt)), count_before(prev, killer, victim@));
        let t = times((killer, victim@), n);
        lemma_times((killer, victim@), n, (k, v));
        vstd::seq_lib::lemma_multiset_commutative(kills_by(killer, front, prev), t);
    }
}

/// A pair is told as often as its count grew from one table to the next.
pub proof fn law_kills_are_the_growth(
    table: Seq<(String, Json)>,
    prev: Seq<(String, Json)>,
    k: Seq<char>,
    v: Seq<char>,
)
    requires
        is_table(table),
    ensures
        kills_since(table, prev).to_multiset().count((k, v)) == growth(
            count_before(table, k, v),
            count_before(prev, k, v),
        ),
    decreases table.len(),
{
    broadcast use vstd::multiset::group_multiset_axioms;
    broadcast use vstd::seq_lib::group_to_multiset_ensures;

    if table.len() > 0 {
        let (killer, victims) = table.last();
        let front = table.drop_last();
        assert(table[table.len() - 1] == table.last());
        lemma_member_before_last(table, k);
        assert(is_table(front)) by {
            assert forall|i: int| 0 <= i < front.len() implies ((#[trigger] front[i]).1 matches Json::Object(
                fields,
            ) ==> distinct(fields@)) by {
                assert(front[i] == table[i]);
            }
        }
        law_kills_are_the_growth(front, prev, k, v);
        let added = match victims {
            Json::Object(fields) => kills_by(killer@, fields@, prev),
            _ => Seq::empty(),
        };
        vstd::seq_lib::lemma_multiset_commutative(kills_since(front, prev), added);
        match victims {
            Json::Object(fields) => {
                lemma_kills_by(killer@, fields@, prev, k, v);
            },
            _ => {},
        }
    }
}

/// A table that comes again adds nothing.
pub proof fn law_same_table_adds_nothing(table: Seq<(String, Json)>)
    requires
        is_table(table),
    ensures
        kills_since(table, table) == Seq::<Kill>::empty(),
{
    broadcast use vstd::seq_lib::group_to_multiset_ensures;

    let kills = kills_since(table, table);
    if kills.len() > 0 {
        let (k, v) = kills[0];
        law_kills_are_the_growth(table, table, k, v);
        assert(kills.contains((k, v)));
    }
    assert(kills =~= Seq::<Kill>::empty());
}

/// While the counts grow, a table in between changes nothing in how often a pair is told.
pub proof fn law_no_kill_is_lost(
    first: Seq<(String, Json)>,
    between: Seq<(String, Json)>,
    last: Seq<(String, Json)>,
    k: Seq<char>,
    v: Seq<char>,
)
    requires
        is_table(between),
        is_table(last),
        count_before(first, k, v) <= count_before(between, k, v) <= count_before(last, k, v),
    ensures
        kills_since(between, first).to_multiset().count((k, v)) + kills_since(
            last,
            between,
        ).to_multiset().count((k, v)) == kills_since(last, first).to_multiset().count((k, v)),
{
    law_kills_are_the_growth(between, first, k, v);
    law_kills_are_the_growth(last, between, k, v);
    law_kills_are_the_growth(last, first, k, v);
}

/// A player goes by `key`: the table holds the last part of an id, commonly its last eight
/// characters.
pub open spec fn goes_by(p: PlayerPayload, key: Seq<char>) -> bool {
    key.len() > 0 && (text::opt_text(p.steam_id) matches Some(id) && (text::has_suffix(id, key)
        || text::has_suffix(key, id)))
}

/// The first player that goes by `key`.
pub open spec fn player_with(players: Seq<PlayerPayload>, key: Seq<char>) -> Option<PlayerPayload>
    decreases players.len(),
{
    if players.len() == 0 {
        None
    } else if goes_by(players.first(), key) {
        Some(players.first())
    } else {
        player_with(players.drop_first(), key)
    }
}

fn find_player<'a>(players: &'a Vec<PlayerPayload>, key: &str) -> (r: Option<&'a PlayerPayload>)
    ensures
        match r {
            Some(p) => player_with(players@, key@) == Some(*p) && goes_by(*p, key@),
            None => player_with(players@, key@) is None,
        },
{
    let mut i: usize = 0;
    assert(players@.skip(0) == players@);
    while i < players.len()
        invariant
            i <= players@.len(),
            player_with(players@, key@) == player_with(players@.skip(i as int), key@),
        decreases players@.len() - i,
    {
        assert(players@.skip(i as int).first() == players@[i as int]);
        assert(players@.skip(i as int).drop_first() == players@.skip(i + 1));
        match &players[i].steam_id {
            Some(id) => {
                if !key.is_empty() && (text::ends_with(id.as_str(), key) || text::ends_with(
                    key,
                    id.as_str(),
                )) {
                    return Some(&players[i]);
                }
            },
            None => {},
        }
        i += 1;
    }
    None
}

/// The full id of the player that goes by `key`.
pub open spec fn full_id(players: Seq<PlayerPayload>, key: Seq<char>) -> Option<Seq<char>> {
    match player_with(players, text::trimmed(key)) {
        Some(p) => text::opt_text(p.steam_id),
        None => None,
    }
}

/// Finds the full id of the player that goes by `key`.
pub fn full_steam_id(key: &str, payload: &MatchPayload) -> (r: Option<String>)
    ensures
        text::opt_text(r) == full_id(payload.players@, key@),
{
    match find_player(&payload.players, text::trim(key).as_str()) {
        Some(p) => p.steam_id.clone(),
        None => None,
    }
}

/// The nickname of the player that goes by `key`: the one of the message before the one of the
/// cache.
pub open spec fn nickname_of(
    players: Seq<PlayerPayload>,
    ranks: RankModel,
    key: Seq<char>,
) -> Option<Seq<char>> {
    match player_with(players, text::trimmed(key)) {
        Some(p) => either(
            text::not_blank(text::opt_text(p.name)),
            text::not_blank(ranks.nickname(text::trimmed(text::opt_text(p.steam_id)->0))),
        ),
        None => None,
    }
}

/// What to call the player that goes by `key`: the short form of the key where no nickname is
/// known.
pub open spec fn name_to_show(
    players: Seq<PlayerPayload>,
    ranks: RankModel,
    key: Seq<char>,
) -> Seq<char> {
    match nickname_of(players, ranks, key) {
        Some(n) => n,
        None => text::short_form(text::trimmed(key)),
    }
}

/// The player that goes by `key` can be named.
pub open spec fn can_be_named(
    players: Seq<PlayerPayload>,
    ranks: RankModel,
    key: Seq<char>,
) -> bool {
    nickname_of(players, ranks, key) is Some || text::short_form_exists(text::trimmed(key))
}

fn find_nickname(key: &str, payload: &MatchPayload, ranks: &RankService) -> (r: Option<String>)
    ensures
        text::opt_text(r) == nickname_of(payload.players@, ranks@, key@),
{
    match find_player(&payload.players, text::trim(key).as_str()) {
        Some(p) => {
            let name = text::unless_blank(&p.name);
            if name.is_some() {
                return name;
            }
            match &p.steam_id {
                Some(id) => text::unless_blank(&ranks.name(id.as_str())),
                None => None,
            }
        },
        None => None,
    }
}

/// What to call the player that goes by `key`.
pub fn display_name(key: &str, payload: &MatchPayload, ranks: &RankService) -> (r: String)
    requires
        can_be_named(payload.players@, ranks@, key@),
    ensures
        r@ == name_to_show(payload.players@, ranks@, key@),
{
    match find_nickname(key, payload, ranks) {
        Some(n) => n,
        None => text::short_id(text::trim(key).as_str()),
    }
}

/// A kill as it is told.
pub struct KillNote {
    pub killer: String,
    pub victim: String,
    pub weapon: String,
    /// The line for the data log.
    pub line: String,
}

/// A kill as it is told, by characters.
pub struct KillNoteView {
    pub killer: Seq<char>,
    pub victim: Seq<char>,
    pub weapon: Seq<char>,
    pub line: Seq<char>,
}

impl View for KillNote {
    type V = KillNoteView;

    open spec fn view(&self) -> KillNoteView {
        KillNoteView {
            killer: self.killer@,
            victim: self.victim@,
            weapon: self.weapon@,
            line: self.line@,
        }
    }
}

/// `true` or `false`.
pub open spec fn truth(b: bool) -> Seq<char> {
    if b {
        "true"@
    } else {
        "false"@
    }
}

/// The id of the player that goes by `key`; the key itself where there is none.
pub open spec fn id_to_show(players: Seq<PlayerPayload>, key: Seq<char>) -> Seq<char> {
    match full_id(players, key) {
        Some(id) => id,
        None => text::trimmed(key),
    }
}

/// The player that goes by `key` is the own account.
pub open spec fn is_own(players: Seq<PlayerPayload>, key: Seq<char>, me: Seq<char>) -> bool {
    full_id(players, key) matches Some(id) && text::alike(id, text::trimmed(me))
}

/// A kill as it is told.
pub open spec fn note_of(
    k: ArmedKillView,
    players: Seq<PlayerPayload>,
    ranks: RankModel,
    me: Seq<char>,
) -> KillNoteView {
    let killer = name_to_show(players, ranks, k.killer);
    let victim = name_to_show(players, ranks, k.victim);
    KillNoteView {
        killer,
        victim,
        weapon: k.weapon,
        line: "[KILL] self="@ + truth(is_own(players, k.killer, me)) + " killer="@ + id_to_show(
            players,
            k.killer,
        ) + " killer_name="@ + killer + " weapon="@ + k.weapon + " victim="@ + id_to_show(
            players,
            k.victim,
        ) + " victim_name="@ + victim,
    }
}

fn shown_id(key: &str, payload: &MatchPayload) -> (r: String)
    ensures
        r@ == id_to_show(payload.players@, key@),
{
    match full_steam_id(key, payload) {
        Some(id) => id,
        None => text::trim(key),
    }
}

/// Tells a kill.
pub fn kill_note(
    kill: &ArmedKill,
    payload: &MatchPayload,
    ranks: &RankService,
    my_sid: &str,
) -> (r: KillNote)
    requires
        can_be_named(payload.players@, ranks@, kill@.killer),
        can_be_named(payload.players@, ranks@, kill@.victim),
    ensures
        r@ == note_of(kill@, payload.players@, ranks@, my_sid@),
{
    let killer = display_name(kill.killer.as_str(), payload, ranks);
    let victim = display_name(kill.victim.as_str(), payload, ranks);
    let own = match full_steam_id(kill.killer.as_str(), payload) {
        Some(id) => text::equals_ignoring_case(id.as_str(), text::trim(my_sid).as_str()),
        None => false,
    };
    let mut line = "[KILL] self=".to_owned();
    line.append(
        if own {
            "true"
        } else {
            "false"
        },
    );
    line.append(" killer=");
    line.append(shown_id(kill.killer.as_str(), payload).as_str());
    line.append(" killer_name=");
    line.append(killer.as_str());
    line.append(" weapon=");
    line.append(kill.weapon.as_str());
    line.append(" victim=");
    line.append(shown_id(kill.victim.as_str(), payload).as_str());
    line.append(" victim_name=");
    line.append(victim.as_str());
    KillNote { killer, victim, weapon: kill.weapon.clone(), line }
}

/// The history of a message; empty where there is none.
pub open spec fn history_of(payload: MatchPayload) -> Seq<Json> {
    match payload.kill_history {
        Some(h) => h@,
        None => Seq::empty(),
    }
}

/// Who killed whom in the kills that a message adds to the message before. The first message of a
/// match adds none: what happened before it is not news.
pub open spec fn new_pairs(
    payload: MatchPayload,
    prev: Option<Vec<(String, Json)>>,
) -> Seq<Kill> {
    match (payload.kill_count, prev) {
        (Some(table), Some(before)) => kills_since(table@, before@),
        _ => Seq::empty(),
    }
}

/// The table that the message after this one is held against: a message without a table leaves the
/// one before.
pub open spec fn table_after(
    payload: MatchPayload,
    prev: Option<Vec<(String, Json)>>,
) -> Option<Vec<(String, Json)>> {
    if payload.kill_count is Some {
        payload.kill_count
    } else {
        prev
    }
}

/// The kills that a message adds to the message before, with their weapons.
pub open spec fn news(
    payload: MatchPayload,
    prev: Option<Vec<(String, Json)>>,
) -> Seq<ArmedKillView> {
    with_weapons(history_of(payload), new_pairs(payload, prev))
}

/// Killer and victim of every kill that a message adds can be named.
pub open spec fn news_can_be_named(
    payload: MatchPayload,
    prev: Option<Vec<(String, Json)>>,
    ranks: RankModel,
) -> bool {
    forall|i: int|
        0 <= i < new_pairs(payload, prev).len() ==> can_be_named(
            payload.players@,
            ranks,
            (#[trigger] new_pairs(payload, prev)[i]).0,
        ) && can_be_named(payload.players@, ranks, new_pairs(payload, prev)[i].1)
}

proof fn lemma_told_can_be_named(
    payload: MatchPayload,
    prev: Option<Vec<(String, Json)>>,
    ranks: RankModel,
    i: int,
)
    requires
        news_can_be_named(payload, prev, ranks),
        0 <= i < news(payload, prev).len(),
    ensures
        can_be_named(payload.players@, ranks, news(payload, prev)[i].killer),
        can_be_named(payload.players@, ranks, news(payload, prev)[i].victim),
{
    broadcast use vstd::seq_lib::group_to_multiset_ensures;

    let told = news(payload, prev);
    let kills = new_pairs(payload, prev);
    law_every_kill_is_told_once(history_of(payload), kills);
    let k = (told[i].killer, told[i].victim);
    assert(pairs(told)[i] == k);
    assert(pairs(told).contains(k));
    assert(kills.to_multiset().count(k) > 0);
    assert(kills.contains(k));
    let j = choose|j: int| 0 <= j < kills.len() && kills[j] == k;
    assert(can_be_named(payload.players@, ranks, kills[j].0));
}

/// The kills that a message adds, as they are told.
pub open spec fn notes_of(
    payload: MatchPayload,
    prev: Option<Vec<(String, Json)>>,
    ranks: RankModel,
    me: Seq<char>,
) -> Seq<KillNoteView> {
    news(payload, prev).map_values(
        |k: ArmedKillView| note_of(k, payload.players@, ranks, me),
    )
}

fn find_pairs(
    payload: &MatchPayload,
    prev: &Option<Vec<(String, Json)>>,
) -> (r: Vec<(String, String)>)
    ensures
        kill_views(r@) == new_pairs(*payload, *prev),
{
    match (&payload.kill_count, prev) {
        (Some(table), Some(before)) => new_kills(table, before),
        _ => {
            let r: Vec<(String, String)> = Vec::new();
            assert(kill_views(r@) =~= Seq::<Kill>::empty());
            r
        },
    }
}

fn find_news(payload: &MatchPayload, prev: &Option<Vec<(String, Json)>>) -> (r: Vec<ArmedKill>)
    ensures
        armed_views(r@) == news(*payload, *prev),
{
    let kills = find_pairs(payload, prev);
    match &payload.kill_history {
        Some(h) => arm_kills(h, kills),
        None => {
            let none: Vec<Json> = Vec::new();
            assert(none@ =~= Seq::<Json>::empty());
            arm_kills(&none, kills)
        },
    }
}

fn nameable(key: &str, payload: &MatchPayload, ranks: &RankService) -> (r: bool)
    ensures
        r == can_be_named(payload.players@, ranks@, key@),
{
    find_nickname(key, payload, ranks).is_some() || text::can_shorten(text::trim(key).as_str())
}

/// Whether killer and victim of every kill that a message adds can be named.
pub fn can_tell_kills(payload: &MatchPayload, tracker: &KillTracker, ranks: &RankService) -> (r: bool)
    ensures
        r == news_can_be_named(*payload, tracker.prev, ranks@),
{
    let list = find_pairs(payload, &tracker.prev);
    let ghost all = new_pairs(*payload, tracker.prev);
    let mut i: usize = 0;
    while i < list.len()
        invariant
            i <= list@.len(),
            all == kill_views(list@),
            all == new_pairs(*payload, tracker.prev),
            forall|j: int|
                0 <= j < i ==> can_be_named(payload.players@, ranks@, (#[trigger] all[j]).0)
                    && can_be_named(payload.players@, ranks@, all[j].1),
        decreases list@.len() - i,
    {
        assert(all[i as int] == (list@[i as int].0@, list@[i as int].1@));
        if !nameable(list[i].0.as_str(), payload, ranks) || !nameable(
            list[i].1.as_str(),
            payload,
            ranks,
        ) {
            return false;
        }
        i += 1;
    }
    true
}

/// Notes of kills, by characters.
pub open spec fn note_views(v: Seq<KillNote>) -> Seq<KillNoteView> {
    v.map_values(|n: KillNote| n@)
}

/// Tells the kills that a message adds, and keeps its table for the next.
pub fn log_kills(
    payload: MatchPayload,
    tracker: &mut KillTracker,
    ranks: &RankService,
    my_sid: &str,
) -> (r: Vec<KillNote>)
    requires
        news_can_be_named(payload, old(tracker).prev, ranks@),
    ensures
        note_views(r@) == notes_of(payload, old(tracker).prev, ranks@, my_sid@),
        final(tracker).prev == table_after(payload, old(tracker).prev),
{
    let list = find_news(&payload, &tracker.prev);
    let ghost all = armed_views(list@);
    let ghost tell = |k: ArmedKillView| note_of(k, payload.players@, ranks@, my_sid@);
    let mut out: Vec<KillNote> = Vec::new();
    let mut i: usize = 0;
    assert(note_views(out@) =~= all.take(0).map_values(tell));
    while i < list.len()
        invariant
            i <= list@.len(),
            all == armed_views(list@),
            all == news(payload, tracker.prev),
            tracker.prev == old(tracker).prev,
            news_can_be_named(payload, tracker.prev, ranks@),
            tell == (|k: ArmedKillView| note_of(k, payload.players@, ranks@, my_sid@)),
            note_views(out@) == all.take(i as int).map_values(tell),
        decreases list@.len() - i,
    {
        let ghost done = note_views(out@);
        let ghost k = all[i as int];
        proof {
            assert(k == list@[i as int]@);
            lemma_told_can_be_named(payload, tracker.prev, ranks@, i as int);
        }
        out.push(kill_note(&list[i], &payload, ranks, my_sid));
        proof {
            assert(note_views(out@) =~= done.push(tell(k)));
            let t = all.take(i as int);
            assert(all.take(i + 1) =~= t.push(k));
            assert(t.push(k).map_values(tell) =~= t.map_values(tell).push(tell(k)));
        }
        i += 1;
    }
    assert(all.take(i as int) =~= all);
    if payload.kill_count.is_some() {
        tracker.prev = payload.kill_count;
    }
    out
}

/// The first message of a match tells nothing, nor does a message that comes again.
pub proof fn law_first_and_same_message_are_silent(
    payload: MatchPayload,
    ranks: RankModel,
    me: Seq<char>,
)
    requires
        payload.kill_count matches Some(table) ==> is_table(table@),
    ensures
        notes_of(payload, None, ranks, me) == Seq::<KillNoteView>::empty(),
        notes_of(payload, payload.kill_count, ranks, me) == Seq::<KillNoteView>::empty(),
{
    law_no_kill_no_news(history_of(payload));
    assert(notes_of(payload, None, ranks, me) =~= Seq::<KillNoteView>::empty());
    match payload.kill_count {
        Some(table) => {
            law_same_table_adds_nothing(table@);
        },
        None => {},
    }
    assert(notes_of(payload, payload.kill_count, ranks, me) =~= Seq::<KillNoteView>::empty());
}

/// The table that the message after a run of messages is held against; a run starts without one.
pub open spec fn table_after_run(run: Seq<MatchPayload>) -> Option<Vec<(String, Json)>>
    decreases run.len(),
{
    if run.len() == 0 {
        None
    } else {
        table_after(run.last(), table_after_run(run.drop_last()))
    }
}

/// How often a pair is told over a run of messages.
pub open spec fn told_in_run(run: Seq<MatchPayload>, k: Kill) -> nat
    decreases run.len(),
{
    if run.len() == 0 {
        0
    } else {
        told_in_run(run.drop_last(), k) + pairs(
            news(run.last(), table_after_run(run.drop_last())),
        ).to_multiset().count(k)
    }
}

/// The tables of a run of messages, in order; a message may come without one.
pub open spec fn tables_of(run: Seq<MatchPayload>) -> Seq<Seq<(String, Json)>>
    decreases run.len(),
{
    if run.len() == 0 {
        Seq::empty()
    } else {
        match run.last().kill_count {
            Some(table) => tables_of(run.drop_last()).push(table@),
            None => tables_of(run.drop_last()),
        }
    }
}

/// The sum of the growths of a pair's count from each table to the next; a count that falls adds
/// nothing.
pub open spec fn growth_over(tables: Seq<Seq<(String, Json)>>, k: Kill) -> nat
    decreases tables.len(),
{
    if tables.len() <= 1 {
        0
    } else {
        let now = count_before(tables.last(), k.0, k.1);
        let before = count_before(tables[tables.len() - 2], k.0, k.1);
        growth_over(tables.drop_last(), k) + (if now > before {
            (now - before) as nat
        } else {
            0
        })
    }
}

proof fn lemma_last_table(run: Seq<MatchPayload>)
    ensures
        match table_after_run(run) {
            Some(table) => tables_of(run).len() > 0 && tables_of(run).last() == table@,
            None => tables_of(run).len() == 0,
        },
    decreases run.len(),
{
    if run.len() > 0 {
        lemma_last_table(run.drop_last());
    }
}

/// A message without a table tells nothing and leaves the table before.
pub proof fn law_message_without_table_is_silent(
    payload: MatchPayload,
    prev: Option<Vec<(String, Json)>>,
)
    requires
        payload.kill_count is None,
    ensures
        news(payload, prev) == Seq::<ArmedKillView>::empty(),
        table_after(payload, prev) == prev,
{
    law_no_kill_no_news(history_of(payload));
}

/// Over a run of messages a pair is told as often as its count grew from each table to the next,
/// whether counts fall in between or not, and whether messages come without a table or not. The
/// first table only sets the base.
pub proof fn law_told_is_the_sum_of_growths(run: Seq<MatchPayload>, k: Kill)
    requires
        forall|i: int|
            0 <= i < run.len() ==> ((#[trigger] run[i]).kill_count matches Some(table) ==> is_table(
                table@,
            )),
    ensures
        told_in_run(run, k) == growth_over(tables_of(run), k),
    decreases run.len(),
{
    broadcast use vstd::seq_lib::group_to_multiset_ensures;

    if run.len() > 0 {
        let front = run.drop_last();
        let last = run.last();
        let prev = table_after_run(front);
        assert forall|i: int| 0 <= i < front.len() implies ((
        #[trigger] front[i]).kill_count matches Some(table) ==> is_table(table@)) by {
            assert(front[i] == run[i]);
        }
        law_told_is_the_sum_of_growths(front, k);
        lemma_last_table(front);
        law_every_kill_is_told_once(history_of(last), new_pairs(last, prev));
        assert(run[run.len() - 1] == last);
        match last.kill_count {
            Some(table) => {
                let before = tables_of(front);
                assert(before.push(table@).drop_last() == before);
                match prev {
                    Some(p) => {
                        law_kills_are_the_growth(table@, p@, k.0, k.1);
                        assert(before.push(table@)[before.len() - 1] == before.last());
                    },
                    None => {
                        assert(Seq::<Kill>::empty().to_multiset().count(k) == 0);
                    },
                }
            },
            None => {
                law_message_without_table_is_silent(last, prev);
                assert(pairs(news(last, prev)) =~= Seq::<Kill>::empty());
                assert(Seq::<Kill>::empty().to_multiset().count(k) == 0);
            },
        }
    }
}

/// The full id behind a key is that of the first player whose id ends in the key, or is the end of
/// it; the own account made the kill exactly where that id is the own one, but for outer white
/// space and the case of ASCII letters.
pub proof fn law_own_kills_are_told_as_own(
    k: ArmedKillView,
    players: Seq<PlayerPayload>,
    ranks: RankModel,
    me: Seq<char>,
    i: int,
    id: Seq<char>,
)
    requires
        is_player_of(players, k.killer, i, id),
    ensures
        ({
            let line = note_of(k, players, ranks, me).line;
            let own = text::trimmed(me);
            let same = id.len() == own.len() && forall|j: int|
                0 <= j < id.len() ==> #[trigger] id[j] == own[j] || ('A' <= id[j] <= 'Z'
                    && id[j] as int + 32 == own[j] as int) || ('A' <= own[j] <= 'Z' && own[j] as int
                    + 32 == id[j] as int);
            &&& same ==> text::has_prefix(line, "[KILL] self=true killer="@ + id + " killer_name="@)
            &&& !same ==> text::has_prefix(
                line,
                "[KILL] self=false killer="@ + id + " killer_name="@,
            )
            &&& id == own ==> same
        }),
{
    lemma_player_of(players, k.killer, i, id);
    text::law_alike_is_but_for_case(id, text::trimmed(me));
    let own = text::alike(id, text::trimmed(me));
    let line = note_of(k, players, ranks, me).line;
    reveal_strlit("[KILL] self=");
    reveal_strlit("true");
    reveal_strlit("false");
    reveal_strlit(" killer=");
    reveal_strlit(" killer_name=");
    reveal_strlit("[KILL] self=true killer=");
    reveal_strlit("[KILL] self=false killer=");
    let head = (if own {
        "[KILL] self=true killer="@
    } else {
        "[KILL] self=false killer="@
    });
    assert("[KILL] self="@ + truth(own) + " killer="@ =~= head);
    let start = head + id + " killer_name="@;
    assert(line.take(start.len() as int) =~= start);
}

/// Of a killer who is no player of the match, the kill is not the own one, and the killer is called
/// by the last eight characters of the key.
pub proof fn law_kill_of_a_stranger_is_not_own(
    k: ArmedKillView,
    players: Seq<PlayerPayload>,
    ranks: RankModel,
    me: Seq<char>,
)
    requires
        forall|i: int|
            0 <= i < players.len() ==> ((#[trigger] players[i]).steam_id matches Some(x)
                ==> !text::has_suffix(x@, text::trimmed(k.killer)) && !text::has_suffix(
                text::trimmed(k.killer),
                x@,
            )),
    ensures
        text::has_prefix(
            note_of(k, players, ranks, me).line,
            "[KILL] self=false killer="@ + text::trimmed(k.killer) + " killer_name="@,
        ),
        vstd::utf8::is_ascii_chars(text::trimmed(k.killer)) ==> note_of(
            k,
            players,
            ranks,
            me,
        ).killer == (if text::trimmed(k.killer).len() > 8 {
            text::trimmed(k.killer).skip(text::trimmed(k.killer).len() - 8)
        } else {
            text::trimmed(k.killer)
        }),
{
    if vstd::utf8::is_ascii_chars(text::trimmed(k.killer)) {
        text::law_short_form_of_ascii(text::trimmed(k.killer));
    }
    lemma_no_player(players, text::trimmed(k.killer));
    let line = note_of(k, players, ranks, me).line;
    reveal_strlit("[KILL] self=");
    reveal_strlit("false");
    reveal_strlit(" killer=");
    reveal_strlit("[KILL] self=false killer=");
    let head = "[KILL] self=false killer="@;
    assert("[KILL] self="@ + "false"@ + " killer="@ =~= head);
    let start = head + text::trimmed(k.killer) + " killer_name="@;
    assert(line.take(start.len() as int) =~= start);
}

/// A kill is told with the full ids and the nicknames of both players of the match, and with its
/// weapon.
pub proof fn law_kill_names_both_players(
    k: ArmedKillView,
    players: Seq<PlayerPayload>,
    ranks: RankModel,
    me: Seq<char>,
    i: int,
    killer: Seq<char>,
    j: int,
    victim: Seq<char>,
)
    requires
        is_player_of(players, k.killer, i, killer),
        is_player_of(players, k.victim, j, victim),
        players[i].name is Some,
        !text::all_white((players[i].name->0)@),
        players[j].name is Some,
        !text::all_white((players[j].name->0)@),
    ensures
        ({
            let note = note_of(k, players, ranks, me);
            &&& note.killer == (players[i].name->0)@
            &&& note.victim == (players[j].name->0)@
            &&& note.weapon == k.weapon
            &&& text::has_suffix(
                note.line,
                " killer="@ + killer + " killer_name="@ + (players[i].name->0)@ + " weapon="@
                    + k.weapon + " victim="@ + victim + " victim_name="@ + (players[j].name->0)@,
            )
        }),
{
    lemma_player_of(players, k.killer, i, killer);
    lemma_player_of(players, k.victim, j, victim);
    text::lemma_all_white_trims((players[i].name->0)@);
    text::lemma_all_white_trims((players[j].name->0)@);
    let note = note_of(k, players, ranks, me);
    let tail = " killer="@ + killer + " killer_name="@ + (players[i].name->0)@ + " weapon="@
        + k.weapon + " victim="@ + victim + " victim_name="@ + (players[j].name->0)@;
    let head = "[KILL] self="@ + truth(is_own(players, k.killer, me));
    assert(note.line =~= head + tail);
    assert((head + tail).skip(head.len() as int) =~= tail);
}

/// Where the match gives no nickname, that of the cache is used, and where that is missing too the
/// last eight characters of the key.
pub proof fn law_nickname_comes_from_match_then_cache(
    players: Seq<PlayerPayload>,
    ranks: RankModel,
    key: Seq<char>,
    i: int,
    id: Seq<char>,
    name: Seq<char>,
)
    requires
        is_player_of(players, key, i, id),
        players[i].name is None || text::all_white((players[i].name->0)@),
    ensures
        ranks.nickname(text::trimmed(id)) == Some(name) && !text::all_white(name) ==> name_to_show(
            players,
            ranks,
            key,
        ) == name,
        ranks.nickname(text::trimmed(id)) is None && vstd::utf8::is_ascii_chars(text::trimmed(key))
            ==> name_to_show(players, ranks, key) == (if text::trimmed(key).len() > 8 {
            text::trimmed(key).skip(text::trimmed(key).len() - 8)
        } else {
            text::trimmed(key)
        }),
{
    lemma_player_of(players, key, i, id);
    text::lemma_all_white_trims(name);
    if players[i].name is Some {
        text::lemma_all_white_trims((players[i].name->0)@);
    }
    if vstd::utf8::is_ascii_chars(text::trimmed(key)) {
        text::law_short_form_of_ascii(text::trimmed(key));
    }
}

/// Player `i`, whose id is `id`, is the first that goes by `key`: the id ends in the key, or the
/// key in the id.
pub open spec fn is_player_of(
    players: Seq<PlayerPayload>,
    key: Seq<char>,
    i: int,
    id: Seq<char>,
) -> bool {
    &&& text::trimmed(key).len() > 0
    &&& 0 <= i < players.len()
    &&& players[i].steam_id matches Some(x) && x@ == id
    &&& text::has_suffix(id, text::trimmed(key)) || text::has_suffix(text::trimmed(key), id)
    &&& forall|j: int|
        0 <= j < i ==> ((#[trigger] players[j]).steam_id matches Some(x) ==> !text::has_suffix(
            x@,
            text::trimmed(key),
        ) && !text::has_suffix(text::trimmed(key), x@))
}

proof fn lemma_player_of(players: Seq<PlayerPayload>, key: Seq<char>, i: int, id: Seq<char>)
    requires
        is_player_of(players, key, i, id),
    ensures
        player_with(players, text::trimmed(key)) == Some(players[i]),
        full_id(players, key) == Some(id),
{
    lemma_player_with(players, text::trimmed(key), i);
}

proof fn lemma_player_with(players: Seq<PlayerPayload>, key: Seq<char>, i: int)
    requires
        0 <= i < players.len(),
        goes_by(players[i], key),
        forall|j: int| 0 <= j < i ==> !goes_by(#[trigger] players[j], key),
    ensures
        player_with(players, key) == Some(players[i]),
    decreases players.len(),
{
    assert(players.first() == players[0]);
    if i > 0 {
        let rest = players.drop_first();
        assert(!goes_by(players[0], key));
        assert(rest[i - 1] == players[i]);
        assert forall|j: int| 0 <= j < i - 1 implies !goes_by(#[trigger] rest[j], key) by {
            assert(rest[j] == players[j + 1]);
        }
        lemma_player_with(rest, key, i - 1);
    }
}

proof fn lemma_no_player(players: Seq<PlayerPayload>, key: Seq<char>)
    requires
        forall|i: int| 0 <= i < players.len() ==> !goes_by(#[trigger] players[i], key),
    ensures
        player_with(players, key) is None,
    decreases players.len(),
{
    if players.len() > 0 {
        let rest = players.drop_first();
        assert(players.first() == players[0]);
        assert(!goes_by(players[0], key));
        assert forall|j: int| 0 <= j < rest.len() implies !goes_by(#[trigger] rest[j], key) by {
            assert(rest[j] == players[j + 1]);
        }
        lemma_no_player(rest, key);
    }
}

/// Every kill that a message adds is told in one note, in order, with the weapon that was found
/// for it.
pub proof fn law_every_new_kill_has_its_note(
    payload: MatchPayload,
    prev: Option<Vec<(String, Json)>>,
    ranks: RankModel,
    me: Seq<char>,
    i: int,
)
    ensures
        notes_of(payload, prev, ranks, me).len() == new_pairs(payload, prev).len(),
        0 <= i < notes_of(payload, prev, ranks, me).len() ==> notes_of(payload, prev, ranks, me)[i]
            == note_of(news(payload, prev)[i], payload.players@, ranks, me),
{
    broadcast use vstd::seq_lib::group_to_multiset_ensures;

    let kills = new_pairs(payload, prev);
    law_every_kill_is_told_once(history_of(payload), kills);
    let told = news(payload, prev);
    assert(pairs(told).to_multiset().len() == kills.to_multiset().len());
}

/// A count is the number that the table holds for the killer and the victim; a pair that is not in
/// the table counts zero.
pub proof fn law_count_is_that_of_the_table(
    table: Seq<(String, Json)>,
    i: int,
    row: Vec<(String, Json)>,
    j: int,
    n: crate::json::JsonNumber,
    v: Seq<char>,
)
    requires
        is_table(table),
        0 <= i < table.len(),
        table[i].1 == Json::Object(row),
    ensures
        0 <= j < row@.len() && row@[j].1 == Json::Number(n) && n.unsigned is Some ==> count_before(
            table,
            table[i].0@,
            row@[j].0@,
        ) == n.unsigned->0,
        (forall|x: int| 0 <= x < row@.len() ==> (#[trigger] row@[x]).0@ != v) ==> count_before(
            table,
            table[i].0@,
            v,
        ) == 0,
{
    let k = table[i].0@;
    assert forall|x: int| 0 <= x < i implies (#[trigger] table[x]).0@ != k by {
        assert(table[i].0@ == k);
    }
    json::law_member_stands_under_its_name(table, k, i);
    assert(distinct(row@));
    if 0 <= j < row@.len() {
        assert forall|x: int| 0 <= x < j implies (#[trigger] row@[x]).0@ != row@[j].0@ by {}
        json::law_member_stands_under_its_name(row@, row@[j].0@, j);
    }
    json::law_member_stands_under_its_name(row@, v, 0);
}

/// A killer who is not in the table has killed nobody.
pub proof fn law_no_row_no_count(table: Seq<(String, Json)>, k: Seq<char>, v: Seq<char>)
    requires
        forall|i: int| 0 <= i < table.len() ==> (#[trigger] table[i]).0@ != k,
    ensures
        count_before(table, k, v) == 0,
{
    json::law_member_stands_under_its_name(table, k, 0);
}

/// From one table to the next a pair is told as often as its count rose, and not at all where the
/// count fell or stayed.
pub proof fn law_rise_of_a_count_is_told(
    payload: MatchPayload,
    table: Vec<(String, Json)>,
    before: Vec<(String, Json)>,
    k: Seq<char>,
    v: Seq<char>,
)
    requires
        payload.kill_count == Some(table),
        is_table(table@),
    ensures
        ({
            let told = pairs(news(payload, Some(before))).to_multiset().count((k, v));
            let a = count_before(before@, k, v);
            let b = count_before(table@, k, v);
            &&& b > a ==> told == b - a
            &&& b <= a ==> told == 0
        }),
{
    law_kills_are_the_growth(table@, before@, k, v);
    law_every_kill_is_told_once(history_of(payload), new_pairs(payload, Some(before)));
}

/// The entries of a history that tell of one pair, oldest first.
pub open spec fn entries_of(history: Seq<Json>, k: Kill) -> Seq<Json> {
    history.filter(|h: Json| killer_in(h) == Some(k.0) && victim_in(h) == Some(k.1))
}

/// The weapons with which the kills of one pair are told, in order.
pub open spec fn weapons_of(list: Seq<ArmedKillView>, k: Kill) -> Seq<Seq<char>> {
    list.filter(|e: ArmedKillView| (e.killer, e.victim) == k).map_values(
        |e: ArmedKillView| e.weapon,
    )
}

/// The kills of a pair are told with the weapons of the latest entries of the history for that
/// pair, latest first; where the history holds fewer, the others are told without a weapon.
pub proof fn law_weapons_are_the_latest_of_the_pair(
    history: Seq<Json>,
    kills: Seq<Kill>,
    k: Kill,
    i: int,
)
    ensures
        ({
            let entries = entries_of(history, k);
            let weapons = weapons_of(with_weapons(history, kills), k);
            &&& weapons.len() == kills.to_multiset().count(k)
            &&& 0 <= i < weapons.len() && i < entries.len() ==> weapons[i] == weapon_name(
                weapon_in(entries[entries.len() - 1 - i]),
            )
            &&& 0 <= i < weapons.len() && i >= entries.len() ==> weapons[i].len() == 0
        }),
{
    let (found, rest) = armed(history, kills);
    let bare = rest.map_values(|k: Kill| bare_handed(k));
    lemma_armed_of(history, kills, k);
    lemma_bare_of(rest, k);
    lemma_weapons_of_both(found, bare, k);
}

proof fn lemma_weapons_of_both(a: Seq<ArmedKillView>, b: Seq<ArmedKillView>, k: Kill)
    ensures
        weapons_of(a + b, k) == weapons_of(a, k) + weapons_of(b, k),
    decreases b.len(),
{
    reveal(Seq::filter);
    let f = |e: ArmedKillView| (e.killer, e.victim) == k;
    let w = |e: ArmedKillView| e.weapon;
    if b.len() == 0 {
        assert(a + b =~= a);
        assert(b.filter(f) =~= Seq::empty());
        assert(weapons_of(b, k) =~= Seq::empty());
        assert(weapons_of(a, k) + weapons_of(b, k) =~= weapons_of(a, k));
    } else {
        lemma_weapons_of_both(a, b.drop_last(), k);
        assert((a + b).drop_last() =~= a + b.drop_last());
        assert((a + b).last() == b.last());
        let x = (a + b.drop_last()).filter(f);
        let y = b.drop_last().filter(f);
        if f(b.last()) {
            assert(x.push(b.last()).map_values(w) =~= x.map_values(w).push(b.last().weapon));
            assert(y.push(b.last()).map_values(w) =~= y.map_values(w).push(b.last().weapon));
            assert(weapons_of(a + b, k) =~= weapons_of(a, k) + weapons_of(b, k));
        }
    }
}

proof fn lemma_bare_of(rest: Seq<Kill>, k: Kill)
    ensures
        ({
            let w = weapons_of(rest.map_values(|k: Kill| bare_handed(k)), k);
            w.len() == rest.to_multiset().count(k) && forall|i: int|
                0 <= i < w.len() ==> (#[trigger] w[i]).len() == 0
        }),
    decreases rest.len(),
{
    broadcast use vstd::multiset::group_multiset_axioms;
    broadcast use vstd::seq_lib::group_to_multiset_ensures;

    reveal(Seq::filter);
    let bare = |k: Kill| bare_handed(k);
    let list = rest.map_values(bare);
    let f = |e: ArmedKillView| (e.killer, e.victim) == k;
    if rest.len() == 0 {
        assert(list.filter(f) =~= Seq::empty());
        assert(rest =~= Seq::<Kill>::empty());
    } else {
        let front = rest.drop_last();
        lemma_bare_of(front, k);
        assert(list.drop_last() =~= front.map_values(bare));
        assert(front.push(rest.last()) =~= rest);
        assert(rest.to_multiset() == front.to_multiset().insert(rest.last()));
        assert(list.last() == bare_handed(rest.last()));
        let x = front.map_values(bare).filter(f);
        let w = |e: ArmedKillView| e.weapon;
        assert(x.push(list.last()).map_values(w) =~= x.map_values(w).push(Seq::empty()));
    }
}

proof fn lemma_armed_of(history: Seq<Json>, left: Seq<Kill>, k: Kill)
    ensures
        ({
            let entries = entries_of(history, k);
            let w = weapons_of(armed(history, left).0, k);
            let n = left.to_multiset().count(k);
            let rest = armed(history, left).1.to_multiset().count(k);
            &&& w.len() == (if n < entries.len() {
                n
            } else {
                entries.len()
            })
            &&& w.len() + rest == n
            &&& forall|i: int|
                0 <= i < w.len() ==> #[trigger] w[i] == weapon_name(
                    weapon_in(entries[entries.len() - 1 - i]),
                )
        }),
    decreases history.len(),
{
    broadcast use vstd::multiset::group_multiset_axioms;
    broadcast use vstd::seq_lib::group_to_multiset_ensures;

    reveal(Seq::filter);
    let about = |h: Json| killer_in(h) == Some(k.0) && victim_in(h) == Some(k.1);
    let f = |e: ArmedKillView| (e.killer, e.victim) == k;
    let w = |e: ArmedKillView| e.weapon;
    if history.len() == 0 {
        assert(Seq::<ArmedKillView>::empty().filter(f) =~= Seq::empty());
    } else {
        let front = history.drop_last();
        let last = history.last();
        let older = front.filter(about);
        match entry_in(last) {
            Some(e) if left.contains((e.killer, e.victim)) => {
                let pair = (e.killer, e.victim);
                let x = ArmedKillView { weapon: weapon_name(e.weapon), ..e };
                let at = lemma_first(left, pair);
                lemma_without(left, pair, at);
                let less = without(left, pair);
                assert(less.to_multiset() == left.to_multiset().remove(pair));
                assert(left.to_multiset().count(pair) > 0);
                lemma_armed_of(front, less, k);
                let (found, rest) = armed(front, less);
                lemma_weapons_of_both(seq![x], found, k);
                assert(seq![x].drop_last() =~= Seq::<ArmedKillView>::empty());
                assert(Seq::<ArmedKillView>::empty().filter(f) =~= Seq::empty());
                let one = weapons_of(seq![x], k);
                if pair == k {
                    assert(seq![x].filter(f) =~= seq![x]);
                    assert(one =~= seq![x.weapon]);
                    assert(about(last));
                    assert(entries_of(history, k) == older.push(last));
                    let all = one + weapons_of(found, k);
                    let entries = older.push(last);
                    assert forall|i: int| 0 <= i < all.len() implies #[trigger] all[i]
                        == weapon_name(weapon_in(entries[entries.len() - 1 - i])) by {
                        if i > 0 {
                            assert(all[i] == weapons_of(found, k)[i - 1]);
                        }
                    }
                } else {
                    assert(seq![x].filter(f) =~= Seq::empty());
                    assert(one =~= Seq::empty());
                    assert(one + weapons_of(found, k) =~= weapons_of(found, k));
                    assert(!about(last));
                }
            },
            _ => {
                lemma_armed_of(front, left, k);
                if about(last) {
                    assert(!left.contains(k));
                    assert(left.to_multiset().count(k) == 0);
                }
            },
        }
    }
}

/// Killer, victim and weapon of an entry of the history are found under each of their names, as
/// long as no name before it holds one.
pub proof fn law_entry_is_read_under_every_name(h: Json, t: String, key: Seq<char>)
    requires
        h.field(key) == Some(Json::Text(t)),
        !text::all_white(t@),
    ensures
        key == "KillerId"@ ==> killer_in(h) == Some(text::trimmed(t@)),
        key == "killerId"@ && h.field("KillerId"@) is None ==> killer_in(h) == Some(
            text::trimmed(t@),
        ),
        key == "killer"@ && h.field("KillerId"@) is None && h.field("killerId"@) is None
            ==> killer_in(h) == Some(text::trimmed(t@)),
        key == "VictimId"@ ==> victim_in(h) == Some(text::trimmed(t@)),
        key == "victimId"@ && h.field("VictimId"@) is None ==> victim_in(h) == Some(
            text::trimmed(t@),
        ),
        key == "victim"@ && h.field("VictimId"@) is None && h.field("victimId"@) is None
            ==> victim_in(h) == Some(text::trimmed(t@)),
        key == "deadId"@ && h.field("VictimId"@) is None && h.field("victimId"@) is None
            && h.field("victim"@) is None ==> victim_in(h) == Some(text::trimmed(t@)),
        key == "DeadId"@ && h.field("VictimId"@) is None && h.field("victimId"@) is None
            && h.field("victim"@) is None && h.field("deadId"@) is None ==> victim_in(h) == Some(
            text::trimmed(t@),
        ),
        key == "Weapon"@ ==> weapon_in(h) == text::trimmed(t@),
        key == "weapon"@ && h.field("Weapon"@) is None ==> weapon_in(h) == text::trimmed(t@),
        key == "gun"@ && h.field("Weapon"@) is None && h.field("weapon"@) is None ==> weapon_in(h)
            == text::trimmed(t@),
{
    text::lemma_all_white_trims(t@);
}

/// An entry without a killer or without a victim tells nothing; one with both tells of them, with
/// its weapon.
pub proof fn law_entry_needs_killer_and_victim(h: Json)
    ensures
        entry_in(h) is Some <==> killer_in(h) is Some && victim_in(h) is Some,
        entry_in(h) matches Some(e) ==> killer_in(h) == Some(e.killer) && victim_in(h) == Some(
            e.victim,
        ) && e.weapon == weapon_in(h),
{
}

/// A weapon is told by its name without the prefix and in lower case, however often the prefix
/// stands before it and whatever white space is around.
pub proof fn law_weapon_loses_its_prefix(
    name: Seq<char>,
    before: Seq<char>,
    after: Seq<char>,
)
    requires
        text::plain_case(name),
        name.len() > 0,
        text::is_trimmed(name),
        !text::has_prefix(name, "weapon_"@),
        text::all_white(before),
        text::all_white(after),
    ensures
        weapon_name(before + name + after) == text::lower_cased(name),
        weapon_name(before + ("weapon_"@ + name) + after) == text::lower_cased(name),
{
    reveal_strlit("weapon_");
    let long = "weapon_"@ + name;
    text::law_trimming_is_blind_to_outer_space(before, name, after);
    text::law_trimming_is_blind_to_outer_space(before, long, after);
    text::law_trimming(name);
    assert(long.last() == name.last());
    assert(long.first() == 'w');
    text::law_white_space('w');
    text::law_trimming(long);
    text::law_stripping("weapon_"@, name);
}

/// Whoever goes by a key in ASCII can be named, and so can whoever has a nickname.
pub proof fn law_ascii_keys_can_be_named(
    players: Seq<PlayerPayload>,
    ranks: RankModel,
    key: Seq<char>,
    i: int,
    id: Seq<char>,
)
    ensures
        vstd::utf8::is_ascii_chars(text::trimmed(key)) ==> can_be_named(players, ranks, key),
        is_player_of(players, key, i, id) && players[i].name is Some && !text::all_white(
            (players[i].name->0)@,
        ) ==> can_be_named(players, ranks, key),
{
    if vstd::utf8::is_ascii_chars(text::trimmed(key)) {
        text::law_short_form_of_ascii(text::trimmed(key));
    }
    if is_player_of(players, key, i, id) {
        lemma_player_of(players, key, i, id);
        if players[i].name is Some {
            text::lemma_all_white_trims((players[i].name->0)@);
        }
    }
}

/// A message of which all new killers and victims can be named can be told; so can the first one
/// of a match, and one without a table.
pub proof fn law_news_can_be_told(
    payload: MatchPayload,
    prev: Option<Vec<(String, Json)>>,
    ranks: RankModel,
)
    ensures
        news_can_be_named(payload, None, ranks),
        payload.kill_count is None ==> news_can_be_named(payload, prev, ranks),
        (forall|k: Kill| #[trigger]
            new_pairs(payload, prev).contains(k) ==> can_be_named(payload.players@, ranks, k.0)
                && can_be_named(payload.players@, ranks, k.1)) ==> news_can_be_named(
            payload,
            prev,
            ranks,
        ),
{
    let all = new_pairs(payload, prev);
    if forall|k: Kill| #[trigger]
        all.contains(k) ==> can_be_named(payload.players@, ranks, k.0) && can_be_named(
            payload.players@,
            ranks,
            k.1,
        ) {
        assert forall|i: int| 0 <= i < all.len() implies can_be_named(
            payload.players@,
            ranks,
            (#[trigger] all[i]).0,
        ) && can_be_named(payload.players@, ranks, all[i].1) by {
            assert(all.contains(all[i]));
        }
    }
}

/// The weapons are looked for in the history that came with the message, and what a message adds is
/// its table against the one before.
pub proof fn law_news_is_read_from_the_message(
    payload: MatchPayload,
    table: Vec<(String, Json)>,
    before: Vec<(String, Json)>,
    history: Vec<Json>,
)
    requires
        payload.kill_count == Some(table),
        payload.kill_history == Some(history),
    ensures
        news(payload, Some(before)) == with_weapons(history@, kills_since(table@, before@)),
        news(payload, None).len() == 0,
        table_after(payload, Some(before)) == Some(table),
{
    law_no_kill_no_news(history@);
}

/// A note holds the names by which both players are shown and the weapon, and its line the same,
/// each behind its word.
pub proof fn law_note_and_line_agree(
    k: ArmedKillView,
    players: Seq<PlayerPayload>,
    ranks: RankModel,
    me: Seq<char>,
)
    ensures
        ({
            let note = note_of(k, players, ranks, me);
            &&& note.killer == name_to_show(players, ranks, k.killer)
            &&& note.victim == name_to_show(players, ranks, k.victim)
            &&& note.weapon == k.weapon
            &&& text::has_suffix(
                note.line,
                " killer="@ + id_to_show(players, k.killer) + " killer_name="@ + note.killer
                    + " weapon="@ + note.weapon + " victim="@ + id_to_show(players, k.victim)
                    + " victim_name="@ + note.victim,
            )
            &&& full_id(players, k.killer) is None ==> id_to_show(players, k.killer)
                == text::trimmed(k.killer)
            &&& full_id(players, k.killer) matches Some(id) ==> id_to_show(players, k.killer) == id
        }),
{
    let note = note_of(k, players, ranks, me);
    let tail = " killer="@ + id_to_show(players, k.killer) + " killer_name="@ + note.killer
        + " weapon="@ + note.weapon + " victim="@ + id_to_show(players, k.victim)
        + " victim_name="@ + note.victim;
    let head = "[KILL] self="@ + truth(is_own(players, k.killer, me));
    assert(note.line =~= head + tail);
    assert((head + tail).skip(head.len() as int) =~= tail);
}

} // verus!
