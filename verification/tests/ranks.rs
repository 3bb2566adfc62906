use wmpvp_rank_overlay::form::{self, FormService};
use wmpvp_rank_overlay::number::Real;
use wmpvp_rank_overlay::rank::{self, Progress, RankService, RankStatus};
use wmpvp_rank_overlay::wmpvp::{DetailStats, Score, StatsError, User};

fn dbl(x: f64) -> Real {
    Real { bits: x.to_bits() }
}

fn user(id: &str, nick: Option<&str>, score: Option<f64>) -> User {
    User {
        nickname: nick.map(|s| s.to_string()),
        steam_id: Some(id.to_string()),
        avatar: None,
        score: score.map(|x| Score::Number(Some(dbl(x)))),
    }
}

#[test]
fn labels_change_at_the_ends_of_the_tiers() {
    let cases = [
        (-5.0, "未定"),
        (0.0, "未定"),
        (999.9, "D"),
        (1000.0, "C"),
        (1150.0, "C"),
        (1150.5, "C+"),
        (1300.0, "C+"),
        (1450.0, "精英C+"),
        (1600.0, "B"),
        (1750.0, "B+"),
        (1900.0, "精英B+"),
        (2050.0, "A"),
        (2200.0, "A+"),
        (2400.0, "精英A+"),
        (2400.1, "S 段"),
        (2401.0, "S 段"),
    ];
    for (x, label) in cases {
        assert_eq!(rank::rank_label_from_score(dbl(x)), label, "{x}");
    }
    assert_eq!(rank::rank_label_from_score(dbl(f64::NAN)), "");
    assert_eq!(rank::rank_label_from_score(dbl(f64::INFINITY)), "");
}

#[test]
fn badges_and_icons_follow_the_label() {
    let cases = [
        ("S 段", "S", "/assets/s-diamond-1.png"),
        ("精英A+", "A", "/assets/A11.svg"),
        ("A+", "A", "/assets/A1.svg"),
        (" b ", "B", "/assets/B.svg"),
        ("C+", "C", "/assets/C1.svg"),
        ("D", "D", "/assets/D.svg"),
        ("未定", "U", ""),
        ("", "U", ""),
    ];
    for (label, class, icon) in cases {
        assert_eq!(rank::rank_badge_class(label), class, "{label}");
        assert_eq!(rank::rank_icon_url(label), icon, "{label}");
    }
    // A letter that only upper case brings out.
    assert_eq!(rank::rank_badge_class("\u{df}"), "S");
}

#[test]
fn progress_names_the_ends_of_the_tier() {
    assert_eq!(rank::tier_progress(dbl(0.0)), Progress::Empty);
    assert_eq!(rank::tier_progress(dbl(f64::NAN)), Progress::Empty);
    assert_eq!(
        rank::tier_progress(dbl(1075.0)),
        Progress::Within { score: dbl(1075.0), low: 1000, high: 1150 }
    );
    assert_eq!(
        rank::tier_progress(dbl(2400.0)),
        Progress::Within { score: dbl(2400.0), low: 2200, high: 2400 }
    );
    assert_eq!(rank::tier_progress(dbl(2500.0)), Progress::Full);
}

#[test]
fn a_user_gives_rank_and_nickname() {
    let (m, n) = rank::meta_from_user(&user("1", Some("ace"), Some(2100.4)));
    assert_eq!(m.status, RankStatus::Ready);
    assert_eq!(m.label, "A+");
    assert_eq!(m.score, Some(2100));
    assert_eq!(n, "ace");
    let (m, _) = rank::meta_from_user(&user("1", None, Some(2400.0)));
    assert_eq!(m.label, "精英A+");
    assert_eq!(m.score, Some(2400));
    // The score of the whole top tier is hidden.
    for x in [2400.25, 2401.0, 2460.0, 3000.0] {
        let (m, _) = rank::meta_from_user(&user("1", None, Some(x)));
        assert_eq!(m.label, "S 段", "{x}");
        assert_eq!(m.score, None, "{x}");
    }
    let (m, n) = rank::meta_from_user(&user("1", None, Some(0.0)));
    assert_eq!(m.status, RankStatus::Unavailable);
    assert_eq!(m.label, "");
    assert_eq!(n, "");
    let (m, _) = rank::meta_from_user(&user("1", None, None));
    assert_eq!(m.status, RankStatus::Unavailable);
}

#[test]
fn averages_leave_out_the_top_tier_and_the_unknown() {
    let mut list = Vec::new();
    for x in [1000.0, 1501.0, 2460.0] {
        list.push(rank::meta_from_user(&user("1", None, Some(x))).0);
    }
    list.push(rank::meta_from_user(&user("1", None, None)).0);
    // (1000 + 1501) / 2 = 1250.5
    assert_eq!(rank::side_avg_score(&list), Some(1251));
    assert_eq!(rank::side_avg_score(&list[2..]), None);
    assert_eq!(rank::side_avg_score(&list[..2]), Some(1251));
    list.reverse();
    assert_eq!(rank::side_avg_score(&list), Some(1251));
    list.swap(0, 2);
    assert_eq!(rank::side_avg_score(&list), Some(1251));
    assert_eq!(rank::side_avg_score(&[]), None);
}

#[test]
fn a_player_is_queued_once() {
    let mut r = RankService::new();
    let a = r.ensure(" 11 ");
    assert_eq!(a.queue, Some("11".to_string()));
    assert_eq!(a.meta.status, RankStatus::Loading);
    assert_eq!(r.ensure("11").queue, None);
    assert_eq!(r.ensure("12").queue, Some("12".to_string()));
    let blank = r.ensure("  ");
    assert_eq!(blank.queue, None);
    assert_eq!(blank.meta.status, RankStatus::Unavailable);

    r.complete("11", Some(&user("11", Some("ace"), Some(1700.0))));
    assert_eq!(r.get("11").unwrap().label, "B+");
    assert_eq!(r.name("11"), Some("ace".to_string()));
    r.complete("12", None);
    assert_eq!(r.get("12").unwrap().status, RankStatus::Unavailable);
    assert_eq!(r.name("12"), None);
    assert_eq!(r.ensure("12").queue, None);

    r.reset_for_match();
    assert!(r.get("11").is_none());
    assert_eq!(r.ensure("11").queue, Some("11".to_string()));
}

#[test]
fn known_players_can_be_put_in_with_stars() {
    let mut r = RankService::new();
    assert!(!r.seed_user(" ", &user("", Some("x"), Some(1.0))));
    r.seed_stars("1", 5);
    assert!(r.get("1").is_none());
    assert!(r.seed_user("1", &user("1", Some("x"), Some(2460.0))));
    r.seed_stars("1", 7);
    assert_eq!(r.get("1").unwrap().stars, Some(7));
    r.seed_stars("1", 250);
    assert_eq!(r.get("1").unwrap().stars, Some(100));
    assert_eq!(r.ensure("1").queue, None);
}

#[test]
fn results_are_looked_up_again_when_they_are_old() {
    let mut f = FormService::new("tok".to_string());
    assert_eq!(f.token(), "tok");
    let a = f.ensure("1", 1000);
    assert_eq!(a.queue, Some("1".to_string()));
    assert!(a.entry.results.is_empty());
    assert_eq!(f.ensure("1", 1001).queue, None);
    f.complete("1", vec![true, false], Some(3), 2000);
    let b = f.ensure("1", 2000 + form::CACHE_TTL - 1);
    assert_eq!(b.queue, None);
    assert_eq!(b.entry.results, vec![true, false]);
    assert_eq!(b.entry.stars, Some(3));
    let c = f.ensure("1", 2000 + form::CACHE_TTL);
    assert_eq!(c.queue, Some("1".to_string()));
    // What is too old is still shown until the lookup is done.
    assert_eq!(c.entry.results, vec![true, false]);
    assert_eq!(f.ensure("1", 2001 + form::CACHE_TTL).queue, None);
    assert_eq!(f.ensure("  ", 0).queue, None);

    f.seed(" 2 ", vec![true], 5);
    assert_eq!(f.ensure("2", 6).queue, None);
    assert_eq!(f.ensure("2", 6).entry.results, vec![true]);
    f.set_token("new".to_string());
    assert_eq!(f.token(), "new");
    assert_eq!(f.ensure("2", 7).queue, Some("2".to_string()));
}

#[test]
fn stars_come_with_season_statistics() {
    let stats = DetailStats {
        season_id: String::new(),
        avg_we: None,
        pw_rating: None,
        cnt: None,
        adr: None,
        win_rate: None,
        kd: None,
        head_shot_ratio: None,
        rws: None,
        stars: Some(4),
        summary: None,
    };
    assert_eq!(form::stars_of(&Ok(Some(stats))), Some(4));
    assert_eq!(form::stars_of(&Ok(None)), None);
    assert_eq!(form::stars_of(&Err(StatsError::LoginExpired)), None);
}
