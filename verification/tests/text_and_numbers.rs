use wmpvp_rank_overlay::json::{Json, JsonNumber};
use wmpvp_rank_overlay::number::Real;
use wmpvp_rank_overlay::table::Table;
use wmpvp_rank_overlay::text;

fn dbl(x: f64) -> Real {
    Real { bits: x.to_bits() }
}

#[test]
fn trimming_removes_outer_white_space_only() {
    assert_eq!(text::trim("  a b\u{3000}\n"), "a b");
    assert_eq!(text::trim_start(" \t x "), "x ");
    assert_eq!(text::trim_end(" x \u{2028}"), " x");
    assert_eq!(text::trim(" \u{a0} "), "");
}

#[test]
fn searching_and_replacing() {
    assert!(text::contains("counter-terrorist", "terror"));
    assert!(!text::contains("ct", "cts"));
    assert!(text::contains("x", ""));
    assert!(text::starts_with("file:data.log", "file:"));
    assert!(text::ends_with("76561198000000011", "00000011"));
    assert!(!text::ends_with("11", "00000011"));
    assert_eq!(text::replace("a{id}b{id}", "{id}", "7"), "a7b7");
    assert_eq!(text::replace("aaa", "aa", "b"), "ba");
    assert_eq!(text::strip_start("weapon_weapon_ak47", "weapon_"), "ak47");
    assert_eq!(text::strip_prefix("file:x", "file:"), Some("x".to_string()));
    assert_eq!(text::strip_prefix("http:x", "file:"), None);
}

#[test]
fn decimals_are_read_back() {
    for n in [0u64, 7, 10, 8910, u64::MAX] {
        let s = text::decimal_text(n);
        assert_eq!(s, n.to_string());
        assert_eq!(text::parse_unsigned(&s, u64::MAX), Some(n));
    }
    assert_eq!(text::signed_decimal_text(-42), "-42");
    assert_eq!(text::signed_decimal_text(i64::MIN), i64::MIN.to_string());
    assert_eq!(text::parse_unsigned("65536", 65535), None);
    assert_eq!(text::parse_unsigned("+80", 65535), Some(80));
    assert_eq!(text::parse_unsigned("", 65535), None);
    assert_eq!(text::parse_unsigned("8 0", 65535), None);
    assert_eq!(text::parse_signed("-9223372036854775808"), Some(i64::MIN));
    assert_eq!(text::parse_signed("9223372036854775808"), None);
    assert_eq!(text::parse_signed("-"), None);
}

#[test]
fn order_of_texts_is_that_of_their_bytes() {
    let list = ["", "1", "10", "2", "a", "ab", "\u{e9}", "\u{4e2d}", "\u{1f600}"];
    for a in list {
        for b in list {
            assert_eq!(text::before(a, b), a < b, "{a} {b}");
        }
    }
}

#[test]
fn case_is_ignored_for_ascii_only() {
    assert!(text::equals_ignoring_case("AbC1", "aBc1"));
    assert!(!text::equals_ignoring_case("\u{c9}", "\u{e9}"));
    assert!(!text::equals_ignoring_case("ab", "abc"));
}

#[test]
fn short_forms_keep_the_last_eight_bytes() {
    assert_eq!(text::short_id("76561198079796198"), "79796198");
    assert_eq!(text::short_id("12345678"), "12345678");
    assert_eq!(text::short_id(""), "");
    assert!(text::can_shorten("\u{4e2d}\u{4e2d}12"));
    // Nine bytes whose last eight start inside a character.
    assert!(!text::can_shorten("\u{4e2d}\u{4e2d}\u{4e2d}"));
}

#[test]
fn long_texts_are_cut_with_an_ellipsis() {
    assert_eq!(text::truncate("abcdef", 6), "abcdef");
    assert_eq!(text::truncate("abcdefg", 6), "abcdef\u{2026}");
}

#[test]
fn reals_are_ordered_like_numbers() {
    let list = [-1.5f64, -1.0, -0.0, 0.0, 5e-324, 0.5, 1.0, 1.16, 2401.0, f64::MAX];
    for a in list {
        for b in list {
            assert_eq!(dbl(a).less(dbl(b)), a < b, "{a} {b}");
        }
    }
    assert!(dbl(f64::NAN).nan() && !dbl(f64::NAN).finite());
    assert!(!dbl(f64::INFINITY).nan());
    assert!(!dbl(f64::INFINITY).finite());
}

#[test]
fn whole_numbers_and_rounding() {
    for n in [0u32, 1, 2, 3, 1000, 2401, 4_294_967_295] {
        assert_eq!(Real::of_u32(n).bits, (n as f64).to_bits());
    }
    for x in [0.0f64, 0.49999999999999994, 0.5, 1.5, 2.5, 2400.5, 1e10] {
        assert_eq!(dbl(x).round(), x.round() as u32, "{x}");
    }
}

#[test]
fn json_members_and_numbers() {
    let n = Json::Number(JsonNumber { signed: Some(5), unsigned: Some(5), double: Some(dbl(5.0)) });
    let inner = Json::Object(vec![("url".to_string(), Json::Text("ws".to_string()))]);
    let v = Json::Object(vec![
        ("n".to_string(), n),
        ("in".to_string(), inner),
        ("list".to_string(), Json::Array(vec![Json::Null, Json::Bool(true)])),
    ]);
    assert_eq!(v.int_at("n"), Some(5));
    assert_eq!(v.uint_at("n"), Some(5));
    assert_eq!(v.double_at("n").unwrap().bits, 5.0f64.to_bits());
    assert_eq!(v.text_at("n"), None);
    assert_eq!(v.get_inner("in", "url").unwrap().as_str(), Some("ws"));
    assert!(v.get_inner("n", "url").is_none());
    assert_eq!(v.get("list").unwrap().as_array().unwrap().len(), 2);
    assert!(v.get("none").is_none());
}

#[test]
fn tables_keep_one_value_per_name() {
    let mut t: Table<String> = Table::new();
    t.insert("a".to_string(), "1".to_string());
    t.insert("b".to_string(), "2".to_string());
    t.insert("a".to_string(), "3".to_string());
    assert_eq!(t.rows.len(), 2);
    assert_eq!(t.get("a").unwrap(), "3");
    assert!(t.get("c").is_none());
    let copy = t.clone();
    assert_eq!(copy.get("b").unwrap(), "2");
}
