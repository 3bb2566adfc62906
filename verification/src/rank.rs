//! Ladder scores, rank labels and badges, and the cache of looked-up players.

use crate::number::{Parts, Real, Rest};
use crate::number;
use crate::text;
use crate::wmpvp::User;
use vstd::hash_map::StringHashMap;
use vstd::hash_set::StringHashSet;
use vstd::prelude::*;
use vstd::string::*;

verus! {

/// The label of a finite score, given in smallest positive doubles.
pub open spec fn label_of(scaled: int) -> Seq<char> {
    let u = number::unit() as int;
    if scaled <= 0 {
        "未定"@
    } else if scaled < 1000 * u {
        "D"@
    } else if scaled <= 1150 * u {
        "C"@
    } else if scaled <= 1300 * u {
        "C+"@
    } else if scaled <= 1450 * u {
        "精英C+"@
    } else if scaled <= 1600 * u {
        "B"@
    } else if scaled <= 1750 * u {
        "B+"@
    } else if scaled <= 1900 * u {
        "精英B+"@
    } else if scaled <= 2050 * u {
        "A"@
    } else if scaled <= 2200 * u {
        "A+"@
    } else if scaled <= 2400 * u {
        "精英A+"@
    } else {
        "S 段"@
    }
}

/// The label of a score; empty where the score is no finite number.
pub open spec fn label_of_score(score: Real) -> Seq<char> {
    if score.is_finite() {
        label_of(score.scaled())
    } else {
        ""@
    }
}

fn at_most(p: Parts, n: u64, Ghost(scaled): Ghost<int>) -> (r: bool)
    requires
        number::splits_into(scaled, p),
        n <= 2400,
    ensures
        r == (scaled <= n * number::unit()),
{
    proof {
        lemma_against(scaled, p, n as int);
    }
    let zero = match p.rest {
        Rest::Zero => true,
        _ => false,
    };
    p.whole < n || (p.whole == n && zero)
}

proof fn lemma_against(scaled: int, p: Parts, n: int)
    requires
        number::splits_into(scaled, p),
        0 <= n <= 2401,
    ensures
        scaled <= n * number::unit() <==> p.whole < n || (p.whole == n && p.rest == Rest::Zero),
        scaled < n * number::unit() <==> p.whole < n,
        0 < number::unit(),
{
    vstd::arithmetic::power2::lemma_pow2_pos(1074);
    let u = number::unit() as int;
    let w = p.whole as int;
    if scaled >= number::WHOLE_LIMIT * u {
        assert(n * u < number::WHOLE_LIMIT * u) by (nonlinear_arith)
            requires
                n <= 2401,
                u > 0,
        ;
    } else if w < n {
        assert(w * u + u <= n * u) by (nonlinear_arith)
            requires
                w + 1 <= n,
                u > 0,
        ;
    } else if w > n {
        assert(n * u + u <= w * u) by (nonlinear_arith)
            requires
                n + 1 <= w,
                u > 0,
        ;
    }
}

/// The label of a score.
pub fn rank_label_from_score(score: Real) -> (r: &'static str)
    ensures
        r@ == label_of_score(score),
{
    if !score.finite() {
        return "";
    }
    proof {
        lemma_sign(score);
    }
    if !positive(score) {
        return "未定";
    }
    let p = score.parts();
    let ghost v = score.scaled();
    proof {
        lemma_against(v, p, 1000);
    }
    if p.whole < 1000 {
        return "D";
    }
    if at_most(p, 1150, Ghost(v)) {
        return "C";
    }
    if at_most(p, 1300, Ghost(v)) {
        return "C+";
    }
    if at_most(p, 1450, Ghost(v)) {
        return "精英C+";
    }
    if at_most(p, 1600, Ghost(v)) {
        return "B";
    }
    if at_most(p, 1750, Ghost(v)) {
        return "B+";
    }
    if at_most(p, 1900, Ghost(v)) {
        return "精英B+";
    }
    if at_most(p, 2050, Ghost(v)) {
        return "A";
    }
    if at_most(p, 2200, Ghost(v)) {
        return "A+";
    }
    if at_most(p, 2400, Ghost(v)) {
        return "精英A+";
    }
    "S 段"
}

proof fn lemma_sign(score: Real)
    requires
        score.is_finite(),
    ensures
        score.scaled() > 0 <==> 0 < score.bits < number::SIGN,
{
    let zero = Real { bits: 0 };
    number::law_order_is_numeric(zero, score);
    assert(zero.scaled() == 0) by {
        assert(0 * vstd::arithmetic::power2::pow2(0) == 0);
    }
}

/// The number is above zero, or positive infinity.
pub open spec fn is_positive(score: Real) -> bool {
    0 < score.bits <= number::INFINITE
}

/// Whether the number is above zero.
pub fn positive(score: Real) -> (r: bool)
    ensures
        r == is_positive(score),
{
    0 < score.bits && score.bits <= number::INFINITE
}

/// How far a score has come within its tier.
#[derive(Clone, Copy, PartialEq, Eq, Structural, Debug)]
pub enum Progress {
    /// Nothing.
    Empty,
    /// The score, between the two ends of its tier.
    Within { score: Real, low: u32, high: u32 },
    /// Everything: the top tier.
    Full,
}

/// The ends of the tier of a positive score below the top tier.
pub open spec fn tier_of(scaled: int) -> Option<(u32, u32)> {
    let u = number::unit() as int;
    if scaled < 1000 * u {
        Some((0u32, 1000u32))
    } else if scaled <= 1150 * u {
        Some((1000u32, 1150u32))
    } else if scaled <= 1300 * u {
        Some((1150u32, 1300u32))
    } else if scaled <= 1450 * u {
        Some((1300u32, 1450u32))
    } else if scaled <= 1600 * u {
        Some((1450u32, 1600u32))
    } else if scaled <= 1750 * u {
        Some((1600u32, 1750u32))
    } else if scaled <= 1900 * u {
        Some((1750u32, 1900u32))
    } else if scaled <= 2050 * u {
        Some((1900u32, 2050u32))
    } else if scaled <= 2200 * u {
        Some((2050u32, 2200u32))
    } else if scaled <= 2400 * u {
        Some((2200u32, 2400u32))
    } else {
        None
    }
}

/// The progress of a score within its tier.
pub open spec fn progress_of(score: Real) -> Progress {
    if !score.is_finite() || score.scaled() <= 0 {
        Progress::Empty
    } else {
        match tier_of(score.scaled()) {
            Some((low, high)) => Progress::Within { score, low, high },
            None => Progress::Full,
        }
    }
}

/// How far a score has come within its tier: the ring around the badge.
pub fn tier_progress(score: Real) -> (r: Progress)
    ensures
        r == progress_of(score),
{
    if !score.finite() {
        return Progress::Empty;
    }
    proof {
        lemma_sign(score);
    }
    if !positive(score) {
        return Progress::Empty;
    }
    let p = score.parts();
    let ghost v = score.scaled();
    proof {
        lemma_against(v, p, 1000);
    }
    if p.whole < 1000 {
        return Progress::Within { score, low: 0, high: 1000 };
    }
    if at_most(p, 1150, Ghost(v)) {
        return Progress::Within { score, low: 1000, high: 1150 };
    }
    if at_most(p, 1300, Ghost(v)) {
        return Progress::Within { score, low: 1150, high: 1300 };
    }
    if at_most(p, 1450, Ghost(v)) {
        return Progress::Within { score, low: 1300, high: 1450 };
    }
    if at_most(p, 1600, Ghost(v)) {
        return Progress::Within { score, low: 1450, high: 1600 };
    }
    if at_most(p, 1750, Ghost(v)) {
        return Progress::Within { score, low: 1600, high: 1750 };
    }
    if at_most(p, 1900, Ghost(v)) {
        return Progress::Within { score, low: 1750, high: 1900 };
    }
    if at_most(p, 2050, Ghost(v)) {
        return Progress::Within { score, low: 1900, high: 2050 };
    }
    if at_most(p, 2200, Ghost(v)) {
        return Progress::Within { score, low: 2050, high: 2200 };
    }
    if at_most(p, 2400, Ghost(v)) {
        return Progress::Within { score, low: 2200, high: 2400 };
    }
    Progress::Full
}

/// The progress of a score is a fraction between 0 and 1: the score lies between the ends of its
/// tier.
pub proof fn law_progress_is_a_fraction(score: Real)
    ensures
        progress_of(score) matches Progress::Within { score: s, low, high } ==> s == score && low < high
            && low * number::unit() <= score.scaled() <= high * number::unit(),
{
    vstd::arithmetic::power2::lemma_pow2_pos(1074);
}

/// A higher score is in no lower tier.
pub proof fn law_tiers_rise(a: int, b: int)
    requires
        a <= b,
    ensures
        tier_of(a) matches Some((low, _)) ==> (tier_of(b) matches Some((low_b, _)) ==> low <= low_b),
        tier_of(a) is None ==> tier_of(b) is None,
{
}

proof fn lemma_labels_differ()
    ensures
        forall|a: int, b: int|
            (#[trigger] label_of(a)) == #[trigger] label_of(b) ==> tier_of(a) == tier_of(b) && (a > 0
                <==> b > 0),
{
    vstd::arithmetic::power2::lemma_pow2_pos(1074);
    reveal_strlit("未定");
    reveal_strlit("D");
    reveal_strlit("C");
    reveal_strlit("C+");
    reveal_strlit("精英C+");
    reveal_strlit("B");
    reveal_strlit("B+");
    reveal_strlit("精英B+");
    reveal_strlit("A");
    reveal_strlit("A+");
    reveal_strlit("精英A+");
    reveal_strlit("S 段");
    assert("未定"@[0] == '未' && "D"@[0] == 'D' && "C"@[0] == 'C' && "B"@[0] == 'B' && "A"@[0] == 'A'
        && "S 段"@[0] == 'S');
    assert("精英C+"@[2] == 'C' && "精英B+"@[2] == 'B' && "精英A+"@[2] == 'A');
    assert("C+"@.len() == 2 && "B+"@.len() == 2 && "A+"@.len() == 2);
    assert("C+"@[0] == 'C' && "B+"@[0] == 'B' && "A+"@[0] == 'A');
    assert("精英C+"@.len() == 4 && "精英B+"@.len() == 4 && "精英A+"@.len() == 4);
}

/// A finite score has the label of the tier between whose ends it lies, and every label belongs to
/// one tier.
pub proof fn law_label_is_that_of_the_tier(score: Real)
    requires
        score.is_finite(),
    ensures
        label_of_score(score) == "D"@ <==> 0 < score.scaled() < 1000 * number::unit(),
        label_of_score(score) == "C"@ <==> 1000 * number::unit() <= score.scaled() <= 1150 * number::unit(),
        label_of_score(score) == "C+"@ <==> 1150 * number::unit() < score.scaled() <= 1300 * number::unit(),
        label_of_score(score) == "精英C+"@ <==> 1300 * number::unit() < score.scaled() <= 1450 * number::unit(),
        label_of_score(score) == "B"@ <==> 1450 * number::unit() < score.scaled() <= 1600 * number::unit(),
        label_of_score(score) == "B+"@ <==> 1600 * number::unit() < score.scaled() <= 1750 * number::unit(),
        label_of_score(score) == "精英B+"@ <==> 1750 * number::unit() < score.scaled() <= 1900 * number::unit(),
        label_of_score(score) == "A"@ <==> 1900 * number::unit() < score.scaled() <= 2050 * number::unit(),
        label_of_score(score) == "A+"@ <==> 2050 * number::unit() < score.scaled() <= 2200 * number::unit(),
        label_of_score(score) == "精英A+"@ <==> 2200 * number::unit() < score.scaled() <= 2400 * number::unit(),
        label_of_score(score) == "S 段"@ <==> score.scaled() > 2400 * number::unit(),
        label_of_score(score) == "未定"@ <==> score.scaled() <= 0,
{
    vstd::arithmetic::power2::lemma_pow2_pos(1074);
    reveal_strlit("未定");
    reveal_strlit("D");
    reveal_strlit("C");
    reveal_strlit("C+");
    reveal_strlit("精英C+");
    reveal_strlit("B");
    reveal_strlit("B+");
    reveal_strlit("精英B+");
    reveal_strlit("A");
    reveal_strlit("A+");
    reveal_strlit("精英A+");
    reveal_strlit("S 段");
    assert("未定"@[0] == '未' && "D"@[0] == 'D' && "C"@[0] == 'C' && "B"@[0] == 'B' && "A"@[0] == 'A'
        && "S 段"@[0] == 'S');
    assert("精英C+"@[2] == 'C' && "精英B+"@[2] == 'B' && "精英A+"@[2] == 'A');
    assert("C+"@.len() == 2 && "B+"@.len() == 2 && "A+"@.len() == 2);
    assert("C+"@[0] == 'C' && "B+"@[0] == 'B' && "A+"@[0] == 'A');
    assert("精英C+"@.len() == 4 && "精英B+"@.len() == 4 && "精英A+"@.len() == 4);
}

/// The label of a finite score and the ends between which its ring is drawn name the same tier.
pub proof fn law_label_agrees_with_the_ring(score: Real)
    requires
        score.is_finite(),
    ensures
        label_of_score(score) == "D"@ <==> progress_of(score) == (Progress::Within {
            score,
            low: 0,
            high: 1000,
        }),
        label_of_score(score) == "C"@ <==> progress_of(score) == (Progress::Within {
            score,
            low: 1000,
            high: 1150,
        }),
        label_of_score(score) == "C+"@ <==> progress_of(score) == (Progress::Within {
            score,
            low: 1150,
            high: 1300,
        }),
        label_of_score(score) == "精英C+"@ <==> progress_of(score) == (Progress::Within {
            score,
            low: 1300,
            high: 1450,
        }),
        label_of_score(score) == "B"@ <==> progress_of(score) == (Progress::Within {
            score,
            low: 1450,
            high: 1600,
        }),
        label_of_score(score) == "B+"@ <==> progress_of(score) == (Progress::Within {
            score,
            low: 1600,
            high: 1750,
        }),
        label_of_score(score) == "精英B+"@ <==> progress_of(score) == (Progress::Within {
            score,
            low: 1750,
            high: 1900,
        }),
        label_of_score(score) == "A"@ <==> progress_of(score) == (Progress::Within {
            score,
            low: 1900,
            high: 2050,
        }),
        label_of_score(score) == "A+"@ <==> progress_of(score) == (Progress::Within {
            score,
            low: 2050,
            high: 2200,
        }),
        label_of_score(score) == "精英A+"@ <==> progress_of(score) == (Progress::Within {
            score,
            low: 2200,
            high: 2400,
        }),
        label_of_score(score) == "S 段"@ <==> progress_of(score) == Progress::Full,
        label_of_score(score) == "未定"@ <==> progress_of(score) == Progress::Empty,
{
    law_label_is_that_of_the_tier(score);
    vstd::arithmetic::power2::lemma_pow2_pos(1074);
}

/// Two positive scores have the same label exactly where no end of a tier lies between them: their
/// rings have the same ends.
pub proof fn law_same_label_same_tier(a: Real, b: Real)
    requires
        a.is_finite(),
        b.is_finite(),
        a.scaled() > 0,
        b.scaled() > 0,
    ensures
        label_of_score(a) == label_of_score(b) <==> tier_of(a.scaled()) == tier_of(b.scaled()),
        a.scaled() <= b.scaled() && label_of_score(a) == "S 段"@ ==> label_of_score(b) == "S 段"@,
{
    lemma_labels_differ();
    law_label_is_that_of_the_tier(a);
    law_label_is_that_of_the_tier(b);
    vstd::arithmetic::power2::lemma_pow2_pos(1074);
}

/// The first ASCII letter of `s`.
pub open spec fn first_letter(s: Seq<char>) -> Option<char>
    decreases s.len(),
{
    if s.len() == 0 {
        None
    } else if text::is_ascii_letter(s.first()) {
        Some(s.first())
    } else {
        first_letter(s.drop_first())
    }
}

fn letter_in(s: &str) -> (r: Option<char>)
    ensures
        r == first_letter(s@),
{
    let cs = text::chars_of(s);
    let mut i: usize = 0;
    assert(s@.skip(0) == s@);
    while i < cs.len()
        invariant
            i <= cs@.len(),
            cs@ == s@,
            first_letter(s@) == first_letter(s@.skip(i as int)),
        decreases cs@.len() - i,
    {
        assert(s@.skip(i as int).drop_first() == s@.skip(i + 1));
        if text::ascii_letter(cs[i]) {
            return Some(cs[i]);
        }
        i += 1;
    }
    None
}

/// The colour class of a label that is in upper case.
pub open spec fn badge_of(upper: Seq<char>) -> Seq<char> {
    match first_letter(upper) {
        Some('S') => "S"@,
        Some('A') => "A"@,
        Some('B') => "B"@,
        Some('C') => "C"@,
        Some('D') => "D"@,
        _ => "U"@,
    }
}

/// The icon of a label that is in upper case.
pub open spec fn icon_of(upper: Seq<char>) -> Seq<char> {
    match first_letter(upper) {
        None => ""@,
        Some('S') => "/assets/s-diamond-1.png"@,
        Some(letter) => "/assets/"@.push(letter) + (if text::has_text(upper, "精英"@) {
            "11"@
        } else if text::has_text(upper, "+"@) {
            "1"@
        } else {
            ""@
        }) + ".svg"@,
    }
}

/// A label as badges look at it: without outer white space, in upper case.
pub open spec fn plain_label(label: Seq<char>) -> Seq<char> {
    text::upper_cased(text::trimmed(label))
}

/// The colour class of a label that is in upper case.
pub fn badge_class_of(upper: &str) -> (r: &'static str)
    ensures
        r@ == badge_of(upper@),
{
    match letter_in(upper) {
        Some('S') => "S",
        Some('A') => "A",
        Some('B') => "B",
        Some('C') => "C",
        Some('D') => "D",
        _ => "U",
    }
}

/// The colour class of a rank label: its first letter.
pub fn rank_badge_class(label: &str) -> (r: &'static str)
    ensures
        r@ == badge_of(plain_label(label@)),
{
    badge_class_of(text::uppercase(text::trim(label).as_str()).as_str())
}

/// The icon of a label that is in upper case.
pub fn icon_url_of(upper: &str) -> (r: String)
    ensures
        r@ == icon_of(upper@),
{
    let letter = match letter_in(upper) {
        Some(c) => c,
        None => {
            return "".to_owned();
        },
    };
    if letter == 'S' {
        return "/assets/s-diamond-1.png".to_owned();
    }
    let mut out = "/assets/".to_owned();
    out.push(letter);
    if text::contains(upper, "精英") {
        out.append("11");
    } else if text::contains(upper, "+") {
        out.append("1");
    } else {
        out.append("");
    }
    out.append(".svg");
    out
}

/// The icon of a rank label: a diamond for the top tier, else its letter, with `11` for an elite
/// tier and `1` for a plus.
pub fn rank_icon_url(label: &str) -> (r: String)
    ensures
        r@ == icon_of(plain_label(label@)),
{
    icon_url_of(text::uppercase(text::trim(label).as_str()).as_str())
}

/// The letter of the tier of a finite score, given in smallest positive doubles.
pub open spec fn tier_letter(scaled: int) -> Seq<char> {
    let u = number::unit() as int;
    if scaled <= 0 {
        "U"@
    } else if scaled < 1000 * u {
        "D"@
    } else if scaled <= 1450 * u {
        "C"@
    } else if scaled <= 1900 * u {
        "B"@
    } else if scaled <= 2400 * u {
        "A"@
    } else {
        "S"@
    }
}

proof fn lemma_plain_label(s: Seq<char>)
    requires
        s.len() > 0,
        !text::is_white(s.first()),
        !text::is_white(s.last()),
        text::plain_case(s),
    ensures
        plain_label(s) == s.map_values(|c: char| text::ascii_upper(c)),
{
}

/// The badge of a label has the letter of the tier that the label came from.
pub proof fn law_badge_follows_score(scaled: int)
    ensures
        badge_of(plain_label(label_of(scaled))) == tier_letter(scaled),
{
    vstd::arithmetic::power2::lemma_pow2_pos(1074);
    reveal_with_fuel(first_letter, 4);
    reveal_strlit("未定");
    reveal_strlit("D");
    reveal_strlit("C");
    reveal_strlit("C+");
    reveal_strlit("精英C+");
    reveal_strlit("B");
    reveal_strlit("B+");
    reveal_strlit("精英B+");
    reveal_strlit("A");
    reveal_strlit("A+");
    reveal_strlit("精英A+");
    reveal_strlit("S 段");
    let label = label_of(scaled);
    lemma_plain_label(label);
    let up = plain_label(label);
    assert(up.len() == label.len());
    assert(up.drop_first().len() == up.len() - 1);
}

/// The icon of a tier shows its letter, with `11` for an elite tier and `1` for a plus, and a
/// diamond for the top tier; a score without a tier has none.
pub proof fn law_icon_tells_the_tier(scaled: int)
    ensures
        label_of(scaled) == "未定"@ ==> icon_of(plain_label(label_of(scaled))) == ""@,
        label_of(scaled) == "D"@ ==> icon_of(plain_label(label_of(scaled))) == "/assets/D.svg"@,
        label_of(scaled) == "C"@ ==> icon_of(plain_label(label_of(scaled))) == "/assets/C.svg"@,
        label_of(scaled) == "C+"@ ==> icon_of(plain_label(label_of(scaled))) == "/assets/C1.svg"@,
        label_of(scaled) == "精英C+"@ ==> icon_of(plain_label(label_of(scaled))) == "/assets/C11.svg"@,
        label_of(scaled) == "B"@ ==> icon_of(plain_label(label_of(scaled))) == "/assets/B.svg"@,
        label_of(scaled) == "B+"@ ==> icon_of(plain_label(label_of(scaled))) == "/assets/B1.svg"@,
        label_of(scaled) == "精英B+"@ ==> icon_of(plain_label(label_of(scaled))) == "/assets/B11.svg"@,
        label_of(scaled) == "A"@ ==> icon_of(plain_label(label_of(scaled))) == "/assets/A.svg"@,
        label_of(scaled) == "A+"@ ==> icon_of(plain_label(label_of(scaled))) == "/assets/A1.svg"@,
        label_of(scaled) == "精英A+"@ ==> icon_of(plain_label(label_of(scaled))) == "/assets/A11.svg"@,
        label_of(scaled) == "S 段"@ ==> icon_of(plain_label(label_of(scaled))) == "/assets/s-diamond-1.png"@,
{
    let label = label_of(scaled);
    lemma_icon_of_label(label);
    reveal_strlit("未定");
    reveal_strlit("D");
    reveal_strlit("C");
    reveal_strlit("C+");
    reveal_strlit("精英C+");
    reveal_strlit("B");
    reveal_strlit("B+");
    reveal_strlit("精英B+");
    reveal_strlit("A");
    reveal_strlit("A+");
    reveal_strlit("精英A+");
    reveal_strlit("S 段");
    reveal_strlit("");
    reveal_strlit("/assets/D.svg");
    reveal_strlit("/assets/C.svg");
    reveal_strlit("/assets/C1.svg");
    reveal_strlit("/assets/C11.svg");
    reveal_strlit("/assets/B.svg");
    reveal_strlit("/assets/B1.svg");
    reveal_strlit("/assets/B11.svg");
    reveal_strlit("/assets/A.svg");
    reveal_strlit("/assets/A1.svg");
    reveal_strlit("/assets/A11.svg");
    reveal_strlit("/assets/s-diamond-1.png");
    reveal_strlit("1");
    reveal_strlit("11");
    reveal_strlit("/assets/");
    reveal_strlit(".svg");
    let icon = icon_of(plain_label(label));
    assert(label == "D"@ ==> icon =~= "/assets/D.svg"@);
    assert(label == "C"@ ==> icon =~= "/assets/C.svg"@);
    assert(label == "C+"@ ==> icon =~= "/assets/C1.svg"@);
    assert(label == "精英C+"@ ==> icon =~= "/assets/C11.svg"@);
    assert(label == "B"@ ==> icon =~= "/assets/B.svg"@);
    assert(label == "B+"@ ==> icon =~= "/assets/B1.svg"@);
    assert(label == "精英B+"@ ==> icon =~= "/assets/B11.svg"@);
    assert(label == "A"@ ==> icon =~= "/assets/A.svg"@);
    assert(label == "A+"@ ==> icon =~= "/assets/A1.svg"@);
    assert(label == "精英A+"@ ==> icon =~= "/assets/A11.svg"@);
}

/// Case and outer white space of a label change neither its badge nor its icon.
pub proof fn law_badge_is_blind_to_case_and_space(
    label: Seq<char>,
    other: Seq<char>,
    before: Seq<char>,
    after: Seq<char>,
)
    requires
        text::plain_case(label),
        text::plain_case(other),
        text::lower_cased(other) == text::lower_cased(label),
        text::all_white(before),
        text::all_white(after),
    ensures
        badge_of(plain_label(before + other + after)) == badge_of(plain_label(label)),
        icon_of(plain_label(before + other + after)) == icon_of(plain_label(label)),
{
    text::law_trimming_is_blind_to_outer_space(before, other, after);
    text::law_plain_case(label);
    text::law_plain_case(other);
    text::law_plain_case(text::trimmed(label));
    text::law_plain_case(text::trimmed(other));
}

pub(crate) proof fn lemma_icon_of_label(label: Seq<char>)
    requires
        exists|scaled: int| label == #[trigger] label_of(scaled),
    ensures
        icon_of(plain_label(label)) == (if label == "未定"@ {
            ""@
        } else if label == "S 段"@ {
            "/assets/s-diamond-1.png"@
        } else if label.len() == 1 {
            "/assets/"@.push(label[0]) + ""@ + ".svg"@
        } else if label.len() == 2 {
            "/assets/"@.push(label[0]) + "1"@ + ".svg"@
        } else {
            "/assets/"@.push(label[2]) + "11"@ + ".svg"@
        }),
{
    reveal_with_fuel(first_letter, 4);
    reveal_strlit("未定");
    reveal_strlit("D");
    reveal_strlit("C");
    reveal_strlit("C+");
    reveal_strlit("精英C+");
    reveal_strlit("B");
    reveal_strlit("B+");
    reveal_strlit("精英B+");
    reveal_strlit("A");
    reveal_strlit("A+");
    reveal_strlit("精英A+");
    reveal_strlit("S 段");
    reveal_strlit("精英");
    reveal_strlit("+");
    lemma_plain_label(label);
    let up = plain_label(label);
    assert(up =~= label);
    assert(up.drop_first().len() == up.len() - 1);
    if label.len() == 1 {
        if text::has_text(up, "+"@) {
            let i = choose|i: int| text::occurs_at(up, "+"@, i);
            assert(up.subrange(i, i + 1)[0] == up[0]);
        }
    } else if label.len() == 2 && label != "未定"@ {
        if text::has_text(up, "精英"@) {
            let i = choose|i: int| text::occurs_at(up, "精英"@, i);
            assert(up.subrange(i, i + 2)[0] == up[0]);
        }
        assert(up.subrange(1, 2) =~= "+"@);
        assert(text::occurs_at(up, "+"@, 1));
    } else if label.len() == 4 {
        assert(up.subrange(0, 2) =~= "精英"@);
        assert(text::occurs_at(up, "精英"@, 0));
    }
}

/// What is known of a player's rank.
#[derive(Clone, Copy, PartialEq, Eq, Structural, Debug)]
pub enum RankStatus {
    Loading,
    Ready,
    Unavailable,
}

impl Default for RankStatus {
    fn default() -> (r: Self)
        ensures
            r == RankStatus::Loading,
    {
        RankStatus::Loading
    }
}

/// The outcome of a player's rank lookup.
pub struct RankMeta {
    pub status: RankStatus,
    pub label: String,
    /// The score outside the top tier; none in it.
    pub score: Option<u32>,
    /// How far the score has come within its tier.
    pub progress: Progress,
    /// The stars of the top tier.
    pub stars: Option<u32>,
}

/// The outcome of a rank lookup, by its characters.
pub struct RankMetaView {
    pub status: RankStatus,
    pub label: Seq<char>,
    pub score: Option<u32>,
    pub progress: Progress,
    pub stars: Option<u32>,
}

impl View for RankMeta {
    type V = RankMetaView;

    open spec fn view(&self) -> RankMetaView {
        RankMetaView {
            status: self.status,
            label: self.label@,
            score: self.score,
            progress: self.progress,
            stars: self.stars,
        }
    }
}

impl Clone for RankMeta {
    fn clone(&self) -> (r: Self)
        ensures
            r == *self,
    {
        RankMeta {
            status: self.status,
            label: self.label.clone(),
            score: self.score,
            progress: self.progress,
            stars: self.stars,
        }
    }
}

/// A rank of which nothing is known but its status.
pub open spec fn bare_rank(status: RankStatus) -> RankMetaView {
    RankMetaView {
        status,
        label: Seq::empty(),
        score: None,
        progress: Progress::Empty,
        stars: None,
    }
}

fn bare(status: RankStatus) -> (r: RankMeta)
    ensures
        r@ == bare_rank(status),
{
    RankMeta { status, label: String::new(), score: None, progress: Progress::Empty, stars: None }
}

impl Default for RankMeta {
    fn default() -> (r: Self)
        ensures
            r@ == bare_rank(RankStatus::Loading),
    {
        bare(RankStatus::Loading)
    }
}

/// The score is one of the top tier.
pub open spec fn is_top(scaled: int) -> bool {
    scaled > 2400 * number::unit()
}

/// The score of a positive number as it is shown; the top tier shows none.
pub open spec fn shown_score(score: Real) -> Option<u32> {
    if !score.is_finite() {
        Some(u32::MAX)
    } else if is_top(score.scaled()) {
        None
    } else {
        Some(number::rounded(score.scaled()) as u32)
    }
}

/// The rank of a player whose score is `score`.
pub open spec fn rank_of_score(score: Option<Real>) -> RankMetaView {
    match score {
        Some(n) if is_positive(n) => RankMetaView {
            status: RankStatus::Ready,
            label: label_of_score(n),
            score: shown_score(n),
            progress: progress_of(n),
            stars: None,
        },
        _ => bare_rank(RankStatus::Unavailable),
    }
}

fn score_shown(n: Real) -> (r: Option<u32>)
    requires
        is_positive(n),
    ensures
        r == shown_score(n),
{
    if !n.finite() {
        return Some(0xFFFF_FFFF);
    }
    let p = n.parts();
    if at_most(p, 2400, Ghost(n.scaled())) {
        Some(n.round())
    } else {
        None
    }
}

/// A player of the top tier has its label and a full ring, and no score.
pub proof fn law_top_tier_shows_no_score(score: Real)
    requires
        score.is_finite(),
        is_top(score.scaled()),
    ensures
        rank_of_score(Some(score)) == (RankMetaView {
            status: RankStatus::Ready,
            label: "S 段"@,
            score: None,
            progress: Progress::Full,
            stars: None,
        }),
{
    vstd::arithmetic::power2::lemma_pow2_pos(1074);
    lemma_sign(score);
}

/// Below the top tier the shown score is the integer nearest to the score, halves up.
pub proof fn law_shown_score_is_the_nearest(score: Real, n: u32)
    requires
        score.is_finite(),
        0 < score.scaled() <= 2400 * number::unit(),
    ensures
        rank_of_score(Some(score)).score == Some(n) <==> 2 * (n * number::unit() - score.scaled())
            <= number::unit() && 2 * (score.scaled() - n * number::unit()) < number::unit(),
{
    vstd::arithmetic::power2::lemma_pow2_pos(1074);
    lemma_sign(score);
    let u = number::unit() as int;
    assert(score.scaled() < u32::MAX * u) by (nonlinear_arith)
        requires
            score.scaled() <= 2400 * u,
            u > 0,
    ;
    number::law_rounding_takes_the_nearest(score.scaled(), n as int);
    let m = number::rounded(score.scaled());
    assert(0 <= m <= u32::MAX) by (nonlinear_arith)
        requires
            2 * (m * u - score.scaled()) <= u,
            2 * (score.scaled() - m * u) < u,
            0 < score.scaled() <= 2400 * u,
            u > 0,
    ;
}

/// A rank is known exactly of a positive score; its label and its ring are those of the score, and
/// without a score there is none of them.
pub proof fn law_rank_is_that_of_the_score(score: Real)
    requires
        score.is_finite(),
    ensures
        score.scaled() > 0 ==> rank_of_score(Some(score)).status == RankStatus::Ready
            && rank_of_score(Some(score)).label == label_of_score(score) && rank_of_score(
            Some(score),
        ).progress == progress_of(score),
        score.scaled() <= 0 ==> rank_of_score(Some(score)) == rank_of_score(None),
        rank_of_score(None).status == RankStatus::Unavailable,
        rank_of_score(None).label.len() == 0,
        rank_of_score(None).score is None,
        rank_of_score(None).progress == Progress::Empty,
        rank_of_score(Some(score)).stars is None,
{
    lemma_sign(score);
}

/// The rank and the nickname in an entry of the reply of `search/user`.
pub fn meta_from_user(user: &User) -> (r: (RankMeta, String))
    ensures
        r.0@ == rank_of_score(user.score_value()),
        r.1@ == text::text_or_empty(text::opt_text(user.nickname)),
{
    let name = match &user.nickname {
        Some(n) => n.clone(),
        None => String::new(),
    };
    let meta = match user.score_num() {
        Some(n) => {
            if positive(n) {
                RankMeta {
                    status: RankStatus::Ready,
                    label: rank_label_from_score(n).to_owned(),
                    score: score_shown(n),
                    progress: tier_progress(n),
                    stars: None,
                }
            } else {
                bare(RankStatus::Unavailable)
            }
        },
        None => bare(RankStatus::Unavailable),
    };
    (meta, name)
}

/// What counts towards a team's average: a known score outside the top tier.
pub open spec fn counted(m: RankMetaView) -> Option<u32> {
    if m.status == RankStatus::Ready && !(m.label.len() > 0 && m.label.first() == 'S') {
        m.score
    } else {
        None
    }
}

/// Ranks, by their characters.
pub open spec fn ranks_of(list: Seq<RankMeta>) -> Seq<RankMetaView> {
    list.map_values(|m: RankMeta| m@)
}

/// The sum of the scores that count.
pub open spec fn score_sum(list: Seq<RankMetaView>) -> nat
    decreases list.len(),
{
    if list.len() == 0 {
        0
    } else {
        score_sum(list.drop_last()) + (match counted(list.last()) {
            Some(s) => s as nat,
            None => 0,
        })
    }
}

/// How many scores count.
pub open spec fn score_count(list: Seq<RankMetaView>) -> nat
    decreases list.len(),
{
    if list.len() == 0 {
        0
    } else {
        score_count(list.drop_last()) + (if counted(list.last()) is Some {
            1nat
        } else {
            0
        })
    }
}

/// The mean of the scores that count, rounded to the nearest integer, halves up.
pub open spec fn average_of(list: Seq<RankMetaView>) -> Option<nat> {
    let n = score_count(list);
    if n == 0 {
        None
    } else {
        Some((2 * score_sum(list) + n) / (2 * n))
    }
}

proof fn lemma_average(sum: nat, n: nat, low: nat, high: nat)
    requires
        n > 0,
        low * n <= sum <= high * n,
    ensures
        low <= (2 * sum + n) / (2 * n) <= high,
{
    let q = (2 * sum + n) / (2 * n);
    vstd::arithmetic::div_mod::lemma_fundamental_div_mod((2 * sum + n) as int, (2 * n) as int);
    vstd::arithmetic::div_mod::lemma_mod_bound((2 * sum + n) as int, (2 * n) as int);
    let r = (2 * sum + n) % (2 * n);
    assert(2 * sum + n == (2 * n) * q + r);
    assert(low <= q) by (nonlinear_arith)
        requires
            2 * sum + n == (2 * n) * q + r,
            0 <= r < 2 * n,
            low * n <= sum,
            n > 0,
    ;
    assert(q <= high) by (nonlinear_arith)
        requires
            2 * sum + n == (2 * n) * q + r,
            0 <= r < 2 * n,
            sum <= high * n,
            n > 0,
    ;
}

proof fn lemma_sum_bounds(list: Seq<RankMetaView>, low: nat, high: nat)
    requires
        forall|i: int|
            0 <= i < list.len() ==> (counted(#[trigger] list[i]) matches Some(s) ==> low <= s
                <= high),
    ensures
        low * score_count(list) <= score_sum(list) <= high * score_count(list),
        score_count(list) <= list.len(),
    decreases list.len(),
{
    if list.len() > 0 {
        let before = list.drop_last();
        assert forall|i: int| 0 <= i < before.len() implies (counted(#[trigger] before[i]) matches Some(
            s,
        ) ==> low <= s <= high) by {
            assert(before[i] == list[i]);
        }
        lemma_sum_bounds(before, low, high);
        let c = score_count(before);
        assert(list.last() == list[list.len() - 1]);
        assert(low * (c + 1) == low * c + low) by (nonlinear_arith);
        assert(high * (c + 1) == high * c + high) by (nonlinear_arith);
    } else {
        assert(low * 0 == 0 && high * 0 == 0);
    }
}

/// A team's average lies between its lowest and its highest counted score.
pub proof fn law_average_between(list: Seq<RankMetaView>, low: nat, high: nat)
    requires
        forall|i: int|
            0 <= i < list.len() ==> (counted(#[trigger] list[i]) matches Some(s) ==> low <= s
                <= high),
    ensures
        average_of(list) matches Some(a) ==> low <= a <= high,
{
    lemma_sum_bounds(list, low, high);
    if score_count(list) > 0 {
        lemma_average(score_sum(list), score_count(list), low, high);
    }
}

proof fn lemma_without(list: Seq<RankMetaView>, i: int)
    requires
        0 <= i < list.len(),
    ensures
        score_count(list) == score_count(list.remove(i)) + score_count(seq![list[i]]),
        score_sum(list) == score_sum(list.remove(i)) + score_sum(seq![list[i]]),
    decreases list.len(),
{
    let one = seq![list[i]];
    assert(one.drop_last() =~= Seq::empty());
    assert(score_count(one.drop_last()) == 0 && score_sum(one.drop_last()) == 0);
    let rest = list.remove(i);
    if i == list.len() - 1 {
        assert(rest =~= list.drop_last());
    } else {
        lemma_without(list.drop_last(), i);
        assert(rest.drop_last() =~= list.drop_last().remove(i));
        assert(rest.last() == list.last());
    }
}

proof fn lemma_reordered(a: Seq<RankMetaView>, b: Seq<RankMetaView>)
    requires
        a.to_multiset() == b.to_multiset(),
    ensures
        score_count(a) == score_count(b),
        score_sum(a) == score_sum(b),
    decreases a.len(),
{
    a.to_multiset_ensures();
    b.to_multiset_ensures();
    if a.len() > 0 {
        let x = a[a.len() - 1];
        assert(a.contains(x));
        assert(a.to_multiset().count(x) > 0);
        assert(b.contains(x));
        let i = choose|i: int| 0 <= i < b.len() && b[i] == x;
        let front = a.remove(a.len() - 1);
        assert(front.to_multiset() == b.remove(i).to_multiset());
        lemma_without(a, a.len() - 1);
        lemma_without(b, i);
        lemma_reordered(front, b.remove(i));
    }
}

proof fn lemma_uncounted(list: Seq<RankMetaView>, others: Seq<RankMetaView>)
    requires
        forall|i: int| 0 <= i < others.len() ==> counted(#[trigger] others[i]) is None,
    ensures
        score_count(list + others) == score_count(list),
        score_sum(list + others) == score_sum(list),
    decreases others.len(),
{
    if others.len() == 0 {
        assert(list + others =~= list);
    } else {
        let fewer = others.drop_last();
        assert forall|i: int| 0 <= i < fewer.len() implies counted(#[trigger] fewer[i]) is None by {
            assert(fewer[i] == others[i]);
        }
        lemma_uncounted(list, fewer);
        assert((list + others).drop_last() =~= list + fewer);
        assert((list + others).last() == others[others.len() - 1]);
    }
}

/// A team's average does not depend on the order of its players, nor on the players whose score is
/// unknown or in the top tier; of those alone there is none.
pub proof fn law_average_is_of_counted_scores(
    team: Seq<RankMetaView>,
    list: Seq<RankMetaView>,
    others: Seq<RankMetaView>,
)
    requires
        team.to_multiset() == (list + others).to_multiset(),
        forall|i: int| 0 <= i < others.len() ==> counted(#[trigger] others[i]) is None,
    ensures
        average_of(team) == average_of(list),
        average_of(others) is None,
{
    lemma_reordered(team, list + others);
    lemma_uncounted(list, others);
    lemma_uncounted(Seq::empty(), others);
    assert(Seq::<RankMetaView>::empty() + others =~= others);
}

/// Of a team whose ranks are all known and below the top tier, the average is the integer nearest
/// to the sum of the scores divided by their number, halves up.
pub proof fn law_average_is_the_mean(team: Seq<RankMetaView>, a: nat)
    requires
        team.len() > 0,
        forall|i: int|
            0 <= i < team.len() ==> (#[trigger] team[i]).status == RankStatus::Ready
                && team[i].score is Some && (team[i].label.len() > 0 ==> team[i].label[0] != 'S'),
    ensures
        ({
            let sum = team.fold_left(0int, |t: int, m: RankMetaView| t + m.score->0);
            average_of(team) == Some(a) <==> 2 * (a * team.len() - sum) <= team.len() && 2 * (sum
                - a * team.len()) < team.len()
        }),
{
    lemma_all_count(team);
    let n = team.len() as int;
    let sum = score_sum(team) as int;
    let q = (2 * sum + n) / (2 * n);
    vstd::arithmetic::div_mod::lemma_fundamental_div_mod(2 * sum + n, 2 * n);
    vstd::arithmetic::div_mod::lemma_mod_bound(2 * sum + n, 2 * n);
    let r = (2 * sum + n) % (2 * n);
    assert((2 * n) * q == 2 * (q * n)) by (nonlinear_arith);
    let b = a as int;
    if 2 * (b * n - sum) <= n && 2 * (sum - b * n) < n {
        assert(b == q) by (nonlinear_arith)
            requires
                2 * (b * n - sum) <= n,
                2 * (sum - b * n) < n,
                2 * sum + n == 2 * (q * n) + r,
                0 <= r < 2 * n,
                n > 0,
        ;
    }
}

proof fn lemma_all_count(team: Seq<RankMetaView>)
    requires
        forall|i: int|
            0 <= i < team.len() ==> (#[trigger] team[i]).status == RankStatus::Ready
                && team[i].score is Some && (team[i].label.len() > 0 ==> team[i].label[0] != 'S'),
    ensures
        score_count(team) == team.len(),
        score_sum(team) == team.fold_left(0int, |t: int, m: RankMetaView| t + m.score->0),
    decreases team.len(),
{
    if team.len() > 0 {
        let before = team.drop_last();
        assert forall|i: int| 0 <= i < before.len() implies (#[trigger] before[i]).status
            == RankStatus::Ready && before[i].score is Some && (before[i].label.len() > 0
            ==> before[i].label[0] != 'S') by {
            assert(before[i] == team[i]);
        }
        lemma_all_count(before);
        assert(team.last() == team[team.len() - 1]);
    }
}

/// A player whose rank is not known, whose rank is in the top tier or who has no score changes no
/// average.
pub proof fn law_unknown_and_top_are_left_out(
    before: Seq<RankMetaView>,
    m: RankMetaView,
    after: Seq<RankMetaView>,
)
    requires
        m.status != RankStatus::Ready || m.score is None || (m.label.len() > 0 && m.label[0] == 'S'),
    ensures
        average_of(before.push(m) + after) == average_of(before + after),
{
    let all = before.push(m) + after;
    let i = before.len() as int;
    lemma_without(all, i);
    assert(all.remove(i) =~= before + after);
    let one = seq![all[i]];
    assert(one.drop_last() =~= Seq::empty());
    assert(one.last() == m);
    assert(score_count(one.drop_last()) == 0 && score_sum(one.drop_last()) == 0);
    assert(score_count(one) == 0 && score_sum(one) == 0);
}

/// The average score of a team: of the players whose score is known, outside the top tier.
pub fn side_avg_score(meta_list: &[RankMeta]) -> (r: Option<u32>)
    ensures
        match r {
            Some(a) => average_of(ranks_of(meta_list@)) == Some(a as nat),
            None => average_of(ranks_of(meta_list@)) is None,
        },
{
    let mut sum: u128 = 0;
    let mut cnt: u64 = 0;
    let mut i: usize = 0;
    let ghost views = ranks_of(meta_list@);
    assert(views.take(0) == Seq::<RankMetaView>::empty());
    while i < meta_list.len()
        invariant
            i <= meta_list@.len(),
            views == ranks_of(meta_list@),
            sum == score_sum(views.take(i as int)),
            cnt == score_count(views.take(i as int)),
            cnt <= i,
            sum <= i * 0xFFFF_FFFF,
        decreases meta_list@.len() - i,
    {
        assert(views.take(i + 1).drop_last() == views.take(i as int));
        assert(views.take(i + 1).last() == meta_list@[i as int]@);
        let m = &meta_list[i];
        let top = text::starts_with(m.label.as_str(), "S");
        proof {
            reveal_strlit("S");
            if m.label@.len() > 0 {
                assert(m.label@.take(1)[0] == m.label@[0]);
                if m.label@.first() == 'S' {
                    assert(m.label@.take(1) == "S"@);
                }
            }
        }
        if m.status == RankStatus::Ready && !top {
            match m.score {
                Some(s) => {
                    sum = sum + s as u128;
                    cnt = cnt + 1;
                },
                None => {},
            }
        }
        i += 1;
    }
    assert(views.take(i as int) == views);
    if cnt == 0 {
        return None;
    }
    let n: u128 = cnt as u128;
    proof {
        lemma_sum_bounds(views, 0, 0xFFFF_FFFF);
        lemma_average(score_sum(views), score_count(views), 0, 0xFFFF_FFFF);
    }
    let a: u128 = (2 * sum + n) / (2 * n);
    Some(a as u32)
}

/// A cached player: rank and nickname, from the same lookup.
struct CacheEntry {
    meta: RankMeta,
    name: String,
}

/// A cached player, by its characters.
pub struct EntryView {
    pub meta: RankMetaView,
    pub name: Seq<char>,
}

impl View for CacheEntry {
    type V = EntryView;

    closed spec fn view(&self) -> EntryView {
        EntryView { meta: self.meta@, name: self.name@ }
    }
}

/// The players that were looked up and those whose lookup is under way.
pub struct RankService {
    map: StringHashMap<CacheEntry>,
    pending: StringHashSet,
}

/// What the cache holds, and which lookups are under way.
#[verifier::ext_equal]
pub struct RankModel {
    pub entries: Map<Seq<char>, EntryView>,
    pub pending: Set<Seq<char>>,
}

/// Nobody was looked up, and nobody is being looked up.
pub open spec fn no_ranks() -> RankModel {
    RankModel { entries: Map::empty(), pending: Set::empty() }
}

impl RankModel {
    /// A lookup that is under way has an entry.
    pub open spec fn wf(self) -> bool {
        self.pending.subset_of(self.entries.dom())
    }

    /// The rank in the cache.
    pub open spec fn rank(self, sid: Seq<char>) -> Option<RankMetaView> {
        if self.entries.contains_key(sid) {
            Some(self.entries[sid].meta)
        } else {
            None
        }
    }

    /// The nickname in the cache, where there is one.
    pub open spec fn nickname(self, sid: Seq<char>) -> Option<Seq<char>> {
        if self.entries.contains_key(sid) && self.entries[sid].name.len() > 0 {
            Some(self.entries[sid].name)
        } else {
            None
        }
    }

    /// A lookup of `sid` has to be started.
    pub open spec fn must_queue(self, sid: Seq<char>) -> bool {
        sid.len() > 0 && !self.entries.contains_key(sid) && !self.pending.contains(sid)
    }

    /// The cache once `sid` was asked for.
    pub open spec fn asked(self, sid: Seq<char>) -> RankModel {
        if self.must_queue(sid) {
            RankModel {
                entries: self.entries.insert(
                    sid,
                    EntryView { meta: bare_rank(RankStatus::Loading), name: Seq::empty() },
                ),
                pending: self.pending.insert(sid),
            }
        } else {
            self
        }
    }

    /// What asking for `sid` gives at once.
    pub open spec fn answer(self, sid: Seq<char>) -> RankMetaView {
        if sid.len() == 0 {
            bare_rank(RankStatus::Unavailable)
        } else if self.entries.contains_key(sid) {
            self.entries[sid].meta
        } else {
            bare_rank(RankStatus::Loading)
        }
    }

    /// The cache once a lookup of `sid` gave `entry`.
    pub open spec fn stored(self, sid: Seq<char>, entry: EntryView) -> RankModel {
        RankModel { entries: self.entries.insert(sid, entry), pending: self.pending.remove(sid) }
    }

    /// The cache once the stars of `sid` are known.
    pub open spec fn starred(self, sid: Seq<char>, stars: u32) -> RankModel {
        if sid.len() > 0 && self.entries.contains_key(sid) {
            let e = self.entries[sid];
            RankModel {
                entries: self.entries.insert(
                    sid,
                    EntryView {
                        meta: RankMetaView {
                            stars: Some(
                                if stars < 100 {
                                    stars
                                } else {
                                    100
                                },
                            ),
                            ..e.meta
                        },
                        name: e.name,
                    },
                ),
                pending: self.pending,
            }
        } else {
            self
        }
    }
}

/// The entry that a user of the reply of `search/user` gives.
pub open spec fn entry_of_user(user: User) -> EntryView {
    EntryView {
        meta: rank_of_score(user.score_value()),
        name: text::text_or_empty(text::opt_text(user.nickname)),
    }
}

/// The entry that a lookup gives: without a user the rank is unavailable.
pub open spec fn entry_of_lookup(found: Option<User>) -> EntryView {
    match found {
        Some(user) => entry_of_user(user),
        None => EntryView { meta: bare_rank(RankStatus::Unavailable), name: Seq::empty() },
    }
}

/// The answer of the cache: what is known now, and the id whose lookup has to be started.
pub struct RankAnswer {
    pub meta: RankMeta,
    pub queue: Option<String>,
}

impl View for RankService {
    type V = RankModel;

    closed spec fn view(&self) -> RankModel {
        RankModel {
            entries: self.map@.map_values(|e: CacheEntry| e@),
            pending: self.pending@,
        }
    }
}

impl RankService {
    /// An empty cache.
    pub fn new() -> (r: RankService)
        ensures
            r@.entries == Map::<Seq<char>, EntryView>::empty(),
            r@.pending == Set::<Seq<char>>::empty(),
            r@.wf(),
    {
        let r = RankService { map: StringHashMap::new(), pending: StringHashSet::new() };
        assert(r@.entries =~= Map::<Seq<char>, EntryView>::empty());
        r
    }

    fn put(&mut self, sid: &str, entry: CacheEntry)
        ensures
            final(self)@.entries == old(self)@.entries.insert(sid@, entry@),
            final(self)@.pending == old(self)@.pending,
    {
        self.map.insert(sid.to_owned(), entry);
        assert(self@.entries =~= old(self)@.entries.insert(sid@, entry@));
    }

    /// Asks for a player's rank. What the cache holds is given at once; otherwise the lookup is
    /// queued, once per id.
    pub fn ensure(&mut self, steam_id: &str) -> (r: RankAnswer)
        ensures
            r.meta@ == old(self)@.answer(text::trimmed(steam_id@)),
            text::opt_text(r.queue) == (if old(self)@.must_queue(text::trimmed(steam_id@)) {
                Some(text::trimmed(steam_id@))
            } else {
                None
            }),
            final(self)@ == old(self)@.asked(text::trimmed(steam_id@)),
            old(self)@.wf() ==> final(self)@.wf(),
    {
        let sid = text::trim(steam_id);
        if sid.as_str().is_empty() {
            return RankAnswer { meta: bare(RankStatus::Unavailable), queue: None };
        }
        match self.map.get(sid.as_str()) {
            Some(entry) => {
                return RankAnswer { meta: entry.meta.clone(), queue: None };
            },
            None => {},
        }
        if self.pending.contains(sid.as_str()) {
            return RankAnswer { meta: bare(RankStatus::Loading), queue: None };
        }
        self.pending.insert(sid.clone());
        assert(self@.entries == old(self)@.entries);
        self.put(sid.as_str(), CacheEntry { meta: bare(RankStatus::Loading), name: String::new() });
        RankAnswer { meta: bare(RankStatus::Loading), queue: Some(sid) }
    }

    /// The rank in the cache.
    pub fn get(&self, steam_id: &str) -> (r: Option<RankMeta>)
        ensures
            match r {
                Some(m) => self@.rank(text::trimmed(steam_id@)) == Some(m@),
                None => self@.rank(text::trimmed(steam_id@)) is None,
            },
    {
        match self.map.get(text::trim(steam_id).as_str()) {
            Some(entry) => Some(entry.meta.clone()),
            None => None,
        }
    }

    /// The nickname in the cache.
    pub fn name(&self, steam_id: &str) -> (r: Option<String>)
        ensures
            text::opt_text(r) == self@.nickname(text::trimmed(steam_id@)),
    {
        match self.map.get(text::trim(steam_id).as_str()) {
            Some(entry) => {
                if entry.name.as_str().is_empty() {
                    None
                } else {
                    Some(entry.name.clone())
                }
            },
            None => None,
        }
    }

    fn settle(&mut self, sid: &str, entry: CacheEntry)
        ensures
            final(self)@ == old(self)@.stored(sid@, entry@),
            old(self)@.wf() ==> final(self)@.wf(),
    {
        self.pending.remove(sid);
        assert(self@.entries == old(self)@.entries);
        self.put(sid, entry);
    }

    /// Stores what is already known of a player, without a lookup.
    pub fn seed_user(&mut self, steam_id: &str, user: &User) -> (r: bool)
        ensures
            r == (text::trimmed(steam_id@).len() > 0),
            final(self)@ == (if r {
                old(self)@.stored(text::trimmed(steam_id@), entry_of_user(*user))
            } else {
                old(self)@
            }),
            old(self)@.wf() ==> final(self)@.wf(),
    {
        let sid = text::trim(steam_id);
        if sid.as_str().is_empty() {
            return false;
        }
        let (meta, name) = meta_from_user(user);
        self.settle(sid.as_str(), CacheEntry { meta, name });
        true
    }

    /// Stores the outcome of a queued lookup; no user was found or the lookup failed where it is
    /// none.
    pub fn complete(&mut self, sid: &str, found: Option<&User>)
        ensures
            final(self)@ == old(self)@.stored(
                sid@,
                entry_of_lookup(
                    match found {
                        Some(u) => Some(*u),
                        None => None,
                    },
                ),
            ),
            old(self)@.wf() ==> final(self)@.wf(),
    {
        let entry = match found {
            Some(user) => {
                let (meta, name) = meta_from_user(user);
                CacheEntry { meta, name }
            },
            None => CacheEntry { meta: bare(RankStatus::Unavailable), name: String::new() },
        };
        self.settle(sid, entry);
    }

    /// Empties the cache, so that a new match looks every player up once.
    pub fn reset_for_match(&mut self)
        ensures
            final(self)@ == no_ranks(),
            final(self)@.wf(),
    {
        self.map.clear();
        self.pending.clear();
        assert(self@.entries =~= Map::<Seq<char>, EntryView>::empty());
    }

    /// Adds the stars of the top tier, 100 at most, to a player in the cache.
    pub fn seed_stars(&mut self, steam_id: &str, stars: u32)
        ensures
            final(self)@ == old(self)@.starred(text::trimmed(steam_id@), stars),
            old(self)@.wf() ==> final(self)@.wf(),
    {
        let sid = text::trim(steam_id);
        if sid.as_str().is_empty() {
            return;
        }
        let entry = match self.map.get(sid.as_str()) {
            Some(e) => {
                let mut meta = e.meta.clone();
                meta.stars = Some(
                    if stars < 100 {
                        stars
                    } else {
                        100
                    },
                );
                CacheEntry { meta, name: e.name.clone() }
            },
            None => {
                return;
            },
        };
        self.put(sid.as_str(), entry);
    }
}

/// Asking twice starts one lookup: the second question queues nothing and changes nothing.
pub proof fn law_queued_once(m: RankModel, sid: Seq<char>)
    ensures
        !m.asked(sid).must_queue(sid),
        m.asked(sid).asked(sid) == m.asked(sid),
        m.asked(sid).answer(sid) == m.answer(sid),
{
}

/// A question for one player leaves what is known of every other.
pub proof fn law_question_is_local(m: RankModel, sid: Seq<char>, other: Seq<char>)
    requires
        sid != other,
    ensures
        m.asked(sid).rank(other) == m.rank(other),
        m.asked(sid).must_queue(other) == m.must_queue(other),
{
}

/// Once a lookup is stored, the cache answers with it and queues the player no more.
pub proof fn law_stored_is_answered(m: RankModel, sid: Seq<char>, entry: EntryView)
    requires
        sid.len() > 0,
    ensures
        m.stored(sid, entry).answer(sid) == entry.meta,
        m.stored(sid, entry).rank(sid) == Some(entry.meta),
        !m.stored(sid, entry).must_queue(sid),
        !m.stored(sid, entry).pending.contains(sid),
{
}

/// In an emptied cache every player is looked up again.
pub proof fn law_reset_queues_again(sid: Seq<char>)
    requires
        sid.len() > 0,
    ensures
        no_ranks().must_queue(sid),
        no_ranks().rank(sid) is None,
{
}

/// A player of whom the cache knows nothing is queued and loading; one whom it knows is answered
/// with what it knows, and not queued.
pub proof fn law_only_the_unknown_are_queued(m: RankModel, sid: Seq<char>)
    requires
        m.wf(),
        sid.len() > 0,
    ensures
        m.must_queue(sid) <==> m.rank(sid) is None,
        m.rank(sid) is None ==> m.answer(sid).status == RankStatus::Loading && m.asked(
            sid,
        ).pending.contains(sid),
        m.rank(sid) matches Some(meta) ==> m.answer(sid) == meta && m.asked(sid) == m,
        m.asked(sid).wf(),
{
}

/// What a lookup of one player gives changes nothing for another.
pub proof fn law_stored_is_local(
    m: RankModel,
    sid: Seq<char>,
    entry: EntryView,
    stars: u32,
    other: Seq<char>,
)
    requires
        sid != other,
    ensures
        m.stored(sid, entry).rank(other) == m.rank(other),
        m.stored(sid, entry).nickname(other) == m.nickname(other),
        m.stored(sid, entry).must_queue(other) == m.must_queue(other),
        m.starred(sid, stars).rank(other) == m.rank(other),
        m.starred(sid, stars).nickname(other) == m.nickname(other),
{
}

/// A lookup gives the rank of the score and the nickname of the user that was found; where none
/// was found, there is neither.
pub proof fn law_lookup_gives_rank_and_nickname(m: RankModel, sid: Seq<char>, user: User)
    ensures
        m.stored(sid, entry_of_lookup(Some(user))).rank(sid) == Some(
            rank_of_score(user.score_value()),
        ),
        m.stored(sid, entry_of_lookup(Some(user))).nickname(sid) == (match user.nickname {
            Some(name) if name@.len() > 0 => Some(name@),
            _ => None,
        }),
        m.stored(sid, entry_of_lookup(None)).rank(sid) == Some(rank_of_score(None)),
        m.stored(sid, entry_of_lookup(None)).nickname(sid) is None,
        entry_of_user(user) == entry_of_lookup(Some(user)),
{
}

/// Stars are added to a known player, up to 100, and change nothing else; an unknown player stays
/// unknown.
pub proof fn law_stars_are_added(m: RankModel, sid: Seq<char>, stars: u32)
    requires
        sid.len() > 0,
    ensures
        m.rank(sid) is None ==> m.starred(sid, stars) == m,
        m.rank(sid) matches Some(meta) ==> (m.starred(sid, stars).rank(sid) matches Some(new)
            && new.status == meta.status && new.label == meta.label && new.score == meta.score
            && new.progress == meta.progress && (stars <= 100 ==> new.stars == Some(stars)) && (stars
            > 100 ==> new.stars == Some(100u32))),
        m.starred(sid, stars).nickname(sid) == m.nickname(sid),
        m.starred(sid, stars).pending == m.pending,
{
}

/// What is no finite number has no label and no ring; without an id nobody is looked up.
pub proof fn law_nothing_comes_of_nothing(score: Real, m: RankModel)
    ensures
        !score.is_finite() ==> label_of_score(score).len() == 0 && progress_of(score)
            == Progress::Empty,
        m.answer(Seq::empty()).status == RankStatus::Unavailable,
        !m.must_queue(Seq::empty()),
        m.asked(Seq::empty()) == m,
{
    reveal_strlit("");
}

} // verus!
