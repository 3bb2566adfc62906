//! String primitives, stated over the characters of a string.

use vstd::prelude::*;
use vstd::string::*;
use vstd::utf8::*;

verus! {

/// `String::push` appends one character to the end of the string.
pub assume_specification[ String::push ](s: &mut String, c: char)
    ensures
        final(s)@ == old(s)@.push(c),
;

/// The characters of `s`.
pub fn chars_of(s: &str) -> (r: Vec<char>)
    ensures
        r@ == s@,
{
    let mut out: Vec<char> = Vec::new();
    for c in it: s.chars()
        invariant
            it.seq() == s@,
            out@ == s@.take(it.index() as int),
    {
        out.push(c);
        assert(out@ == s@.take(it.index() + 1));
    }
    assert(s@.take(s@.len() as int) == s@);
    out
}

/// The string made of the characters `chars[from..to]`.
pub fn text_of(chars: &Vec<char>, from: usize, to: usize) -> (r: String)
    requires
        from <= to <= chars@.len(),
    ensures
        r@ == chars@.subrange(from as int, to as int),
{
    let mut out = String::new();
    let mut i: usize = from;
    while i < to
        invariant
            from <= i <= to <= chars@.len(),
            out@ == chars@.subrange(from as int, i as int),
        decreases to - i,
    {
        out.push(chars[i]);
        i += 1;
        assert(out@ == chars@.subrange(from as int, i as int));
    }
    out
}

/// Whether two strings hold the same characters.
pub fn same(a: &str, b: &str) -> (r: bool)
    ensures
        r == (a@ == b@),
{
    a.to_owned() == b.to_owned()
}

/// The characters with the Unicode property White_Space.
pub open spec fn is_white(c: char) -> bool {
    let n = c as u32;
    ||| 0x9 <= n <= 0xD
    ||| n == 0x20
    ||| n == 0x85
    ||| n == 0xA0
    ||| n == 0x1680
    ||| 0x2000 <= n <= 0x200A
    ||| n == 0x2028
    ||| n == 0x2029
    ||| n == 0x202F
    ||| n == 0x205F
    ||| n == 0x3000
}

/// Whether `c` is white space.
pub fn white(c: char) -> (r: bool)
    ensures
        r == is_white(c),
{
    let n: u32 = c as u32;
    (0x9 <= n && n <= 0xD) || n == 0x20 || n == 0x85 || n == 0xA0 || n == 0x1680 || (0x2000 <= n
        && n <= 0x200A) || n == 0x2028 || n == 0x2029 || n == 0x202F || n == 0x205F || n == 0x3000
}

/// `s` without its leading white space.
pub open spec fn trimmed_start(s: Seq<char>) -> Seq<char>
    decreases s.len(),
{
    if s.len() > 0 && is_white(s.first()) {
        trimmed_start(s.drop_first())
    } else {
        s
    }
}

/// `s` without its trailing white space.
pub open spec fn trimmed_end(s: Seq<char>) -> Seq<char>
    decreases s.len(),
{
    if s.len() > 0 && is_white(s.last()) {
        trimmed_end(s.drop_last())
    } else {
        s
    }
}

/// `s` without its leading and trailing white space.
pub open spec fn trimmed(s: Seq<char>) -> Seq<char> {
    trimmed_end(trimmed_start(s))
}

/// Removes leading white space.
pub fn trim_start(s: &str) -> (r: String)
    ensures
        r@ == trimmed_start(s@),
{
    let cs = chars_of(s);
    let n: usize = cs.len();
    let mut a: usize = 0;
    assert(s@.subrange(0, n as int) == s@);
    while a < n && white(cs[a])
        invariant
            a <= n == cs@.len(),
            cs@ == s@,
            trimmed_start(s@) == trimmed_start(s@.subrange(a as int, n as int)),
        decreases n - a,
    {
        assert(s@.subrange(a as int, n as int).drop_first() == s@.subrange(a + 1, n as int));
        a += 1;
    }
    text_of(&cs, a, n)
}

/// Removes trailing white space.
pub fn trim_end(s: &str) -> (r: String)
    ensures
        r@ == trimmed_end(s@),
{
    let cs = chars_of(s);
    let mut b: usize = cs.len();
    assert(s@.subrange(0, b as int) == s@);
    while b > 0 && white(cs[b - 1])
        invariant
            b <= cs@.len(),
            cs@ == s@,
            trimmed_end(s@) == trimmed_end(s@.subrange(0, b as int)),
        decreases b,
    {
        assert(s@.subrange(0, b as int).drop_last() == s@.subrange(0, b - 1));
        b -= 1;
    }
    text_of(&cs, 0, b)
}

/// Removes leading and trailing white space.
pub fn trim(s: &str) -> (r: String)
    ensures
        r@ == trimmed(s@),
{
    trim_end(trim_start(s).as_str())
}

/// `s` starts with `p`.
pub open spec fn has_prefix(s: Seq<char>, p: Seq<char>) -> bool {
    p.len() <= s.len() && s.take(p.len() as int) == p
}

/// `s` ends with `p`.
pub open spec fn has_suffix(s: Seq<char>, p: Seq<char>) -> bool {
    p.len() <= s.len() && s.skip(s.len() - p.len()) == p
}

/// `s` is white space.
pub open spec fn all_white(s: Seq<char>) -> bool {
    forall|i: int| 0 <= i < s.len() ==> is_white(#[trigger] s[i])
}

/// `s` neither starts nor ends with white space.
pub open spec fn is_trimmed(s: Seq<char>) -> bool {
    s.len() > 0 ==> !is_white(s.first()) && !is_white(s.last())
}

proof fn lemma_trimmed_end(s: Seq<char>)
    ensures
        trimmed_end(s).is_prefix_of(s),
        trimmed_end(s).len() > 0 ==> !is_white(trimmed_end(s).last()),
    decreases s.len(),
{
    if s.len() > 0 && is_white(s.last()) {
        lemma_trimmed_end(s.drop_last());
    }
}

proof fn lemma_trimmed_start(s: Seq<char>)
    ensures
        trimmed_start(s).is_suffix_of(s),
        trimmed_start(s).len() > 0 ==> !is_white(trimmed_start(s).first()),
    decreases s.len(),
{
    if s.len() > 0 && is_white(s.first()) {
        lemma_trimmed_start(s.drop_first());
    }
}

/// Trimming removes all outer white space and takes no other character; what is trimmed stays.
pub proof fn law_trimming(s: Seq<char>)
    ensures
        is_trimmed(trimmed(s)),
        is_trimmed(s) ==> trimmed(s) == s,
        forall|i: int| 0 <= i < trimmed(s).len() ==> s.contains(#[trigger] trimmed(s)[i]),
{
    let t = trimmed_start(s);
    lemma_trimmed_start(s);
    lemma_trimmed_end(t);
    assert forall|i: int| 0 <= i < trimmed(s).len() implies s.contains(#[trigger] trimmed(s)[i]) by {
        assert(trimmed(s)[i] == t[i]);
        assert(t[i] == s[s.len() - t.len() + i]);
    }
}

proof fn lemma_leading(a: Seq<char>, s: Seq<char>)
    requires
        all_white(a),
    ensures
        trimmed_start(a + s) == trimmed_start(s),
    decreases a.len(),
{
    if a.len() == 0 {
        assert(a + s =~= s);
    } else {
        assert(is_white(a[0]));
        assert((a + s).drop_first() =~= a.drop_first() + s);
        lemma_leading(a.drop_first(), s);
    }
}

proof fn lemma_trailing(s: Seq<char>, b: Seq<char>)
    requires
        all_white(b),
    ensures
        trimmed_end(s + b) == trimmed_end(s),
    decreases b.len(),
{
    if b.len() == 0 {
        assert(s + b =~= s);
    } else {
        assert(is_white(b[b.len() - 1]));
        assert((s + b).drop_last() =~= s + b.drop_last());
        lemma_trailing(s, b.drop_last());
    }
}

proof fn lemma_tail(s: Seq<char>, b: Seq<char>)
    requires
        all_white(b),
    ensures
        trimmed(s + b) == trimmed(s),
    decreases s.len(),
{
    if s.len() == 0 {
        assert(s + b =~= b + s);
        lemma_leading(b, s);
    } else if is_white(s.first()) {
        assert((s + b).drop_first() =~= s.drop_first() + b);
        lemma_tail(s.drop_first(), b);
    } else {
        assert((s + b).first() == s.first());
        lemma_trailing(s, b);
    }
}

/// Outer white space does not change what trimming gives.
pub proof fn law_trimming_is_blind_to_outer_space(a: Seq<char>, s: Seq<char>, b: Seq<char>)
    requires
        all_white(a),
        all_white(b),
    ensures
        trimmed(a + s + b) == trimmed(s),
{
    assert(a + s + b =~= a + (s + b));
    lemma_leading(a, s + b);
    lemma_tail(s, b);
}

proof fn lemma_start_maps(s: Seq<char>, f: spec_fn(char) -> char)
    requires
        forall|c: char| is_white(#[trigger] f(c)) == is_white(c),
    ensures
        trimmed_start(s.map_values(f)) == trimmed_start(s).map_values(f),
    decreases s.len(),
{
    let m = s.map_values(f);
    if s.len() > 0 {
        assert(m.first() == f(s.first()));
        if is_white(s.first()) {
            assert(m.drop_first() =~= s.drop_first().map_values(f));
            lemma_start_maps(s.drop_first(), f);
        }
    }
}

proof fn lemma_end_maps(s: Seq<char>, f: spec_fn(char) -> char)
    requires
        forall|c: char| is_white(#[trigger] f(c)) == is_white(c),
    ensures
        trimmed_end(s.map_values(f)) == trimmed_end(s).map_values(f),
    decreases s.len(),
{
    let m = s.map_values(f);
    if s.len() > 0 {
        assert(m.last() == f(s.last()));
        if is_white(s.last()) {
            assert(m.drop_last() =~= s.drop_last().map_values(f));
            lemma_end_maps(s.drop_last(), f);
        }
    }
}

/// Trimming and a change of letters that keeps white space go in either order.
pub proof fn law_trimming_maps(s: Seq<char>, f: spec_fn(char) -> char)
    requires
        forall|c: char| is_white(#[trigger] f(c)) == is_white(c),
    ensures
        trimmed(s.map_values(f)) == trimmed(s).map_values(f),
{
    lemma_start_maps(s, f);
    lemma_end_maps(trimmed_start(s), f);
}

/// `p` stands in `s` at position `i`.
pub open spec fn occurs_at(s: Seq<char>, p: Seq<char>, i: int) -> bool {
    0 <= i && i + p.len() <= s.len() && s.subrange(i, i + p.len()) == p
}

/// `p` stands somewhere in `s`.
pub open spec fn has_text(s: Seq<char>, p: Seq<char>) -> bool {
    exists|i: int| occurs_at(s, p, i)
}

/// Whether `p` stands in `s` at position `i`.
pub fn occurs(s: &Vec<char>, p: &Vec<char>, i: usize) -> (r: bool)
    requires
        i <= s@.len(),
    ensures
        r == occurs_at(s@, p@, i as int),
{
    let n: usize = s.len();
    if n - i < p.len() {
        return false;
    }
    let mut k: usize = 0;
    while k < p.len()
        invariant
            k <= p@.len(),
            i + p@.len() <= s@.len() == n,
            forall|j: int| 0 <= j < k ==> s@[i + j] == p@[j],
        decreases p@.len() - k,
    {
        if s[i + k] != p[k] {
            assert(s@.subrange(i as int, i + p@.len())[k as int] != p@[k as int]);
            return false;
        }
        k += 1;
    }
    assert(s@.subrange(i as int, i + p@.len()) =~= p@);
    true
}

/// Whether `s` starts with `p`.
pub fn starts_with(s: &str, p: &str) -> (r: bool)
    ensures
        r == has_prefix(s@, p@),
{
    let sc = chars_of(s);
    let pc = chars_of(p);
    assert(p@.len() <= s@.len() ==> s@.subrange(0, p@.len() as int) == s@.take(p@.len() as int));
    occurs(&sc, &pc, 0)
}

/// Whether `s` ends with `p`.
pub fn ends_with(s: &str, p: &str) -> (r: bool)
    ensures
        r == has_suffix(s@, p@),
{
    let sc = chars_of(s);
    let pc = chars_of(p);
    if sc.len() < pc.len() {
        return false;
    }
    assert(s@.subrange(s@.len() - p@.len(), s@.len() as int) == s@.skip(s@.len() - p@.len()));
    occurs(&sc, &pc, sc.len() - pc.len())
}

/// The first position at which `p` stands in `s`.
pub fn position_of(s: &Vec<char>, p: &Vec<char>) -> (r: Option<usize>)
    ensures
        match r {
            Some(i) => occurs_at(s@, p@, i as int) && forall|j: int|
                0 <= j < i ==> !occurs_at(s@, p@, j),
            None => !has_text(s@, p@),
        },
{
    let mut i: usize = 0;
    while i <= s.len()
        invariant
            i <= s@.len() + 1,
            forall|j: int| 0 <= j < i ==> !occurs_at(s@, p@, j),
        decreases s@.len() + 1 - i,
    {
        if occurs(s, p, i) {
            return Some(i);
        }
        if i == s.len() {
            return None;
        }
        i += 1;
    }
    None
}

/// Whether `p` stands somewhere in `s`.
pub fn contains(s: &str, p: &str) -> (r: bool)
    ensures
        r == has_text(s@, p@),
{
    position_of(&chars_of(s), &chars_of(p)).is_some()
}

/// `s` after every leading copy of `p` is removed.
pub open spec fn stripped(s: Seq<char>, p: Seq<char>) -> Seq<char>
    decreases s.len(),
{
    if p.len() > 0 && has_prefix(s, p) {
        stripped(s.skip(p.len() as int), p)
    } else {
        s
    }
}

/// Removes every leading copy of `p`.
pub fn strip_start(s: &str, p: &str) -> (r: String)
    requires
        p@.len() > 0,
    ensures
        r@ == stripped(s@, p@),
{
    let sc = chars_of(s);
    let pc = chars_of(p);
    let n: usize = sc.len();
    let mut a: usize = 0;
    assert(s@.subrange(0, n as int) == s@);
    while occurs(&sc, &pc, a)
        invariant
            a <= n == sc@.len(),
            sc@ == s@,
            pc@ == p@,
            p@.len() > 0,
            stripped(s@, p@) == stripped(s@.subrange(a as int, n as int), p@),
        ensures
            !occurs_at(s@, p@, a as int),
        decreases n - a,
    {
        let ghost rest = s@.subrange(a as int, n as int);
        assert(rest.take(p@.len() as int) == s@.subrange(a as int, a + p@.len()));
        assert(rest.skip(p@.len() as int) == s@.subrange(a + p@.len(), n as int));
        a += pc.len();
    }
    proof {
        let rest = s@.subrange(a as int, n as int);
        if has_prefix(rest, p@) {
            assert(rest.take(p@.len() as int) == s@.subrange(a as int, a + p@.len()));
        }
    }
    text_of(&sc, a, n)
}

/// `s` after the prefix `p`, where it has that prefix.
pub fn strip_prefix(s: &str, p: &str) -> (r: Option<String>)
    ensures
        match r {
            Some(t) => has_prefix(s@, p@) && t@ == s@.skip(p@.len() as int),
            None => !has_prefix(s@, p@),
        },
{
    if !starts_with(s, p) {
        return None;
    }
    let sc = chars_of(s);
    let pc = chars_of(p);
    assert(s@.subrange(p@.len() as int, s@.len() as int) == s@.skip(p@.len() as int));
    Some(text_of(&sc, pc.len(), sc.len()))
}

/// `s` with every copy of `p`, found from the left without overlap, replaced by `q`.
pub open spec fn replaced(s: Seq<char>, p: Seq<char>, q: Seq<char>) -> Seq<char>
    decreases s.len(),
{
    if s.len() == 0 || p.len() == 0 {
        s
    } else if has_prefix(s, p) {
        q + replaced(s.skip(p.len() as int), p, q)
    } else {
        seq![s.first()] + replaced(s.drop_first(), p, q)
    }
}

/// Replaces every copy of `p` in `s` by `q`.
pub fn replace(s: &str, p: &str, q: &str) -> (r: String)
    requires
        p@.len() > 0,
    ensures
        r@ == replaced(s@, p@, q@),
{
    let sc = chars_of(s);
    let pc = chars_of(p);
    let n: usize = sc.len();
    let mut out = String::new();
    let mut a: usize = 0;
    assert(s@.subrange(0, n as int) == s@);
    while a < n
        invariant
            a <= n == sc@.len(),
            sc@ == s@,
            pc@ == p@,
            p@.len() > 0,
            replaced(s@, p@, q@) == out@ + replaced(s@.subrange(a as int, n as int), p@, q@),
        decreases n - a,
    {
        let ghost rest = s@.subrange(a as int, n as int);
        let ghost before = out@;
        if occurs(&sc, &pc, a) {
            assert(rest.take(p@.len() as int) == s@.subrange(a as int, a + p@.len()));
            assert(rest.skip(p@.len() as int) == s@.subrange(a + p@.len(), n as int));
            out.append(q);
            a += pc.len();
            assert(out@ + replaced(s@.subrange(a as int, n as int), p@, q@) == before + (q@
                + replaced(s@.subrange(a as int, n as int), p@, q@)));
        } else {
            assert(!has_prefix(rest, p@)) by {
                if has_prefix(rest, p@) {
                    assert(rest.take(p@.len() as int) == s@.subrange(a as int, a + p@.len()));
                }
            }
            assert(rest.drop_first() == s@.subrange(a + 1, n as int));
            out.push(sc[a]);
            a += 1;
            assert(out@ + replaced(s@.subrange(a as int, n as int), p@, q@) == before + (seq![
                rest.first(),
            ] + replaced(s@.subrange(a as int, n as int), p@, q@)));
        }
    }
    assert(s@.subrange(n as int, n as int) == Seq::<char>::empty());
    assert(out@ + Seq::<char>::empty() == out@);
    out
}

/// The lower-case letter of an ASCII capital; any other character as it is.
pub open spec fn ascii_lower(c: char) -> char {
    if 'A' <= c <= 'Z' {
        (c as u32 + 32) as char
    } else {
        c
    }
}

/// The capital of an ASCII lower-case letter; any other character as it is.
pub open spec fn ascii_upper(c: char) -> char {
    if 'a' <= c <= 'z' {
        (c as u32 - 32) as char
    } else {
        c
    }
}

/// `c` is an ASCII letter.
pub open spec fn is_ascii_letter(c: char) -> bool {
    ('A' <= c <= 'Z') || ('a' <= c <= 'z')
}

/// `c` is an ASCII digit.
pub open spec fn is_digit(c: char) -> bool {
    '0' <= c <= '9'
}

/// Whether `c` is an ASCII letter.
pub fn ascii_letter(c: char) -> (r: bool)
    ensures
        r == is_ascii_letter(c),
{
    ('A' <= c && c <= 'Z') || ('a' <= c && c <= 'z')
}

/// Whether `c` is an ASCII digit.
pub fn digit(c: char) -> (r: bool)
    ensures
        r == is_digit(c),
{
    '0' <= c && c <= '9'
}

/// `a` and `b` differ at most in the case of ASCII letters.
pub open spec fn alike(a: Seq<char>, b: Seq<char>) -> bool {
    a.len() == b.len() && forall|i: int| 0 <= i < a.len() ==> ascii_lower(#[trigger] a[i]) == ascii_lower(b[i])
}

fn lower_code(c: char) -> (r: u32)
    ensures
        r == ascii_lower(c) as u32,
{
    if 'A' <= c && c <= 'Z' {
        c as u32 + 32
    } else {
        c as u32
    }
}

/// Whether `a` and `b` are equal up to the case of ASCII letters.
pub fn equals_ignoring_case(a: &str, b: &str) -> (r: bool)
    ensures
        r == alike(a@, b@),
{
    let ac = chars_of(a);
    let bc = chars_of(b);
    if ac.len() != bc.len() {
        return false;
    }
    let mut i: usize = 0;
    while i < ac.len()
        invariant
            i <= ac@.len() == bc@.len(),
            ac@ == a@,
            bc@ == b@,
            forall|j: int| 0 <= j < i ==> ascii_lower(#[trigger] a@[j]) == ascii_lower(b@[j]),
        decreases ac@.len() - i,
    {
        if lower_code(ac[i]) != lower_code(bc[i]) {
            assert(ascii_lower(a@[i as int]) != ascii_lower(b@[i as int]));
            return false;
        }
        i += 1;
    }
    true
}

/// The decimal digit of `d`.
pub open spec fn digit_char(d: int) -> char {
    ('0' as u32 + d) as char
}

/// The number `n` in decimal, without leading zeros.
pub open spec fn decimal(n: nat) -> Seq<char>
    decreases n,
{
    if n < 10 {
        seq![digit_char(n as int)]
    } else {
        decimal(n / 10).push(digit_char((n % 10) as int))
    }
}

/// The number `n` in decimal, with a leading minus sign where it is negative.
pub open spec fn signed_decimal(n: int) -> Seq<char> {
    if n < 0 {
        seq!['-'] + decimal((-n) as nat)
    } else {
        decimal(n as nat)
    }
}

fn digit_of(d: u64) -> (r: char)
    requires
        d < 10,
    ensures
        r == digit_char(d as int),
{
    match d {
        0 => '0',
        1 => '1',
        2 => '2',
        3 => '3',
        4 => '4',
        5 => '5',
        6 => '6',
        7 => '7',
        8 => '8',
        _ => '9',
    }
}

/// Writes `n` in decimal.
pub fn decimal_text(n: u64) -> (r: String)
    ensures
        r@ == decimal(n as nat),
    decreases n,
{
    if n < 10 {
        let mut out = String::new();
        out.push(digit_of(n));
        assert(out@ == decimal(n as nat));
        out
    } else {
        let mut out = decimal_text(n / 10);
        out.push(digit_of(n % 10));
        out
    }
}

/// Writes `n` in decimal.
pub fn signed_decimal_text(n: i64) -> (r: String)
    ensures
        r@ == signed_decimal(n as int),
{
    if n < 0 {
        let mut out = String::new();
        out.push('-');
        let mag: u64 = (-(n as i128)) as u64;
        out.append(decimal_text(mag).as_str());
        assert(out@ == seq!['-'] + decimal(mag as nat));
        out
    } else {
        decimal_text(n as u64)
    }
}

/// The characters of `s` are decimal digits.
pub open spec fn all_digits(s: Seq<char>) -> bool {
    forall|i: int| 0 <= i < s.len() ==> is_digit(#[trigger] s[i])
}

/// The number that the decimal digits of `s` stand for.
pub open spec fn digits_value(s: Seq<char>) -> nat
    decreases s.len(),
{
    if s.len() == 0 {
        0
    } else {
        digits_value(s.drop_last()) * 10 + (s.last() as u32 - '0' as u32) as nat
    }
}

/// The value of a run of one or more digits that is at most `max`.
pub open spec fn read_digits(s: Seq<char>, max: nat) -> Option<nat> {
    if s.len() > 0 && all_digits(s) && digits_value(s) <= max {
        Some(digits_value(s))
    } else {
        None
    }
}

/// The value of `s` read as an unsigned number of at most `max`: an optional plus sign, then
/// digits and nothing else.
pub open spec fn read_unsigned(s: Seq<char>, max: nat) -> Option<nat> {
    if s.len() > 0 && s.first() == '+' {
        read_digits(s.drop_first(), max)
    } else {
        read_digits(s, max)
    }
}

/// The value of `s` read as a signed 64-bit number: an optional sign, then digits and nothing
/// else.
pub open spec fn read_signed(s: Seq<char>) -> Option<int> {
    if s.len() > 0 && s.first() == '-' {
        match read_digits(s.drop_first(), 0x8000_0000_0000_0000) {
            Some(n) => Some(-(n as int)),
            None => None,
        }
    } else {
        match read_unsigned(s, 0x7FFF_FFFF_FFFF_FFFF) {
            Some(n) => Some(n as int),
            None => None,
        }
    }
}

proof fn lemma_digits_prefix(s: Seq<char>, k: int)
    requires
        0 <= k <= s.len(),
        all_digits(s),
    ensures
        digits_value(s.take(k)) <= digits_value(s),
    decreases s.len() - k,
{
    if k < s.len() {
        lemma_digits_prefix(s, k + 1);
        assert(s.take(k + 1).drop_last() == s.take(k));
        assert(is_digit(s[k]));
    } else {
        assert(s.take(k) == s);
    }
}

fn digits_from(cs: &Vec<char>, from: usize, max: u64) -> (r: Option<u64>)
    requires
        from <= cs@.len(),
    ensures
        match r {
            Some(n) => read_digits(cs@.skip(from as int), max as nat) == Some(n as nat),
            None => read_digits(cs@.skip(from as int), max as nat) is None,
        },
{
    let ghost ds = cs@.skip(from as int);
    if from == cs.len() {
        return None;
    }
    let mut acc: u64 = 0;
    let mut i: usize = from;
    assert(ds.take(0) == Seq::<char>::empty());
    while i < cs.len()
        invariant
            from <= i <= cs@.len(),
            ds == cs@.skip(from as int),
            all_digits(ds.take(i - from)),
            acc == digits_value(ds.take(i - from)),
            acc <= max,
        decreases cs@.len() - i,
    {
        let c = cs[i];
        assert(c == ds[i - from]);
        if !digit(c) {
            return None;
        }
        let d: u64 = (c as u32 - '0' as u32) as u64;
        let ghost step = ds.take(i - from + 1);
        assert(step.drop_last() == ds.take(i - from));
        assert(step.last() == c);
        assert(digits_value(step) == acc * 10 + d);
        if acc as u128 * 10 + d as u128 > max as u128 {
            proof {
                if all_digits(ds) {
                    lemma_digits_prefix(ds, i - from + 1);
                }
            }
            return None;
        }
        acc = acc * 10 + d;
        i += 1;
        assert(all_digits(step)) by {
            assert forall|j: int| 0 <= j < step.len() implies is_digit(#[trigger] step[j]) by {
                if j < step.len() - 1 {
                    assert(step[j] == ds.take(i - from - 1)[j]);
                }
            }
        }
    }
    assert(ds.take(i - from) == ds);
    Some(acc)
}

/// Reads an unsigned decimal number of at most `max`.
pub fn parse_unsigned(s: &str, max: u64) -> (r: Option<u64>)
    ensures
        match r {
            Some(n) => read_unsigned(s@, max as nat) == Some(n as nat),
            None => read_unsigned(s@, max as nat) is None,
        },
{
    let cs = chars_of(s);
    if cs.len() > 0 && cs[0] == '+' {
        assert(cs@.skip(1) == s@.drop_first());
        digits_from(&cs, 1, max)
    } else {
        assert(cs@.skip(0) == s@);
        digits_from(&cs, 0, max)
    }
}

/// Reads a signed 64-bit decimal number.
pub fn parse_signed(s: &str) -> (r: Option<i64>)
    ensures
        match r {
            Some(n) => read_signed(s@) == Some(n as int),
            None => read_signed(s@) is None,
        },
{
    let cs = chars_of(s);
    if cs.len() > 0 && cs[0] == '-' {
        assert(cs@.skip(1) == s@.drop_first());
        match digits_from(&cs, 1, 0x8000_0000_0000_0000) {
            Some(n) => Some((-(n as i128)) as i64),
            None => None,
        }
    } else {
        match parse_unsigned(s, 0x7FFF_FFFF_FFFF_FFFF) {
            Some(n) => Some(n as i64),
            None => None,
        }
    }
}

proof fn lemma_decimal(n: nat)
    ensures
        decimal(n).len() > 0,
        all_digits(decimal(n)),
        digits_value(decimal(n)) == n,
    decreases n,
{
    reveal_with_fuel(digits_value, 2);
    if n < 10 {
        assert(decimal(n).drop_last() == Seq::<char>::empty());
    } else {
        lemma_decimal(n / 10);
        assert(decimal(n).drop_last() == decimal(n / 10));
        assert forall|i: int| 0 <= i < decimal(n).len() implies is_digit(#[trigger] decimal(n)[i]) by {
            if i < decimal(n).len() - 1 {
                assert(decimal(n)[i] == decimal(n / 10)[i]);
            }
        }
    }
}

/// A number that is written in decimal is read back unchanged.
pub proof fn law_decimal_round_trip(n: nat, max: nat)
    requires
        n <= max,
    ensures
        read_unsigned(decimal(n), max) == Some(n),
{
    lemma_decimal(n);
    assert(is_digit(decimal(n)[0]));
}

/// A decimal number has no white space around it.
pub proof fn lemma_decimal_untrimmed(n: nat)
    ensures
        trimmed(decimal(n)) == decimal(n),
{
    lemma_decimal(n);
    assert(is_digit(decimal(n)[0]));
    assert(is_digit(decimal(n)[decimal(n).len() - 1]));
}

/// The upper-case form of `s`.
pub uninterp spec fn upper_of(s: Seq<char>) -> Seq<char>;

/// The lower-case form of `s`.
pub uninterp spec fn lower_of(s: Seq<char>) -> Seq<char>;

/// The characters of `s` are ASCII or CJK ideographs (U+4E00 to U+9FFF), which have no case.
pub open spec fn plain_case(s: Seq<char>) -> bool {
    forall|i: int|
        0 <= i < s.len() ==> (#[trigger] s[i] as u32) < 0x80 || 0x4E00 <= s[i] as u32 <= 0x9FFF
}

/// The upper-case form of `s`, spelled out where the mapping is a matter of ASCII alone.
pub open spec fn upper_cased(s: Seq<char>) -> Seq<char> {
    if plain_case(s) {
        s.map_values(|c: char| ascii_upper(c))
    } else {
        upper_of(s)
    }
}

/// The lower-case form of `s`, spelled out where the mapping is a matter of ASCII alone.
pub open spec fn lower_cased(s: Seq<char>) -> Seq<char> {
    if plain_case(s) {
        s.map_values(|c: char| ascii_lower(c))
    } else {
        lower_of(s)
    }
}

/// Of text in plain case, trimming leaves text in plain case, and the upper-case form has no small
/// ASCII letter, is not changed by trimming where the text is not, and is that of the lower-case
/// form.
pub proof fn law_plain_case(s: Seq<char>)
    requires
        plain_case(s),
    ensures
        plain_case(trimmed(s)),
        plain_case(upper_cased(s)),
        plain_case(lower_cased(s)),
        forall|i: int|
            0 <= i < upper_cased(s).len() ==> !('a' <= #[trigger] upper_cased(s)[i] <= 'z'),
        upper_cased(upper_cased(s)) == upper_cased(s),
        upper_cased(lower_cased(s)) == upper_cased(s),
        lower_cased(upper_cased(s)) == lower_cased(s),
        trimmed(upper_cased(s)) == upper_cased(trimmed(s)),
        trimmed(lower_cased(s)) == lower_cased(trimmed(s)),
{
    law_trimming(s);
    let t = trimmed(s);
    assert forall|i: int| 0 <= i < t.len() implies (#[trigger] t[i] as u32) < 0x80 || 0x4E00
        <= t[i] as u32 <= 0x9FFF by {
        let j = choose|j: int| 0 <= j < s.len() && s[j] == t[i];
        assert(s[j] == t[i]);
    }
    let up = |c: char| ascii_upper(c);
    let low = |c: char| ascii_lower(c);
    assert forall|c: char| is_white(#[trigger] up(c)) == is_white(c) by {}
    assert forall|c: char| is_white(#[trigger] low(c)) == is_white(c) by {}
    law_trimming_maps(s, up);
    law_trimming_maps(s, low);
    assert(upper_cased(s) =~= s.map_values(up));
    assert(lower_cased(s) =~= s.map_values(low));
    assert(upper_cased(t) =~= t.map_values(up));
    assert(lower_cased(t) =~= t.map_values(low));
    assert(plain_case(upper_cased(s)));
    assert(plain_case(lower_cased(s)));
    assert(upper_cased(upper_cased(s)) =~= upper_cased(s));
    assert(upper_cased(lower_cased(s)) =~= upper_cased(s));
    assert(lower_cased(upper_cased(s)) =~= lower_cased(s));
}

/// `str::to_uppercase`: the Unicode upper-case mapping of every character. Of the mapping itself
/// only this is stated: an ASCII letter becomes its capital, and other ASCII characters and CJK
/// ideographs stay as they are.
#[verifier::external_body]
pub(crate) fn uppercase(s: &str) -> (r: String)
    ensures
        r@ == upper_cased(s@),
        !plain_case(s@) ==> r@ == upper_of(s@),
{
    s.to_uppercase()
}

/// `str::to_lowercase`: the Unicode lower-case mapping of every character. Of the mapping itself
/// only this is stated: an ASCII capital becomes its small letter, and other ASCII characters and
/// CJK ideographs stay as they are.
#[verifier::external_body]
pub(crate) fn lowercase(s: &str) -> (r: String)
    ensures
        r@ == lower_cased(s@),
        !plain_case(s@) ==> r@ == lower_of(s@),
{
    s.to_lowercase()
}

/// The last eight bytes of `s` as text; all of `s` where it is no longer than that.
pub open spec fn short_form(s: Seq<char>) -> Seq<char> {
    let b = encode_utf8(s);
    if b.len() > 8 {
        decode_utf8(b.skip(b.len() - 8))
    } else {
        s
    }
}

/// The last eight bytes of `s` begin at a character.
pub open spec fn short_form_exists(s: Seq<char>) -> bool {
    let b = encode_utf8(s);
    b.len() > 8 ==> is_char_boundary(b, b.len() - 8)
}

/// The number of bytes of `s` in UTF-8.
pub fn byte_len(s: &str) -> (r: usize)
    ensures
        r == encode_utf8(s@).len(),
{
    s.as_bytes().len()
}

/// Shortens an account id to its last eight bytes.
pub fn short_id(sid: &str) -> (r: String)
    requires
        short_form_exists(sid@),
    ensures
        r@ == short_form(sid@),
{
    let n: usize = byte_len(sid);
    if n > 8 {
        let (_, tail) = sid.split_at(n - 8);
        proof {
            encode_utf8_decode_utf8(tail@);
            let b = encode_utf8(sid@);
            assert(b.skip(b.len() - 8) == b.subrange(n - 8, b.len() as int));
        }
        tail.to_owned()
    } else {
        sid.to_owned()
    }
}

/// Whether the last eight bytes of `sid` begin at a character.
pub fn can_shorten(sid: &str) -> (r: bool)
    ensures
        r == short_form_exists(sid@),
{
    let n: usize = byte_len(sid);
    n <= 8 || sid.is_char_boundary(n - 8)
}

/// Of an id in ASCII the short form is its last eight characters.
pub proof fn law_short_form_of_ascii(s: Seq<char>)
    requires
        is_ascii_chars(s),
    ensures
        short_form_exists(s),
        short_form(s) == (if s.len() > 8 { s.skip(s.len() - 8) } else { s }),
{
    is_ascii_chars_encode_utf8(s);
    let b = encode_utf8(s);
    if s.len() > 8 {
        let t = s.skip(s.len() - 8);
        is_ascii_chars_encode_utf8(t);
        assert(encode_utf8(t) == b.skip(b.len() - 8));
        encode_utf8_decode_utf8(t);
        encode_utf8_valid_utf8(s);
        is_char_boundary_iff_is_leading_byte(b, b.len() - 8);
    }
}

/// `s` up to its first `n` bytes, followed by an ellipsis where something was cut off.
pub open spec fn cut_to(s: Seq<char>, n: nat) -> Seq<char> {
    let b = encode_utf8(s);
    if b.len() <= n {
        s
    } else {
        decode_utf8(b.take(n as int)).push('…')
    }
}

/// Cuts `s` to its first `n` bytes and marks the cut by an ellipsis.
pub fn truncate(s: &str, n: usize) -> (r: String)
    requires
        encode_utf8(s@).len() <= n || is_char_boundary(encode_utf8(s@), n as int),
    ensures
        r@ == cut_to(s@, n as nat),
{
    if byte_len(s) <= n {
        s.to_owned()
    } else {
        let (head, _) = s.split_at(n);
        proof {
            encode_utf8_decode_utf8(head@);
            let b = encode_utf8(s@);
            assert(b.take(n as int) == b.subrange(0, n as int));
        }
        let mut out = head.to_owned();
        out.push('…');
        out
    }
}

/// `a` comes before `b` in the order of their characters' code points.
pub open spec fn is_before(a: Seq<char>, b: Seq<char>) -> bool
    decreases a.len(),
{
    if b.len() == 0 {
        false
    } else if a.len() == 0 {
        true
    } else if a.first() != b.first() {
        (a.first() as int) < (b.first() as int)
    } else {
        is_before(a.drop_first(), b.drop_first())
    }
}

fn code(c: char) -> (r: u32)
    ensures
        r == c as int,
{
    c as u32
}

/// Whether `a` comes before `b`.
pub fn before(a: &str, b: &str) -> (r: bool)
    ensures
        r == is_before(a@, b@),
{
    let x = chars_of(a);
    let y = chars_of(b);
    let mut i: usize = 0;
    assert(a@.skip(0) == a@ && b@.skip(0) == b@);
    while i < x.len() && i < y.len()
        invariant
            i <= x@.len(),
            i <= y@.len(),
            x@ == a@,
            y@ == b@,
            is_before(a@, b@) == is_before(a@.skip(i as int), b@.skip(i as int)),
        decreases x@.len() - i,
    {
        assert(a@.skip(i as int).drop_first() == a@.skip(i + 1));
        assert(b@.skip(i as int).drop_first() == b@.skip(i + 1));
        if x[i] != y[i] {
            return code(x[i]) < code(y[i]);
        }
        i += 1;
    }
    i < y.len()
}

/// Of two different texts exactly one comes before the other, and the order carries over.
pub proof fn law_before_is_an_order(a: Seq<char>, b: Seq<char>, c: Seq<char>)
    ensures
        !is_before(a, a),
        a != b ==> is_before(a, b) != is_before(b, a),
        is_before(a, b) && is_before(b, c) ==> is_before(a, c),
    decreases a.len() + b.len() + c.len(),
{
    if a.len() > 0 {
        law_before_is_an_order(a.drop_first(), Seq::empty(), Seq::empty());
    }
    if a.len() > 0 && b.len() > 0 && a.first() == b.first() {
        let (x, y) = (a.drop_first(), b.drop_first());
        if x == y {
            assert(a == seq![a.first()] + x);
            assert(b == seq![b.first()] + y);
        }
        law_before_is_an_order(x, y, Seq::empty());
        if c.len() > 0 {
            law_before_is_an_order(x, y, c.drop_first());
        }
    } else if a.len() == 0 && b.len() == 0 {
        assert(a == b);
    }
}

/// The characters of an optional string.
pub open spec fn opt_text(s: Option<String>) -> Option<Seq<char>> {
    match s {
        Some(t) => Some(t@),
        None => None,
    }
}

/// The characters of each string.
pub open spec fn texts(v: Seq<String>) -> Seq<Seq<char>> {
    v.map_values(|s: String| s@)
}

/// The characters of each pair of strings.
pub open spec fn text_pairs(v: Seq<(String, String)>) -> Seq<(Seq<char>, Seq<char>)> {
    v.map_values(|p: (String, String)| (p.0@, p.1@))
}

/// Appends a pair of texts.
pub fn push_pair(v: &mut Vec<(String, String)>, a: &str, b: &str)
    ensures
        text_pairs(final(v)@) == text_pairs(old(v)@).push((a@, b@)),
{
    v.push((a.to_owned(), b.to_owned()));
    assert(text_pairs(v@) == text_pairs(old(v)@).push((a@, b@)));
}

/// The optional string itself, or an empty one.
pub open spec fn text_or_empty(s: Option<Seq<char>>) -> Seq<char> {
    match s {
        Some(t) => t,
        None => Seq::empty(),
    }
}

/// A string that is there and not blank.
pub open spec fn not_blank(s: Option<Seq<char>>) -> Option<Seq<char>> {
    match s {
        Some(t) if trimmed(t).len() > 0 => Some(t),
        _ => None,
    }
}

/// The string, where it is there and not blank.
pub fn unless_blank(s: &Option<String>) -> (r: Option<String>)
    ensures
        opt_text(r) == not_blank(opt_text(*s)),
{
    match s {
        Some(t) => {
            if trim(t.as_str()).as_str().is_empty() {
                None
            } else {
                Some(t.clone())
            }
        },
        None => None,
    }
}

/// The string without outer white space, or an empty one.
pub fn trimmed_or_empty(s: &Option<String>) -> (r: String)
    ensures
        r@ == trimmed(text_or_empty(opt_text(*s))),
{
    match s {
        Some(t) => trim(t.as_str()),
        None => String::new(),
    }
}

/// White space in ASCII is the blank and the control characters from tab to carriage return; no
/// letter, digit or ideograph is white space.
pub proof fn law_white_space(c: char)
    ensures
        (c as int) < 0x80 ==> (is_white(c) <==> c == ' ' || 9 <= c as int <= 13),
        c as int == 0x3000 || c as int == 0xA0 ==> is_white(c),
        0x4E00 <= c as int <= 0x9FFF ==> !is_white(c),
{
}

/// ASCII letters stand 32 apart in their two cases, in the same order; no other character changes
/// with the case.
pub proof fn law_letters_have_two_cases(c: char)
    ensures
        'A' <= c <= 'Z' ==> 'a' <= ascii_lower(c) <= 'z' && ascii_lower(c) as int - 'a' as int
            == c as int - 'A' as int && ascii_upper(ascii_lower(c)) == c,
        'a' <= c <= 'z' ==> 'A' <= ascii_upper(c) <= 'Z' && ascii_lower(ascii_upper(c)) == c,
        !('A' <= c <= 'Z') ==> ascii_lower(c) == c,
        !('a' <= c <= 'z') ==> ascii_upper(c) == c,
        is_ascii_letter(c) <==> ascii_lower(c) != ascii_upper(c),
{
}

/// Texts are alike exactly where, character by character, they are the same or the two cases of
/// one letter.
pub proof fn law_alike_is_but_for_case(a: Seq<char>, b: Seq<char>)
    ensures
        alike(a, a),
        alike(a, b) <==> alike(b, a),
        alike(a, b) <==> a.len() == b.len() && forall|i: int|
            0 <= i < a.len() ==> #[trigger] a[i] == b[i] || ('A' <= a[i] <= 'Z' && a[i] as int + 32
                == b[i] as int) || ('A' <= b[i] <= 'Z' && b[i] as int + 32 == a[i] as int),
{
    if a.len() == b.len() {
        if alike(a, b) {
            assert forall|i: int| 0 <= i < a.len() implies #[trigger] a[i] == b[i] || ('A' <= a[i]
                <= 'Z' && a[i] as int + 32 == b[i] as int) || ('A' <= b[i] <= 'Z' && b[i] as int
                + 32 == a[i] as int) by {
                assert(ascii_lower(a[i]) == ascii_lower(b[i]));
            }
            assert forall|i: int| 0 <= i < b.len() implies ascii_lower(#[trigger] b[i])
                == ascii_lower(a[i]) by {
                assert(ascii_lower(a[i]) == ascii_lower(b[i]));
            }
        }
        if alike(b, a) {
            assert forall|i: int| 0 <= i < a.len() implies ascii_lower(#[trigger] a[i])
                == ascii_lower(b[i]) by {
                assert(ascii_lower(b[i]) == ascii_lower(a[i]));
            }
        }
        if forall|i: int|
            0 <= i < a.len() ==> #[trigger] a[i] == b[i] || ('A' <= a[i] <= 'Z' && a[i] as int + 32
                == b[i] as int) || ('A' <= b[i] <= 'Z' && b[i] as int + 32 == a[i] as int) {
            assert forall|i: int| 0 <= i < a.len() implies ascii_lower(#[trigger] a[i])
                == ascii_lower(b[i]) by {
                law_letters_have_two_cases(a[i]);
                law_letters_have_two_cases(b[i]);
            }
        }
    }
}

/// Stripping takes a leading copy away and goes on behind it; a text that starts otherwise stays.
pub proof fn law_stripping(p: Seq<char>, s: Seq<char>)
    requires
        p.len() > 0,
    ensures
        stripped(p + s, p) == stripped(s, p),
        !has_prefix(s, p) ==> stripped(s, p) == s,
        !has_prefix(stripped(s, p), p),
    decreases s.len(),
{
    assert((p + s).take(p.len() as int) =~= p);
    assert((p + s).skip(p.len() as int) =~= s);
    if has_prefix(s, p) {
        law_stripping(p, s.skip(p.len() as int));
    }
}

/// The first copy of `p` is replaced by `q`, what stands before it stays, and the same goes on
/// behind it.
pub proof fn law_first_copy_is_replaced(
    before: Seq<char>,
    p: Seq<char>,
    after: Seq<char>,
    q: Seq<char>,
)
    requires
        p.len() > 0,
        forall|i: int| 0 <= i < before.len() ==> !occurs_at(before + p + after, p, i),
    ensures
        replaced(before + p + after, p, q) == before + q + replaced(after, p, q),
    decreases before.len(),
{
    let s = before + p + after;
    let tail = replaced(after, p, q);
    if before.len() == 0 {
        assert(s.take(p.len() as int) =~= p);
        assert(s.skip(p.len() as int) =~= after);
        assert(before + q + tail =~= q + tail);
    } else {
        let rest = before.drop_first();
        let t = rest + p + after;
        assert(s.drop_first() =~= t);
        assert(!has_prefix(s, p)) by {
            assert(!occurs_at(s, p, 0));
            assert(s.subrange(0, p.len() as int) =~= s.take(p.len() as int));
        }
        assert forall|i: int| 0 <= i < rest.len() implies !occurs_at(t, p, i) by {
            assert(!occurs_at(s, p, i + 1));
            if occurs_at(t, p, i) {
                assert(t.subrange(i, i + p.len()) =~= s.subrange(i + 1, i + 1 + p.len()));
            }
        }
        law_first_copy_is_replaced(rest, p, after, q);
        assert(seq![s.first()] + (rest + q + tail) =~= before + q + tail);
    }
}

/// A text without a copy of `p` stays as it is.
pub proof fn law_nothing_to_replace(s: Seq<char>, p: Seq<char>, q: Seq<char>)
    requires
        !has_text(s, p),
    ensures
        replaced(s, p, q) == s,
    decreases s.len(),
{
    if s.len() > 0 && p.len() > 0 {
        let rest = s.drop_first();
        if has_prefix(s, p) {
            assert(s.subrange(0, p.len() as int) =~= s.take(p.len() as int));
            assert(occurs_at(s, p, 0));
        }
        if has_text(rest, p) {
            let i = choose|i: int| occurs_at(rest, p, i);
            assert(rest.subrange(i, i + p.len()) =~= s.subrange(i + 1, i + 1 + p.len()));
            assert(occurs_at(s, p, i + 1));
        }
        law_nothing_to_replace(rest, p, q);
        assert(seq![s.first()] + rest =~= s);
    }
}

pub(crate) proof fn lemma_replaced_once(
    before: Seq<char>,
    p: Seq<char>,
    after: Seq<char>,
    q: Seq<char>,
)
    requires
        p.len() > 0,
        forall|c: char| before.contains(c) ==> c != p[0],
        forall|c: char| after.contains(c) ==> c != p[0],
    ensures
        replaced(before + p + after, p, q) == before + q + after,
{
    let s = before + p + after;
    assert forall|i: int| 0 <= i < before.len() implies !occurs_at(s, p, i) by {
        if occurs_at(s, p, i) {
            assert(s.subrange(i, i + p.len())[0] == s[i]);
            assert(before.contains(before[i]));
        }
    }
    if has_text(after, p) {
        let i = choose|i: int| occurs_at(after, p, i);
        assert(after.subrange(i, i + p.len())[0] == after[i]);
        assert(after.contains(after[i]));
    }
    law_first_copy_is_replaced(before, p, after, q);
    law_nothing_to_replace(after, p, q);
}

/// A text comes before another where the two first differ in a smaller character, or where it is
/// the beginning of the other.
pub proof fn law_before_goes_by_the_first_difference(
    start: Seq<char>,
    x: char,
    a: Seq<char>,
    y: char,
    b: Seq<char>,
)
    ensures
        x as int != y as int ==> (is_before(start.push(x) + a, start.push(y) + b) <==> (x as int) < (
        y as int)),
        is_before(start, start.push(y) + b),
        !is_before(start.push(y) + b, start),
    decreases start.len(),
{
    let s = start.push(x) + a;
    let t = start.push(y) + b;
    if start.len() > 0 {
        let rest = start.drop_first();
        law_before_goes_by_the_first_difference(rest, x, a, y, b);
        assert(s.drop_first() =~= rest.push(x) + a);
        assert(t.drop_first() =~= rest.push(y) + b);
        assert(s.first() == start.first() && t.first() == start.first());
    } else {
        assert(s.first() == x && t.first() == y);
    }
}

/// A text counts as blank exactly where it holds nothing but white space.
pub proof fn law_blank_is_white(s: String)
    ensures
        all_white(s@) ==> not_blank(Some(s@)) is None,
        !all_white(s@) ==> not_blank(Some(s@)) == Some(s@),
        not_blank(None) is None,
        opt_text(Some(s)) == Some(s@),
        text_or_empty(Some(s@)) == s@,
        text_or_empty(None).len() == 0,
{
    lemma_all_white_trims(s@);
}

pub(crate) proof fn lemma_all_white_trims(s: Seq<char>)
    ensures
        trimmed(s).len() == 0 <==> all_white(s),
    decreases s.len(),
{
    if s.len() > 0 && is_white(s.first()) {
        let rest = s.drop_first();
        lemma_all_white_trims(rest);
        if all_white(rest) {
            assert forall|i: int| 0 <= i < s.len() implies is_white(#[trigger] s[i]) by {
                if i > 0 {
                    assert(s[i] == rest[i - 1]);
                }
            }
        }
        if all_white(s) {
            assert forall|i: int| 0 <= i < rest.len() implies is_white(#[trigger] rest[i]) by {
                assert(rest[i] == s[i + 1]);
            }
        }
    } else if s.len() > 0 {
        assert(!is_white(s[0]));
        lemma_end_keeps_first(s);
    }
}

proof fn lemma_end_keeps_first(s: Seq<char>)
    requires
        s.len() > 0,
        !is_white(s.first()),
    ensures
        trimmed_end(s).len() > 0,
    decreases s.len(),
{
    if is_white(s.last()) {
        assert(s.len() > 1);
        lemma_end_keeps_first(s.drop_last());
    }
}

/// Of a text in ASCII that is too long, the first `n` characters are kept.
pub proof fn law_cut_of_ascii(s: Seq<char>, n: nat)
    requires
        is_ascii_chars(s),
    ensures
        cut_to(s, n) == (if s.len() > n { s.take(n as int).push('…') } else { s }),
{
    is_ascii_chars_encode_utf8(s);
    let b = encode_utf8(s);
    if s.len() > n {
        let t = s.take(n as int);
        is_ascii_chars_encode_utf8(t);
        assert(encode_utf8(t) =~= b.take(n as int));
        encode_utf8_decode_utf8(t);
    }
}

/// A text that is no number reads as none: one that holds anything but digits behind its sign, and
/// one without a digit. A number that is too large reads as none, and a sign counts.
pub proof fn law_only_numbers_are_read(s: Seq<char>, i: int, n: nat, max: nat)
    ensures
        1 <= i < s.len() && !('0' <= s[i] <= '9') ==> read_unsigned(s, max) is None && read_signed(
            s,
        ) is None,
        s.len() > 0 && !('0' <= s[0] <= '9') && s[0] != '+' ==> read_unsigned(s, max) is None,
        s.len() > 0 && !('0' <= s[0] <= '9') && s[0] != '+' && s[0] != '-' ==> read_signed(s) is None,
        s.len() == 0 ==> read_unsigned(s, max) is None && read_signed(s) is None,
        n > max ==> read_unsigned(decimal(n), max) is None,
        n <= max ==> read_unsigned(decimal(n), max) == Some(n),
        n <= 0x7FFF_FFFF_FFFF_FFFF ==> read_signed(decimal(n)) == Some(n as int) && read_signed(
            seq!['-'] + decimal(n),
        ) == Some(-(n as int)) && read_signed(seq!['+'] + decimal(n)) == Some(n as int),
{
    lemma_decimal(n);
    let d = decimal(n);
    assert((seq!['-'] + d).drop_first() =~= d);
    assert((seq!['+'] + d).drop_first() =~= d);
    law_decimal_round_trip(n, n);
    if 1 <= i < s.len() && !('0' <= s[i] <= '9') {
        let rest = s.drop_first();
        assert(rest[i - 1] == s[i]);
        assert(!is_digit(s[i]) && !is_digit(rest[i - 1]));
        assert(!all_digits(s) && !all_digits(rest));
    }
    if s.len() > 0 && !('0' <= s[0] <= '9') {
        assert(!is_digit(s[0]));
        assert(!all_digits(s));
    }
}

} // verus!
