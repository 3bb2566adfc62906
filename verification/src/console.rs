//! The log panel of the settings window: cutting output into lines, keeping the latest, and
//! showing them short.

use crate::text;
use vstd::prelude::*;
use vstd::string::*;
use vstd::utf8::*;

verus! {

/// How many lines are kept.
pub const LOG_LINES: usize = 400;

/// How many lines are shown.
pub const SHOWN_LINES: usize = 100;

/// The position of the first line break in `s`, or its length where there is none.
pub open spec fn first_break(s: Seq<char>) -> nat
    decreases s.len(),
{
    if s.len() == 0 || s.first() == '\n' {
        0
    } else {
        1 + first_break(s.drop_first())
    }
}

proof fn lemma_first_break(s: Seq<char>)
    ensures
        first_break(s) <= s.len(),
        forall|j: int| 0 <= j < first_break(s) ==> s[j] != '\n',
        first_break(s) < s.len() ==> s[first_break(s) as int] == '\n',
    decreases s.len(),
{
    if s.len() > 0 && s.first() != '\n' {
        lemma_first_break(s.drop_first());
        let k = first_break(s.drop_first());
        assert forall|j: int| 0 <= j < first_break(s) implies s[j] != '\n' by {
            if j > 0 {
                assert(s.drop_first()[j - 1] == s[j]);
            }
        }
        if k < s.drop_first().len() {
            assert(s.drop_first()[k as int] == s[k as int + 1]);
        }
    }
}

/// The finished lines in `s`, without white space at their ends.
pub open spec fn finished_lines(s: Seq<char>) -> Seq<Seq<char>>
    decreases s.len(),
{
    let k = first_break(s);
    if k < s.len() {
        seq![text::trimmed_end(s.take(k as int))] + finished_lines(s.skip(k as int + 1))
    } else {
        Seq::empty()
    }
}

/// What stands in `s` behind its last line break.
pub open spec fn unfinished(s: Seq<char>) -> Seq<char>
    decreases s.len(),
{
    let k = first_break(s);
    if k < s.len() {
        unfinished(s.skip(k as int + 1))
    } else {
        s
    }
}

/// Output that arrives in pieces, cut into lines.
pub struct LineCutter {
    pub line: String,
}

impl LineCutter {
    /// Nothing has arrived yet.
    pub fn new() -> (r: LineCutter)
        ensures
            r.line@ == Seq::<char>::empty(),
    {
        LineCutter { line: String::new() }
    }

    /// Takes the next piece and gives the lines that it finishes.
    pub fn feed(&mut self, piece: &str) -> (r: Vec<String>)
        ensures
            text::texts(r@) == finished_lines(old(self).line@ + piece@),
            final(self).line@ == unfinished(old(self).line@ + piece@),
    {
        let mut all = self.line.clone();
        all.append(piece);
        let cs = text::chars_of(all.as_str());
        let ghost s = all@;
        let n: usize = cs.len();
        let mut out: Vec<String> = Vec::new();
        let mut a: usize = 0;
        let mut i: usize = 0;
        assert(s.skip(0) == s);
        assert(text::texts(out@) + finished_lines(s) == finished_lines(s));
        while i < n
            invariant
                a <= i <= n == cs@.len(),
                cs@ == s,
                forall|j: int| a <= j < i ==> s[j] != '\n',
                finished_lines(s) == text::texts(out@) + finished_lines(s.skip(a as int)),
                unfinished(s) == unfinished(s.skip(a as int)),
            decreases n - i,
        {
            if cs[i] == '\n' {
                let ghost rest = s.skip(a as int);
                let ghost k = i - a;
                proof {
                    lemma_first_break(rest);
                    assert(rest[k] == '\n');
                    let f = first_break(rest) as int;
                    if f < k {
                        assert(rest[f] == s[a + f]);
                    }
                    assert(first_break(rest) == k);
                    assert(rest.take(k) == s.subrange(a as int, i as int));
                    assert(rest.skip(k as int + 1) == s.skip(i + 1));
                }
                let ghost done = text::texts(out@);
                let l = text::trim_end(text::text_of(&cs, a, i).as_str());
                out.push(l);
                assert(text::texts(out@) == done.push(l@));
                assert(done + (seq![l@] + finished_lines(s.skip(i + 1))) == text::texts(out@)
                    + finished_lines(s.skip(i + 1)));
                a = i + 1;
            }
            i += 1;
        }
        proof {
            let rest = s.skip(a as int);
            lemma_first_break(rest);
            if first_break(rest) < rest.len() {
                assert(rest[first_break(rest) as int] == s[a + first_break(rest) as int]);
            }
            assert(rest == s.subrange(a as int, n as int));
            assert(text::texts(out@) + Seq::<Seq<char>>::empty() == text::texts(out@));
        }
        self.line = text::text_of(&cs, a, n);
        out
    }
}

proof fn lemma_first_break_append(a: Seq<char>, b: Seq<char>)
    ensures
        first_break(a) < a.len() ==> first_break(a + b) == first_break(a),
        first_break(a) == a.len() ==> first_break(a + b) == a.len() + first_break(b),
    decreases a.len(),
{
    if a.len() == 0 {
        assert(a + b == b);
    } else {
        assert((a + b).first() == a.first());
        assert((a + b).drop_first() == a.drop_first() + b);
        lemma_first_break_append(a.drop_first(), b);
    }
}

/// It makes no difference into which pieces output is cut when it arrives.
pub proof fn law_pieces_do_not_matter(a: Seq<char>, b: Seq<char>)
    ensures
        finished_lines(a + b) == finished_lines(a) + finished_lines(unfinished(a) + b),
        unfinished(a + b) == unfinished(unfinished(a) + b),
    decreases a.len(),
{
    let k = first_break(a);
    lemma_first_break(a);
    lemma_first_break_append(a, b);
    if k < a.len() {
        law_pieces_do_not_matter(a.skip(k as int + 1), b);
        assert((a + b).skip(k as int + 1) == a.skip(k as int + 1) + b);
        assert((a + b).take(k as int) == a.take(k as int));
        let line = seq![text::trimmed_end(a.take(k as int))];
        let rest = a.skip(k as int + 1);
        assert(line + (finished_lines(rest) + finished_lines(unfinished(rest) + b)) == (line
            + finished_lines(rest)) + finished_lines(unfinished(rest) + b));
    } else {
        assert(Seq::<Seq<char>>::empty() + finished_lines(a + b) == finished_lines(a + b));
    }
}

/// The latest lines of the log.
pub struct LogBuffer {
    pub lines: Vec<String>,
}

/// The latest lines once `line` is added.
pub open spec fn with_line(lines: Seq<Seq<char>>, line: Seq<char>) -> Seq<Seq<char>> {
    if lines.len() >= LOG_LINES {
        lines.drop_first().push(line)
    } else {
        lines.push(line)
    }
}

impl LogBuffer {
    /// An empty log.
    pub fn new() -> (r: LogBuffer)
        ensures
            text::texts(r.lines@) == Seq::<Seq<char>>::empty(),
    {
        let r = LogBuffer { lines: Vec::new() };
        assert(text::texts(r.lines@) == Seq::<Seq<char>>::empty());
        r
    }

    /// Adds a line; the oldest leaves where the log is full.
    pub fn push(&mut self, line: String)
        ensures
            text::texts(final(self).lines@) == with_line(text::texts(old(self).lines@), line@),
            old(self).lines@.len() <= LOG_LINES ==> final(self).lines@.len() <= LOG_LINES,
    {
        let ghost before = self.lines@;
        if self.lines.len() >= LOG_LINES {
            self.lines.remove(0);
            assert(text::texts(self.lines@) == text::texts(before).drop_first());
        }
        let ghost mid = self.lines@;
        self.lines.push(line);
        assert(text::texts(self.lines@) == text::texts(mid).push(line@));
    }

    /// The lines that are shown: the last hundred.
    pub fn tail(&self) -> (r: Vec<String>)
        ensures
            r@ == self.lines@.skip(
                if self.lines@.len() > SHOWN_LINES {
                    self.lines@.len() - SHOWN_LINES
                } else {
                    0
                },
            ),
    {
        let n: usize = self.lines.len();
        let start: usize = if n > SHOWN_LINES {
            n - SHOWN_LINES
        } else {
            0
        };
        let mut out: Vec<String> = Vec::new();
        let mut i: usize = start;
        while i < n
            invariant
                start <= i <= n == self.lines@.len(),
                out@ == self.lines@.subrange(start as int, i as int),
            decreases n - i,
        {
            out.push(self.lines[i].clone());
            assert(out@ =~= self.lines@.subrange(start as int, i + 1));
            i += 1;
        }
        assert(out@ =~= self.lines@.skip(start as int));
        out
    }

    /// Forgets all lines.
    pub fn clear(&mut self)
        ensures
            final(self).lines@.len() == 0,
    {
        self.lines = Vec::new();
    }
}

/// The line starts with a date and a `T`.
pub open spec fn is_stamped(l: Seq<char>) -> bool {
    let b = encode_utf8(l);
    b.len() > 24 && b[10] == 0x54
}

/// A stamped line has its time at whole characters.
pub open spec fn has_time(l: Seq<char>) -> bool {
    let b = encode_utf8(l);
    is_stamped(l) ==> is_char_boundary(b, 11) && is_char_boundary(b, 19)
}

/// What stands in `l` from the first pair of spaces on, without leading white space.
pub open spec fn after_gap(l: Seq<char>) -> Seq<char> {
    if text::has_text(l, "  "@) {
        text::trimmed_start(l.skip(gap_of(l)))
    } else {
        Seq::empty()
    }
}

/// The first position of a pair of spaces.
pub open spec fn gap_of(l: Seq<char>) -> int {
    choose|i: int|
        text::occurs_at(l, "  "@, i) && forall|j: int|
            0 <= j < i ==> !text::occurs_at(l, "  "@, j)
}

/// The short form of a line: of a stamped one the time and what follows the first gap.
pub open spec fn short_line(l: Seq<char>) -> Seq<char> {
    if is_stamped(l) {
        decode_utf8(encode_utf8(l).subrange(11, 19)) + " "@ + after_gap(l)
    } else {
        l
    }
}

fn stamped(l: &str) -> (r: bool)
    ensures
        r == is_stamped(l@),
{
    let b = l.as_bytes();
    b.len() > 24 && b[10] == 0x54
}

/// Whether a line has a short form.
pub fn can_shorten(l: &str) -> (r: bool)
    ensures
        r == has_time(l@),
{
    !stamped(l) || (l.is_char_boundary(11) && l.is_char_boundary(19))
}

/// Shortens a line: `2026-08-28T06:19:31.017  INFO xx` becomes `06:19:31 INFO xx`.
pub fn short_log_line(l: &str) -> (r: String)
    requires
        has_time(l@),
    ensures
        r@ == short_line(l@),
{
    if !stamped(l) {
        return l.to_owned();
    }
    let ghost b = encode_utf8(l@);
    let (head, _) = l.split_at(19);
    proof {
        encode_utf8_valid_utf8(l@);
        lemma_boundary_of_prefix(b, 11, 19);
        assert(encode_utf8(head@) == b.subrange(0, 19));
    }
    let (_, time) = head.split_at(11);
    proof {
        encode_utf8_decode_utf8(time@);
        assert(encode_utf8(time@) == b.subrange(11, 19));
    }
    let mut out = time.to_owned();
    out.append(" ");
    let cs = text::chars_of(l);
    let gap = text::chars_of("  ");
    match text::position_of(&cs, &gap) {
        Some(i) => {
            proof {
                lemma_first_is_unique(l@, "  "@, i as int);
                assert(cs@.subrange(i as int, cs@.len() as int) == l@.skip(i as int));
            }
            out.append(text::trim_start(text::text_of(&cs, i, cs.len()).as_str()).as_str());
        },
        None => {
            assert(out@ + Seq::<char>::empty() == out@);
        },
    }
    out
}

proof fn lemma_first_is_unique(s: Seq<char>, p: Seq<char>, i: int)
    requires
        text::occurs_at(s, p, i),
        forall|j: int| 0 <= j < i ==> !text::occurs_at(s, p, j),
    ensures
        text::has_text(s, p),
        i == choose|k: int|
            text::occurs_at(s, p, k) && forall|j: int| 0 <= j < k ==> !text::occurs_at(s, p, j),
{
    let k = choose|k: int|
        text::occurs_at(s, p, k) && forall|j: int| 0 <= j < k ==> !text::occurs_at(s, p, j);
    assert(text::occurs_at(s, p, k));
    if k < i {
    } else if i < k {
        assert(!text::occurs_at(s, p, i));
    }
}

proof fn lemma_boundary_of_prefix(b: Seq<u8>, i: int, j: int)
    requires
        valid_utf8(b),
        0 <= i <= j <= b.len(),
        is_char_boundary(b, i),
        is_char_boundary(b, j),
    ensures
        is_char_boundary(b.subrange(0, j), i),
{
    valid_utf8_split(b, j);
    let p = b.subrange(0, j);
    if i < j {
        is_char_boundary_iff_not_is_continuation_byte(b, i);
        is_char_boundary_iff_not_is_continuation_byte(p, i);
        assert(p[i] == b[i]);
    } else {
        is_char_boundary_start_end_of_seq(p);
    }
}

/// How serious a line is.
#[derive(Clone, Copy, PartialEq, Eq, Structural, Debug)]
pub enum LogLevel {
    Error,
    Warning,
    Plain,
}

/// How serious a line is: by the word in it.
pub open spec fn level_of(l: Seq<char>) -> LogLevel {
    if text::has_text(l, "ERROR"@) {
        LogLevel::Error
    } else if text::has_text(l, "WARN"@) {
        LogLevel::Warning
    } else {
        LogLevel::Plain
    }
}

/// How serious a line is.
pub fn log_level(l: &str) -> (r: LogLevel)
    ensures
        r == level_of(l@),
{
    if text::contains(l, "ERROR") {
        LogLevel::Error
    } else if text::contains(l, "WARN") {
        LogLevel::Warning
    } else {
        LogLevel::Plain
    }
}

/// A line ends at its line break, and loses the white space before it; what follows is cut the
/// same way, and what has no line break waits.
pub proof fn law_lines_end_at_line_breaks(line: Seq<char>, rest: Seq<char>)
    requires
        forall|i: int| 0 <= i < line.len() ==> #[trigger] line[i] != '\n',
    ensures
        finished_lines(line + seq!['\n'] + rest) == seq![text::trimmed_end(line)] + finished_lines(
            rest,
        ),
        unfinished(line + seq!['\n'] + rest) == unfinished(rest),
        finished_lines(line).len() == 0,
        unfinished(line) == line,
{
    let s = line + seq!['\n'] + rest;
    lemma_first_break(s);
    lemma_first_break(line);
    let k = first_break(s) as int;
    let n = line.len() as int;
    assert(s[n] == '\n');
    if k < n {
        assert(s[k] == line[k]);
    }
    assert(k == n);
    assert(s.take(k) =~= line);
    assert(s.skip(k + 1) =~= rest);
    if first_break(line) < line.len() {
        assert(line[first_break(line) as int] == '\n');
    }
}

/// The log keeps the latest four hundred lines, in order, and shows a hundred of them.
pub proof fn law_log_keeps_the_latest(lines: Seq<Seq<char>>, line: Seq<char>, i: int)
    requires
        lines.len() <= 400,
    ensures
        with_line(lines, line).last() == line,
        lines.len() < 400 ==> with_line(lines, line).len() == lines.len() + 1 && (0 <= i < lines.len()
            ==> with_line(lines, line)[i] == lines[i]),
        lines.len() == 400 ==> with_line(lines, line).len() == 400 && (1 <= i < lines.len()
            ==> with_line(lines, line)[i - 1] == lines[i]),
        SHOWN_LINES == 100,
{
}

/// Of a stamped line in ASCII the time and what follows the first gap are shown; a line without a
/// stamp stays as it is.
pub proof fn law_short_line_shows_the_time(head: Seq<char>, rest: Seq<char>, other: Seq<char>)
    requires
        is_ascii_chars(head + "  "@ + rest),
        head.len() >= 19,
        (head + "  "@ + rest).len() > 24,
        head[10] == 'T',
        forall|i: int| 0 <= i < head.len() ==> !text::occurs_at(head + "  "@ + rest, "  "@, i),
    ensures
        short_line(head + "  "@ + rest) == head.subrange(11, 19) + " "@ + text::trimmed_start(rest),
        !is_stamped(other) ==> short_line(other) == other,
{
    let l = head + "  "@ + rest;
    reveal_strlit("  ");
    is_ascii_chars_encode_utf8(l);
    let b = encode_utf8(l);
    assert(l[10] == 'T');
    let t = l.subrange(11, 19);
    assert(t =~= head.subrange(11, 19));
    is_ascii_chars_encode_utf8(t);
    assert(encode_utf8(t) =~= b.subrange(11, 19));
    encode_utf8_decode_utf8(t);
    let at = head.len() as int;
    assert(l.subrange(at, at + 2) =~= "  "@);
    assert(text::occurs_at(l, "  "@, at));
    lemma_first_is_unique(l, "  "@, at);
    assert(gap_of(l) == at);
    let tail = l.skip(at);
    assert(tail =~= "  "@ + rest);
    text::law_white_space(' ');
    assert(tail.first() == ' ');
    let one = tail.drop_first();
    assert(one.first() == ' ');
    assert(one.drop_first() =~= rest);
    assert(text::trimmed_start(tail) == text::trimmed_start(one));
    assert(text::trimmed_start(one) == text::trimmed_start(rest));
}

/// A line counts as an error where it says so, else as a warning where it says that.
pub proof fn law_level_is_told_by_the_line(before: Seq<char>, after: Seq<char>, l: Seq<char>)
    ensures
        level_of(before + "ERROR"@ + after) == LogLevel::Error,
        !text::has_text(before + "WARN"@ + after, "ERROR"@) ==> level_of(before + "WARN"@ + after)
            == LogLevel::Warning,
        !text::has_text(l, "ERROR"@) && !text::has_text(l, "WARN"@) ==> level_of(l)
            == LogLevel::Plain,
{
    let at = before.len() as int;
    let e = before + "ERROR"@ + after;
    assert(e.subrange(at, at + "ERROR"@.len()) =~= "ERROR"@);
    assert(text::occurs_at(e, "ERROR"@, at));
    let w = before + "WARN"@ + after;
    assert(w.subrange(at, at + "WARN"@.len()) =~= "WARN"@);
    assert(text::occurs_at(w, "WARN"@, at));
}

/// Every line in ASCII can be shortened.
pub proof fn law_ascii_lines_can_be_shortened(l: Seq<char>)
    requires
        is_ascii_chars(l),
    ensures
        has_time(l),
        is_stamped(l) <==> l.len() > 24 && l[10] == 'T',
{
    is_ascii_chars_encode_utf8(l);
    encode_utf8_valid_utf8(l);
    let b = encode_utf8(l);
    if is_stamped(l) {
        is_char_boundary_iff_is_leading_byte(b, 11);
        is_char_boundary_iff_is_leading_byte(b, 19);
    }
}

} // verus!
