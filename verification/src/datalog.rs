//! The data log: the platform's messages, kills and account data, one per line, for plugins that
//! read a file.
//!
//! A message of a kind is written only where it differs from the last of its kind. Every so many
//! lines the size of the file is looked at, and a file that grew too large is emptied.

use crate::text;
use vstd::hash_map::StringHashMap;
use vstd::prelude::*;
use vstd::string::*;

verus! {

/// The size in bytes above which the file is emptied.
pub const MAX_SIZE: u64 = 20_971_520;

/// After how many lines the size is looked at.
pub const CHECK_EVERY: u32 = 200;

/// The last message of each kind, and how many lines were written.
pub struct DataLog {
    last: StringHashMap<String>,
    writes: u32,
}

/// The last message of each kind, and how many lines were written.
#[verifier::ext_equal]
pub struct DataLogModel {
    pub last: Map<Seq<char>, Seq<char>>,
    pub writes: u32,
}

impl View for DataLog {
    type V = DataLogModel;

    closed spec fn view(&self) -> DataLogModel {
        DataLogModel { last: self.last@.map_values(|s: String| s@), writes: self.writes }
    }
}

/// A line to append, and whether the size of the file has to be looked at after it.
pub struct LogWrite {
    pub line: String,
    pub check_size: bool,
}

/// The line of a message: the time in brackets, the message, a line break.
pub open spec fn log_line(stamp: Seq<char>, body: Seq<char>) -> Seq<char> {
    "["@ + stamp + "] "@ + body + "\n"@
}

impl DataLogModel {
    /// The log after one line more; the count starts over behind the largest number.
    pub open spec fn written(self) -> DataLogModel {
        DataLogModel { last: self.last, writes: self.writes.wrapping_add(1) }
    }

    /// The message differs from the last of its kind.
    pub open spec fn is_news(self, kind: Seq<char>, body: Seq<char>) -> bool {
        !(self.last.contains_key(kind) && self.last[kind] == body)
    }

    /// The log after a message of a kind.
    pub open spec fn told(self, kind: Seq<char>, body: Seq<char>) -> DataLogModel {
        if self.is_news(kind, body) {
            DataLogModel {
                last: self.last.insert(kind, body),
                writes: self.writes.wrapping_add(1),
            }
        } else {
            self
        }
    }
}

impl DataLog {
    /// An empty log.
    pub fn create() -> (r: DataLog)
        ensures
            r@ == (DataLogModel { last: Map::empty(), writes: 0 }),
    {
        let r = DataLog { last: StringHashMap::new(), writes: 0 };
        assert(r@.last =~= Map::<Seq<char>, Seq<char>>::empty());
        r
    }

    /// Writes a line.
    pub fn raw(&mut self, stamp: &str, body: &str) -> (r: LogWrite)
        ensures
            r.line@ == log_line(stamp@, body@),
            r.check_size == (final(self)@.writes % CHECK_EVERY == 0),
            final(self)@ == old(self)@.written(),
    {
        let mut line = "[".to_owned();
        line.append(stamp);
        line.append("] ");
        line.append(body);
        line.append("\n");
        self.writes = self.writes.wrapping_add(1);
        LogWrite { line, check_size: self.writes % CHECK_EVERY == 0 }
    }

    /// Writes a line where it differs from the last of its kind.
    pub fn line(&mut self, key: &str, stamp: &str, body: &str) -> (r: Option<LogWrite>)
        ensures
            match r {
                Some(w) => old(self)@.is_news(key@, body@) && w.line@ == log_line(stamp@, body@)
                    && w.check_size == (final(self)@.writes % CHECK_EVERY == 0),
                None => !old(self)@.is_news(key@, body@),
            },
            final(self)@ == old(self)@.told(key@, body@),
    {
        match self.last.get(key) {
            Some(l) => {
                if text::same(l.as_str(), body) {
                    return None;
                }
            },
            None => {},
        }
        self.last.insert(key.to_owned(), body.to_owned());
        assert(self@.last =~= old(self)@.last.insert(key@, body@));
        Some(self.raw(stamp, body))
    }
}

/// Whether the file has to be emptied, once its size was looked at.
pub fn must_clear(size: u64) -> (r: bool)
    ensures
        r == (size > MAX_SIZE),
{
    size > MAX_SIZE
}

/// A message that comes again at once is not written again.
pub proof fn law_repeat_is_silent(m: DataLogModel, kind: Seq<char>, body: Seq<char>)
    ensures
        !m.told(kind, body).is_news(kind, body),
        m.told(kind, body).told(kind, body) == m.told(kind, body),
{
}

/// Messages of one kind say nothing about those of another, nor do plain lines.
pub proof fn law_kinds_are_apart(
    m: DataLogModel,
    kind: Seq<char>,
    body: Seq<char>,
    other: Seq<char>,
    text: Seq<char>,
)
    requires
        kind != other,
    ensures
        m.told(kind, body).is_news(other, text) == m.is_news(other, text),
        m.written().is_news(other, text) == m.is_news(other, text),
{
}

/// Among so many lines in a row, one looks at the size, as long as the count does not start over.
pub proof fn law_size_is_checked(writes: u32)
    requires
        writes + CHECK_EVERY <= u32::MAX,
    ensures
        exists|k: u32|
            1 <= k <= CHECK_EVERY && #[trigger] ((writes + k) as u32) % CHECK_EVERY == 0,
{
    let k: u32 = (CHECK_EVERY - writes % CHECK_EVERY) as u32;
    assert(((writes + k) as u32) % CHECK_EVERY == 0);
}

/// A message is news exactly where none of its kind came before or the last of its kind was
/// another; only news is written, as one line more.
pub proof fn law_only_news_is_written(m: DataLogModel, kind: Seq<char>, body: Seq<char>, last: Seq<char>)
    ensures
        !m.last.contains_key(kind) ==> m.is_news(kind, body),
        m.last.contains_key(kind) && m.last[kind] == last ==> (m.is_news(kind, body) <==> last
            != body),
        m.is_news(kind, body) && m.writes < u32::MAX ==> m.told(kind, body).writes == m.writes + 1,
        m.is_news(kind, body) ==> m.told(kind, body).last[kind] == body,
        !m.is_news(kind, body) ==> m.told(kind, body) == m,
        m.writes < u32::MAX ==> m.written().writes == m.writes + 1,
        m.written().last == m.last,
{
}

/// A line holds its time in brackets and then the message, and ends there.
pub proof fn law_line_holds_time_and_message(stamp: Seq<char>, body: Seq<char>)
    ensures
        log_line(stamp, body) == "["@ + stamp + "] "@ + body + "\n"@,
        text::has_text(log_line(stamp, body), body),
{
    let head = "["@ + stamp + "] "@;
    let all = log_line(stamp, body);
    let at = head.len() as int;
    assert(all.subrange(at, at + body.len()) =~= body);
    assert(text::occurs_at(all, body, at));
}

/// The file is emptied above twenty megabytes, and its size is looked at every two hundred lines.
pub proof fn law_limits_of_the_file()
    ensures
        MAX_SIZE == 20 * 1024 * 1024,
        CHECK_EVERY == 200,
{
}

} // verus!
