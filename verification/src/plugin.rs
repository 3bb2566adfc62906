//! Plugins: sources of data that are described in a file each, fetched again and again, and shown
//! on the pages under a name.
//!
//! A source is a file beside the program or an address on the web. While the program shows
//! placeholder data no source is fetched; what a plugin shows then is made up.

use crate::config::{MonitorConfig, MonitorConfigView};
use crate::state::{AppModel, AppState};
use crate::table::Table;
use crate::{table, text};
use vstd::prelude::*;
use vstd::string::*;
use vstd::utf8::*;

verus! {

/// How a plugin introduces itself on the web.
pub const DEFAULT_UA: &'static str = "curl/8.5.0";

/// How a plugin introduces itself where its file does not say.
pub fn default_ua() -> (r: String)
    ensures
        r@ == DEFAULT_UA@,
{
    DEFAULT_UA.to_owned()
}

/// Whether a plugin goes around the proxy where its file does not say.
pub fn default_true() -> (r: bool)
    ensures
        r,
{
    true
}

/// Seconds between two fetches where the file of a plugin does not say.
pub fn default_interval() -> (r: u64)
    ensures
        r == 1800,
{
    1800
}

/// Seconds before a refused fetch is tried again where the file of a plugin does not say.
pub fn default_retry() -> (r: u64)
    ensures
        r == 300,
{
    300
}

/// A rule that takes a value out of what was fetched.
pub struct Extractor {
    pub var: String,
    /// `regex` or `count`.
    pub kind: String,
    pub pattern: String,
}

/// What a variable shows while the program shows placeholder data.
pub enum MockValue {
    /// A number to start from.
    Number(i64),
    /// A text that stays.
    Text(String),
}

/// The description of a plugin.
pub struct PluginDef {
    pub name: String,
    pub url: String,
    pub user_agent: String,
    pub no_proxy: bool,
    pub interval_sec: u64,
    pub retry_sec: u64,
    pub extract: Vec<Extractor>,
    pub mock: Vec<(String, MockValue)>,
}

/// What becomes of a description.
#[derive(Clone, Copy, PartialEq, Eq, Structural, Debug)]
pub enum Accepted {
    Loaded,
    /// A plugin of that name was found before.
    Known,
    /// The name or the rules are missing.
    Incomplete,
}

/// A plugin of the name is among `defs`.
pub open spec fn is_known(defs: Seq<PluginDef>, name: Seq<char>) -> bool {
    exists|i: int| 0 <= i < defs.len() && (#[trigger] defs[i]).name@ == name
}

/// No name stands twice, and every plugin has a name and rules.
pub open spec fn are_loaded(defs: Seq<PluginDef>) -> bool {
    &&& forall|i: int, j: int|
        0 <= i < j < defs.len() ==> (#[trigger] defs[i]).name@ != (#[trigger] defs[j]).name@
    &&& forall|i: int|
        0 <= i < defs.len() ==> (#[trigger] defs[i]).name@.len() > 0 && defs[i].extract@.len() > 0
}

/// Takes a description in: of two with one name the first is kept.
pub fn load_def(defs: &mut Vec<PluginDef>, d: PluginDef) -> (r: Accepted)
    ensures
        r == (if d.name@.len() == 0 || d.extract@.len() == 0 {
            Accepted::Incomplete
        } else if is_known(old(defs)@, d.name@) {
            Accepted::Known
        } else {
            Accepted::Loaded
        }),
        final(defs)@ == (if r == Accepted::Loaded {
            old(defs)@.push(d)
        } else {
            old(defs)@
        }),
        are_loaded(old(defs)@) ==> are_loaded(final(defs)@),
{
    if d.name.as_str().is_empty() || d.extract.len() == 0 {
        return Accepted::Incomplete;
    }
    let mut i: usize = 0;
    while i < defs.len()
        invariant
            i <= defs@.len(),
            defs@ == old(defs)@,
            d.name@.len() > 0,
            d.extract@.len() > 0,
            forall|j: int| 0 <= j < i ==> (#[trigger] defs@[j]).name@ != d.name@,
        decreases defs@.len() - i,
    {
        if text::same(defs[i].name.as_str(), d.name.as_str()) {
            assert(old(defs)@[i as int].name@ == d.name@);
            return Accepted::Known;
        }
        i += 1;
    }
    defs.push(d);
    Accepted::Loaded
}

/// The start of the address of a file.
pub const FILE_PREFIX: &'static str = "file:";

/// The place of the account in an address.
pub const ID_PLACE: &'static str = "{steam_id}";

/// Where a source is.
pub enum Source {
    /// A file, relative to the program.
    File(String),
    Web(String),
}

/// Where a source is, by characters.
pub enum SourceView {
    File(Seq<char>),
    Web(Seq<char>),
}

impl View for Source {
    type V = SourceView;

    open spec fn view(&self) -> SourceView {
        match self {
            Source::File(s) => SourceView::File(s@),
            Source::Web(s) => SourceView::Web(s@),
        }
    }
}

/// The source at an address.
pub open spec fn source_at(url: Seq<char>) -> SourceView {
    if text::has_prefix(url, FILE_PREFIX@) {
        SourceView::File(url.skip(FILE_PREFIX@.len() as int))
    } else {
        SourceView::Web(url)
    }
}

/// The source at an address.
pub fn source_of(url: &str) -> (r: Source)
    ensures
        r@ == source_at(url@),
{
    match text::strip_prefix(url, FILE_PREFIX) {
        Some(rest) => Source::File(rest),
        None => Source::Web(url.to_owned()),
    }
}

/// What to do for a plugin.
pub enum PluginStep {
    /// Show made-up values, then wait so many seconds.
    Simulate { wait: u64 },
    /// There is no account to ask for: wait so many seconds.
    Idle { wait: u64 },
    /// Fetch, then wait so many seconds.
    Fetch { source: Source, wait: u64 },
}

/// What to do for a plugin, by characters.
pub enum PluginStepView {
    Simulate { wait: u64 },
    Idle { wait: u64 },
    Fetch { source: SourceView, wait: u64 },
}

impl View for PluginStep {
    type V = PluginStepView;

    open spec fn view(&self) -> PluginStepView {
        match self {
            PluginStep::Simulate { wait } => PluginStepView::Simulate { wait: *wait },
            PluginStep::Idle { wait } => PluginStepView::Idle { wait: *wait },
            PluginStep::Fetch { source, wait } => PluginStepView::Fetch {
                source: source@,
                wait: *wait,
            },
        }
    }
}

/// The larger of two numbers.
pub open spec fn larger(a: u64, b: u64) -> u64 {
    if a > b {
        a
    } else {
        b
    }
}

fn larger_of(a: u64, b: u64) -> (r: u64)
    ensures
        r == larger(a, b),
{
    if a > b {
        a
    } else {
        b
    }
}

/// Seconds between two fetches: a file at most once a second, the web at most once a minute.
pub open spec fn pause(def: PluginDef) -> u64 {
    larger(
        def.interval_sec,
        if text::has_prefix(def.url@, FILE_PREFIX@) {
            1
        } else {
            60
        },
    )
}

/// The step for a plugin under a configuration.
pub open spec fn step_of(def: PluginDef, cfg: MonitorConfigView) -> PluginStepView {
    let sid = text::trimmed(cfg.steam_id);
    if cfg.mock {
        PluginStepView::Simulate { wait: 5 }
    } else if !text::has_prefix(def.url@, FILE_PREFIX@) && sid.len() == 0 {
        PluginStepView::Idle { wait: 60 }
    } else {
        PluginStepView::Fetch {
            source: source_at(text::replaced(def.url@, ID_PLACE@, sid)),
            wait: pause(def),
        }
    }
}

/// Chooses the step for a plugin.
pub fn plugin_step(def: &PluginDef, cfg: &MonitorConfig) -> (r: PluginStep)
    ensures
        r@ == step_of(*def, cfg@),
{
    if cfg.mock {
        return PluginStep::Simulate { wait: 5 };
    }
    let is_file = text::starts_with(def.url.as_str(), FILE_PREFIX);
    let sid = text::trim(cfg.steam_id.as_str());
    if !is_file && sid.as_str().is_empty() {
        return PluginStep::Idle { wait: 60 };
    }
    proof {
        reveal_strlit("{steam_id}");
    }
    let url = text::replace(def.url.as_str(), ID_PLACE, sid.as_str());
    let wait: u64 = larger_of(
        def.interval_sec,
        if is_file {
            1
        } else {
            60
        },
    );
    PluginStep::Fetch { source: source_of(url.as_str()), wait }
}

/// What a fetch gave.
pub enum Fetched {
    Body(String),
    /// The source refused because it was asked too often.
    Limited,
    Failed,
}

/// Seconds to wait after a fetch: a source that was asked too often is left alone for at least
/// half a minute.
pub fn wait_after(def: &PluginDef, fetched: &Fetched, wait: u64) -> (r: u64)
    ensures
        r == (if fetched is Limited {
            larger(def.retry_sec, 30)
        } else {
            wait
        }),
{
    match fetched {
        Fetched::Limited => larger_of(def.retry_sec, 30),
        _ => wait,
    }
}

/// A source is fetched at most once a second, one on the web at most once a minute, and none at
/// all while the program shows placeholder data.
pub proof fn law_pause_has_a_minimum(def: PluginDef, cfg: MonitorConfigView)
    ensures
        step_of(def, cfg) matches PluginStepView::Fetch { source, wait } ==> !cfg.mock && wait >= 1
            && wait >= def.interval_sec && (!text::has_prefix(def.url@, FILE_PREFIX@) ==> wait
            >= 60),
        cfg.mock ==> step_of(def, cfg) is Simulate,
{
}

/// A plugin is fetched as often as its file says, down to once a second for a file and once a
/// minute for the web. One on the web waits for an account; a file needs none. The account stands in
/// every place for it in the address.
pub proof fn law_fetch_follows_the_description(def: PluginDef, cfg: MonitorConfigView)
    ensures
        !cfg.mock && text::has_prefix(def.url@, "file:"@) ==> (step_of(
            def,
            cfg,
        ) matches PluginStepView::Fetch { source, wait } && (def.interval_sec >= 1 ==> wait
            == def.interval_sec) && (def.interval_sec == 0 ==> wait == 1)),
        !cfg.mock && !text::has_prefix(def.url@, "file:"@) && text::trimmed(cfg.steam_id).len() > 0
            ==> (step_of(def, cfg) matches PluginStepView::Fetch { source, wait } && (
        def.interval_sec >= 60 ==> wait == def.interval_sec) && (def.interval_sec < 60 ==> wait
            == 60)),
        !cfg.mock && !text::has_prefix(def.url@, "file:"@) && text::trimmed(cfg.steam_id).len() == 0
            ==> step_of(def, cfg) == (PluginStepView::Idle { wait: 60 }),
        cfg.mock ==> step_of(def, cfg) == (PluginStepView::Simulate { wait: 5 }),
        step_of(def, cfg) matches PluginStepView::Fetch { source, wait } ==> source == source_at(
            text::replaced(def.url@, "{steam_id}"@, text::trimmed(cfg.steam_id)),
        ),
{
}

/// What is fetched is the address of the description with the account in each of its places: the
/// text between them stays as it is.
pub proof fn law_address_holds_the_account(
    def: PluginDef,
    cfg: MonitorConfigView,
    before: Seq<char>,
    after: Seq<char>,
)
    requires
        !cfg.mock,
        text::trimmed(cfg.steam_id).len() > 0,
        def.url@ == before + "{steam_id}"@ + after,
        forall|c: char| before.contains(c) ==> c != '{',
        forall|c: char| after.contains(c) ==> c != '{',
    ensures
        step_of(def, cfg) matches PluginStepView::Fetch { source, wait } && source == source_at(
            before + text::trimmed(cfg.steam_id) + after,
        ),
{
    reveal_strlit("{steam_id}");
    assert("{steam_id}"@[0] == '{' && "{steam_id}"@.len() == 10);
    text::lemma_replaced_once(before, "{steam_id}"@, after, text::trimmed(cfg.steam_id));
}

/// An address that starts with `file:` names the file behind that; any other is one on the web.
pub proof fn law_source_is_file_or_web(url: Seq<char>, path: Seq<char>)
    ensures
        source_at("file:"@ + path) == SourceView::File(path),
        !text::has_prefix(url, "file:"@) ==> source_at(url) == SourceView::Web(url),
{
    let all = "file:"@ + path;
    assert(all.take("file:"@.len() as int) =~= "file:"@);
    assert(all.skip("file:"@.len() as int) =~= path);
}

/// `regex::Error`: why a pattern was refused.
#[verifier::external_type_specification]
#[verifier::external_body]
pub struct ExRegexError(regex::Error);

/// The first capture group of the first match of a pattern in a text, as the regex crate finds
/// them on a machine with words of `word` bits: nothing where it refuses the pattern, and within
/// that none without a match, or where the group takes no part in it.
pub uninterp spec fn first_capture(pattern: Seq<char>, text: Seq<char>, word: nat) -> Option<Option<Seq<char>>>;

/// The number of matches of a pattern in a text that do not overlap, as the regex crate finds
/// them.
pub uninterp spec fn match_count(pattern: Seq<char>, text: Seq<char>) -> nat;

/// `regex::Regex::captures` under a pattern that `regex::Regex::new` accepts, and group 1 of it.
/// Whether the pattern is accepted does not depend on the text, so it is the same as for an empty
/// one. A limit on the size of the compiled pattern takes part in it, which is counted in words of
/// the machine.
#[verifier::external_body]
fn regex_capture(pattern: &str, text: &str) -> (r: Result<Option<String>, regex::Error>)
    ensures
        r is Ok <==> first_capture(pattern@, Seq::empty(), usize::BITS as nat) is Some,
        r matches Ok(c) ==> first_capture(pattern@, text@, usize::BITS as nat) == Some(
            text::opt_text(c),
        ),
{
    let re = regex::Regex::new(pattern)?;
    Ok(re.captures(text).and_then(|c| c.get(1)).map(|m| m.as_str().to_string()))
}

/// `regex::Regex::find_iter` under a pattern that `regex::Regex::new` accepts, counted. The same
/// patterns are accepted as for captures, whatever the text is.
#[verifier::external_body]
fn regex_count(pattern: &str, text: &str) -> (r: Result<usize, regex::Error>)
    ensures
        r is Ok <==> first_capture(pattern@, Seq::empty(), usize::BITS as nat) is Some,
        r matches Ok(n) ==> n == match_count(pattern@, text@),
{
    let re = regex::Regex::new(pattern)?;
    Ok(re.find_iter(text).count())
}

/// Why a rule gave no value.
pub enum ExtractError {
    BadPattern,
    UnknownKind(String),
}

/// The value of a variable after the captures of its pattern were asked for; none where the
/// pattern was refused.
pub fn captured_value(found: Option<Option<String>>) -> (r: Result<Option<String>, ExtractError>)
    ensures
        match found {
            Some(c) => r == Ok::<Option<String>, ExtractError>(c),
            None => r matches Err(ExtractError::BadPattern),
        },
{
    match found {
        Some(c) => Ok(c),
        None => Err(ExtractError::BadPattern),
    }
}

/// The value of a variable after the matches of its pattern were counted; none where the pattern
/// was refused.
pub fn counted_value(found: Option<usize>) -> (r: Result<Option<String>, ExtractError>)
    ensures
        match found {
            Some(n) => r matches Ok(Some(s)) && s@ == text::decimal(n as nat),
            None => r matches Err(ExtractError::BadPattern),
        },
{
    match found {
        Some(n) => Ok(Some(text::decimal_text(n as u64))),
        None => Err(ExtractError::BadPattern),
    }
}

/// The regex crate accepts a pattern on this machine.
pub open spec fn is_accepted(pattern: Seq<char>) -> bool {
    first_capture(pattern, Seq::empty(), usize::BITS as nat) is Some
}

/// What a rule gives: by its kind the first capture or the number of matches, unless its pattern
/// is refused; an unknown kind gives nothing.
pub open spec fn is_right_value(
    ex: Extractor,
    body: Seq<char>,
    r: Result<Option<String>, ExtractError>,
) -> bool {
    if ex.kind@ == "regex"@ {
        match r {
            Ok(v) => is_accepted(ex.pattern@) && first_capture(
                ex.pattern@,
                body,
                usize::BITS as nat,
            ) == Some(text::opt_text(v)),
            Err(e) => e is BadPattern && !is_accepted(ex.pattern@),
        }
    } else if ex.kind@ == "count"@ {
        match r {
            Ok(v) => is_accepted(ex.pattern@) && text::opt_text(v) == Some(
                text::decimal(match_count(ex.pattern@, body)),
            ),
            Err(e) => e is BadPattern && !is_accepted(ex.pattern@),
        }
    } else {
        r matches Err(ExtractError::UnknownKind(k)) && k@ == ex.kind@
    }
}

/// Takes a value out of what was fetched.
pub fn run_extractor(ex: &Extractor, body: &str) -> (r: Result<Option<String>, ExtractError>)
    ensures
        is_right_value(*ex, body@, r),
{
    if text::same(ex.kind.as_str(), "regex") {
        let found = match regex_capture(ex.pattern.as_str(), body) {
            Ok(c) => Some(c),
            Err(_) => None,
        };
        return captured_value(found);
    }
    if text::same(ex.kind.as_str(), "count") {
        proof {
            reveal_strlit("regex");
            reveal_strlit("count");
        }
        let found = match regex_count(ex.pattern.as_str(), body) {
            Ok(n) => Some(n),
            Err(_) => None,
        };
        return counted_value(found);
    }
    Err(ExtractError::UnknownKind(ex.kind.clone()))
}

/// Whether a rule fails depends on its pattern alone, not on what was fetched: two runs of one
/// rule both succeed or both fail, and so do a capture and a count of one pattern.
pub proof fn law_refusal_depends_on_the_pattern(
    ex: Extractor,
    other: Extractor,
    body: Seq<char>,
    body2: Seq<char>,
    r: Result<Option<String>, ExtractError>,
    r2: Result<Option<String>, ExtractError>,
)
    requires
        ex.kind@ == "regex"@ || ex.kind@ == "count"@,
        other.kind@ == "regex"@ || other.kind@ == "count"@,
        ex.pattern@ == other.pattern@,
        is_right_value(ex, body, r),
        is_right_value(other, body2, r2),
    ensures
        r is Ok <==> r2 is Ok,
        r is Ok <==> first_capture(ex.pattern@, Seq::empty(), usize::BITS as nat) is Some,
        r matches Err(e) ==> e is BadPattern,
{
}

/// A rule whose pattern is accepted gives what the regex crate finds in the text that was fetched:
/// the capture as it is, or the number of matches in decimal. A rule of another kind fails with
/// its kind.
pub proof fn law_value_is_what_the_pattern_finds(
    ex: Extractor,
    body: Seq<char>,
    r: Result<Option<String>, ExtractError>,
    n: nat,
)
    requires
        is_right_value(ex, body, r),
    ensures
        ex.kind@ == "regex"@ && r is Ok ==> (match first_capture(
            ex.pattern@,
            body,
            usize::BITS as nat,
        ) {
            Some(Some(c)) => r matches Ok(Some(v)) && v@ == c,
            Some(None) => r matches Ok(None),
            None => false,
        }),
        ex.kind@ == "count"@ && r is Ok && match_count(ex.pattern@, body) == n ==> (r matches Ok(
            Some(v),
        ) && v@ == text::decimal(n)),
        ex.kind@ != "regex"@ && ex.kind@ != "count"@ ==> (r matches Err(ExtractError::UnknownKind(k))
            && k@ == ex.kind@),
{
    reveal_strlit("regex");
    reveal_strlit("count");
    assert("regex"@.len() == 5 && "regex"@[0] == 'r' && "count"@[0] == 'c');
}

/// Takes all values of a plugin out of what was fetched.
pub fn run_extractors(
    def: &PluginDef,
    body: &str,
) -> (r: Vec<Result<Option<String>, ExtractError>>)
    ensures
        r@.len() == def.extract@.len(),
        forall|i: int|
            0 <= i < r@.len() ==> is_right_value(def.extract@[i], body@, #[trigger] r@[i]),
{
    let mut out: Vec<Result<Option<String>, ExtractError>> = Vec::new();
    let mut i: usize = 0;
    while i < def.extract.len()
        invariant
            i <= def.extract@.len(),
            out@.len() == i,
            forall|j: int|
                0 <= j < i ==> is_right_value(def.extract@[j], body@, #[trigger] out@[j]),
        decreases def.extract@.len() - i,
    {
        out.push(run_extractor(&def.extract[i], body));
        i += 1;
    }
    out
}

/// The values of the variables whose rules gave one; of two rules for one variable the later
/// counts.
pub open spec fn values_in(
    extract: Seq<Extractor>,
    results: Seq<Result<Option<String>, ExtractError>>,
) -> Map<Seq<char>, Seq<char>>
    decreases results.len(),
{
    if results.len() == 0 {
        Map::empty()
    } else {
        let before = values_in(extract, results.drop_last());
        match results.last() {
            Ok(Some(v)) => before.insert(extract[results.len() - 1].var@, v@),
            _ => before,
        }
    }
}

/// Collects the values of the variables.
pub fn collect_values(
    extract: &Vec<Extractor>,
    results: &Vec<Result<Option<String>, ExtractError>>,
) -> (r: Table<String>)
    requires
        results@.len() == extract@.len(),
    ensures
        r.wf(),
        table::values_of(r) == values_in(extract@, results@),
        r.rows@.len() == 0 <==> table::values_of(r) == Map::<Seq<char>, Seq<char>>::empty(),
{
    let mut out: Table<String> = Table::new();
    let mut i: usize = 0;
    assert(results@.take(0) == Seq::<Result<Option<String>, ExtractError>>::empty());
    assert(table::values_of(out) =~= Map::<Seq<char>, Seq<char>>::empty());
    while i < results.len()
        invariant
            i <= results@.len(),
            results@.len() == extract@.len(),
            out.wf(),
            table::values_of(out) == values_in(extract@, results@.take(i as int)),
        decreases results@.len() - i,
    {
        let ghost before = table::values_of(out);
        assert(results@.take(i + 1).drop_last() == results@.take(i as int));
        assert(results@.take(i + 1).last() == results@[i as int]);
        match &results[i] {
            Ok(Some(v)) => {
                out.insert(extract[i].var.clone(), v.clone());
                assert(table::values_of(out) =~= before.insert(extract@[i as int].var@, v@));
            },
            _ => {},
        }
        i += 1;
    }
    assert(results@.take(i as int) == results@);
    proof {
        table::lemma_no_rows(out);
    }
    out
}

/// Only variables that the plugin names get a value.
pub proof fn law_only_named_variables(
    extract: Seq<Extractor>,
    results: Seq<Result<Option<String>, ExtractError>>,
    var: Seq<char>,
)
    requires
        results.len() <= extract.len(),
        values_in(extract, results).contains_key(var),
    ensures
        exists|i: int| 0 <= i < results.len() && (#[trigger] extract[i]).var@ == var,
    decreases results.len(),
{
    if values_in(extract, results.drop_last()).contains_key(var) {
        law_only_named_variables(extract, results.drop_last(), var);
    } else {
        assert(extract[results.len() - 1].var@ == var);
    }
}

/// A variable shows the value of the last of its rules that gave one; a rule that gave none takes
/// no value away.
pub proof fn law_last_value_counts(
    extract: Seq<Extractor>,
    results: Seq<Result<Option<String>, ExtractError>>,
    i: int,
    v: String,
)
    requires
        results.len() <= extract.len(),
        0 <= i < results.len(),
        results[i] == Ok::<Option<String>, ExtractError>(Some(v)),
        forall|j: int|
            i < j < results.len() ==> extract[j].var@ != extract[i].var@ || !(
            #[trigger] results[j] matches Ok(Some(_))),
    ensures
        values_in(extract, results).contains_key(extract[i].var@),
        values_in(extract, results)[extract[i].var@] == v@,
    decreases results.len(),
{
    if i < results.len() - 1 {
        let before = results.drop_last();
        assert forall|j: int| i < j < before.len() implies extract[j].var@ != extract[i].var@ || !(
        #[trigger] before[j] matches Ok(Some(_))) by {
            assert(before[j] == results[j]);
        }
        law_last_value_counts(extract, before, i, v);
        assert(results.last() == results[results.len() - 1]);
    }
}

/// Shows the values of a plugin; where there are none, what was shown before stays.
pub fn publish(app: &mut AppState, name: &str, values: Table<String>) -> (r: bool)
    requires
        old(app).wf(),
        values.wf(),
    ensures
        final(app).wf(),
        r == (values.rows@.len() > 0),
        final(app)@ == (if r {
            AppModel {
                plugins: old(app)@.plugins.insert(name@, table::values_of(values)),
                ..old(app)@
            }
        } else {
            old(app)@
        }),
{
    if values.rows.len() == 0 {
        return false;
    }
    table::insert_nested(&mut app.plugins, name.to_owned(), values);
    true
}

/// A hash of the bytes of a name.
pub open spec fn name_hash(bytes: Seq<u8>) -> u32
    decreases bytes.len(),
{
    if bytes.len() == 0 {
        0
    } else {
        name_hash(bytes.drop_last()).wrapping_mul(31).wrapping_add(bytes.last() as u32)
    }
}

/// A made-up number grows at this moment: about two times in five, apart for each name.
pub open spec fn grows(ns: u32, var: Seq<char>) -> bool {
    (ns ^ name_hash(encode_utf8(var)).wrapping_mul(2_654_435_761)) % 5 < 2
}

/// Where a made-up number starts.
pub open spec fn start_of(ns: u32, var: Seq<char>) -> i64 {
    let len = encode_utf8(var).len() as u32;
    ((ns % 300).wrapping_add(len.wrapping_mul(37)) % 400 + 100) as i64
}

/// A made-up number at this moment.
pub open spec fn next_number(
    sim: Map<Seq<char>, i64>,
    var: Seq<char>,
    start: i64,
    ns: u32,
) -> i64 {
    let n = if sim.contains_key(var) {
        sim[var]
    } else {
        start
    };
    if grows(ns, var) {
        n.wrapping_add(1)
    } else {
        n
    }
}

/// The made-up numbers, and the values that are shown.
pub struct SimView {
    pub numbers: Map<Seq<char>, i64>,
    pub values: Map<Seq<char>, Seq<char>>,
}

/// A variable that counts from `start` is shown.
pub open spec fn counted(s: SimView, var: Seq<char>, start: i64, ns: u32) -> SimView {
    let n = next_number(s.numbers, var, start, ns);
    SimView {
        numbers: s.numbers.insert(var, n),
        values: s.values.insert(var, text::signed_decimal(n as int)),
    }
}

/// The variables that the plugin gives a value for this are shown.
pub open spec fn with_mock(s: SimView, mock: Seq<(String, MockValue)>, ns: u32) -> SimView
    decreases mock.len(),
{
    if mock.len() == 0 {
        s
    } else {
        let before = with_mock(s, mock.drop_last(), ns);
        let var = mock.last().0@;
        match mock.last().1 {
            MockValue::Text(t) => SimView { values: before.values.insert(var, t@), ..before },
            MockValue::Number(n) => counted(before, var, n, ns),
        }
    }
}

/// The plugin gives a value for a variable.
pub open spec fn has_mock(mock: Seq<(String, MockValue)>, var: Seq<char>) -> bool {
    exists|i: int| 0 <= i < mock.len() && (#[trigger] mock[i]).0@ == var
}

/// The other variables are shown too.
pub open spec fn with_others(
    s: SimView,
    extract: Seq<Extractor>,
    mock: Seq<(String, MockValue)>,
    ns: u32,
) -> SimView
    decreases extract.len(),
{
    if extract.len() == 0 {
        s
    } else {
        let before = with_others(s, extract.drop_last(), mock, ns);
        let var = extract.last().var@;
        if has_mock(mock, var) {
            before
        } else {
            counted(before, var, start_of(ns, var), ns)
        }
    }
}

/// What a plugin shows at this moment while the program shows placeholder data: the values that it
/// gives for this, and where the configuration asks for it a number for every other variable.
pub open spec fn simulated(
    def: PluginDef,
    numbers: Map<Seq<char>, i64>,
    ns: u32,
    others: bool,
) -> SimView {
    let s = with_mock(SimView { numbers, values: Map::empty() }, def.mock@, ns);
    if others {
        with_others(s, def.extract@, def.mock@, ns)
    } else {
        s
    }
}

fn hash_of(var: &str) -> (r: u32)
    ensures
        r == name_hash(encode_utf8(var@)),
{
    let bytes = var.as_bytes();
    let mut h: u32 = 0;
    let mut i: usize = 0;
    assert(bytes@.take(0) == Seq::<u8>::empty());
    while i < bytes.len()
        invariant
            i <= bytes@.len(),
            h == name_hash(bytes@.take(i as int)),
        decreases bytes@.len() - i,
    {
        assert(bytes@.take(i + 1).drop_last() == bytes@.take(i as int));
        assert(bytes@.take(i + 1).last() == bytes@[i as int]);
        h = h.wrapping_mul(31).wrapping_add(bytes[i] as u32);
        i += 1;
    }
    assert(bytes@.take(i as int) == bytes@);
    h
}

fn count_on(
    numbers: &mut Table<i64>,
    values: &mut Table<String>,
    var: &str,
    start: i64,
    ns: u32,
)
    requires
        old(numbers).wf(),
        old(values).wf(),
    ensures
        final(numbers).wf(),
        final(values).wf(),
        (SimView { numbers: final(numbers)@, values: table::values_of(*final(values)) })
            == counted(
            SimView { numbers: old(numbers)@, values: table::values_of(*old(values)) },
            var@,
            start,
            ns,
        ),
{
    let ghost before = table::values_of(*values);
    let n: i64 = match numbers.get(var) {
        Some(x) => *x,
        None => start,
    };
    let n: i64 = if (ns ^ hash_of(var).wrapping_mul(2_654_435_761)) % 5 < 2 {
        n.wrapping_add(1)
    } else {
        n
    };
    numbers.insert(var.to_owned(), n);
    let shown = text::signed_decimal_text(n);
    values.insert(var.to_owned(), shown);
    assert(table::values_of(*values) =~= before.insert(var@, shown@));
}

fn mocked(mock: &Vec<(String, MockValue)>, var: &str) -> (r: bool)
    ensures
        r == has_mock(mock@, var@),
{
    let mut i: usize = 0;
    while i < mock.len()
        invariant
            i <= mock@.len(),
            forall|j: int| 0 <= j < i ==> (#[trigger] mock@[j]).0@ != var@,
        decreases mock@.len() - i,
    {
        if text::same(mock[i].0.as_str(), var) {
            assert(mock@[i as int].0@ == var@);
            return true;
        }
        i += 1;
    }
    false
}

/// Makes up what a plugin shows at this moment.
pub fn simulate(def: &PluginDef, numbers: &mut Table<i64>, ns: u32, others: bool) -> (r: Table<String>)
    requires
        old(numbers).wf(),
    ensures
        final(numbers).wf(),
        r.wf(),
        (SimView { numbers: final(numbers)@, values: table::values_of(r) }) == simulated(
            *def,
            old(numbers)@,
            ns,
            others,
        ),
{
    let mut values: Table<String> = Table::new();
    let ghost start = SimView { numbers: numbers@, values: Map::empty() };
    assert(table::values_of(values) =~= Map::<Seq<char>, Seq<char>>::empty());
    let mut i: usize = 0;
    assert(def.mock@.take(0) == Seq::<(String, MockValue)>::empty());
    while i < def.mock.len()
        invariant
            i <= def.mock@.len(),
            numbers.wf(),
            values.wf(),
            (SimView { numbers: numbers@, values: table::values_of(values) }) == with_mock(
                start,
                def.mock@.take(i as int),
                ns,
            ),
        decreases def.mock@.len() - i,
    {
        assert(def.mock@.take(i + 1).drop_last() == def.mock@.take(i as int));
        assert(def.mock@.take(i + 1).last() == def.mock@[i as int]);
        let ghost before = table::values_of(values);
        let var = def.mock[i].0.as_str();
        match &def.mock[i].1 {
            MockValue::Text(t) => {
                values.insert(var.to_owned(), t.clone());
                assert(table::values_of(values) =~= before.insert(var@, t@));
            },
            MockValue::Number(n) => {
                count_on(numbers, &mut values, var, *n, ns);
            },
        }
        i += 1;
    }
    assert(def.mock@.take(i as int) == def.mock@);
    if others {
        let ghost mid = SimView { numbers: numbers@, values: table::values_of(values) };
        let mut j: usize = 0;
        assert(def.extract@.take(0) == Seq::<Extractor>::empty());
        while j < def.extract.len()
            invariant
                j <= def.extract@.len(),
                numbers.wf(),
                values.wf(),
                (SimView { numbers: numbers@, values: table::values_of(values) }) == with_others(
                    mid,
                    def.extract@.take(j as int),
                    def.mock@,
                    ns,
                ),
            decreases def.extract@.len() - j,
        {
            assert(def.extract@.take(j + 1).drop_last() == def.extract@.take(j as int));
            assert(def.extract@.take(j + 1).last() == def.extract@[j as int]);
            let var = def.extract[j].var.as_str();
            if !mocked(&def.mock, var) {
                let len: u32 = text::byte_len(var) as u32;
                let first: u32 = (ns % 300).wrapping_add(len.wrapping_mul(37)) % 400 + 100;
                count_on(numbers, &mut values, var, first as i64, ns);
            }
            j += 1;
        }
        assert(def.extract@.take(j as int) == def.extract@);
    }
    values
}

/// A made-up number never falls, and grows by one at most from one moment to the next.
pub proof fn law_numbers_grow_slowly(
    sim: Map<Seq<char>, i64>,
    var: Seq<char>,
    start: i64,
    ns: u32,
)
    requires
        sim.contains_key(var),
        sim[var] < i64::MAX,
    ensures
        sim[var] <= next_number(sim, var, start, ns) <= sim[var] + 1,
{
}

/// A plugin that gives no values for this shows nothing, unless the configuration asks for made-up
/// numbers.
pub proof fn law_no_values_no_show(def: PluginDef, numbers: Map<Seq<char>, i64>, ns: u32)
    requires
        def.mock@.len() == 0,
    ensures
        simulated(def, numbers, ns, false).values == Map::<Seq<char>, Seq<char>>::empty(),
{
}

/// A made-up number starts between 100 and 499.
pub proof fn law_start_is_in_range(ns: u32, var: Seq<char>)
    ensures
        100 <= start_of(ns, var) <= 499,
{
}

/// A text that a plugin gives for placeholder data is shown as it is, and a number counts on from
/// where it stood, or from the number given, by one at most. Of two values for one variable the
/// last is shown.
pub proof fn law_given_values_are_shown(
    def: PluginDef,
    numbers: Map<Seq<char>, i64>,
    ns: u32,
    others: bool,
    i: int,
)
    requires
        0 <= i < def.mock@.len(),
        forall|j: int| i < j < def.mock@.len() ==> (#[trigger] def.mock@[j]).0@ != def.mock@[i].0@,
        forall|j: int| 0 <= j < i ==> (#[trigger] def.mock@[j]).0@ != def.mock@[i].0@,
    ensures
        ({
            let var = def.mock@[i].0@;
            let s = simulated(def, numbers, ns, others);
            &&& s.values.contains_key(var)
            &&& match def.mock@[i].1 {
                MockValue::Text(t) => s.values[var] == t@,
                MockValue::Number(n) => {
                    let from = if numbers.contains_key(var) {
                        numbers[var]
                    } else {
                        n
                    };
                    s.numbers.contains_key(var) && s.values[var] == text::signed_decimal(
                        s.numbers[var] as int,
                    ) && (from < i64::MAX ==> from <= s.numbers[var] <= from + 1)
                },
            }
        }),
{
    let var = def.mock@[i].0@;
    let start = SimView { numbers, values: Map::empty() };
    lemma_given(start, def.mock@, ns, i);
    assert(def.mock@[i].0@ == var);
    if others {
        let mid = with_mock(start, def.mock@, ns);
        lemma_others_keep(mid, def.extract@, def.mock@, ns, var);
    }
}

proof fn lemma_given(s: SimView, mock: Seq<(String, MockValue)>, ns: u32, i: int)
    requires
        0 <= i < mock.len(),
        forall|j: int| 0 <= j < mock.len() && j != i ==> (#[trigger] mock[j]).0@ != mock[i].0@,
    ensures
        ({
            let var = mock[i].0@;
            let r = with_mock(s, mock, ns);
            match mock[i].1 {
                MockValue::Text(t) => r.values.contains_key(var) && r.values[var] == t@,
                MockValue::Number(n) => {
                    let m = next_number(s.numbers, var, n, ns);
                    r.numbers.contains_key(var) && r.numbers[var] == m && r.values.contains_key(var)
                        && r.values[var] == text::signed_decimal(m as int)
                },
            }
        }),
    decreases mock.len(),
{
    let front = mock.drop_last();
    assert(mock.last() == mock[mock.len() - 1]);
    assert forall|j: int| 0 <= j < front.len() implies (#[trigger] front[j]) == mock[j] by {}
    if i < mock.len() - 1 {
        lemma_given(s, front, ns, i);
    } else {
        lemma_untouched(s, front, ns, mock[i].0@);
    }
}

proof fn lemma_untouched(s: SimView, mock: Seq<(String, MockValue)>, ns: u32, var: Seq<char>)
    requires
        forall|j: int| 0 <= j < mock.len() ==> (#[trigger] mock[j]).0@ != var,
    ensures
        with_mock(s, mock, ns).numbers.contains_key(var) == s.numbers.contains_key(var),
        with_mock(s, mock, ns).numbers[var] == s.numbers[var],
    decreases mock.len(),
{
    if mock.len() > 0 {
        let front = mock.drop_last();
        assert(mock.last() == mock[mock.len() - 1]);
        assert forall|j: int| 0 <= j < front.len() implies (#[trigger] front[j]).0@ != var by {
            assert(front[j] == mock[j]);
        }
        lemma_untouched(s, front, ns, var);
    }
}

proof fn lemma_others_keep(
    s: SimView,
    extract: Seq<Extractor>,
    mock: Seq<(String, MockValue)>,
    ns: u32,
    var: Seq<char>,
)
    requires
        has_mock(mock, var),
    ensures
        ({
            let r = with_others(s, extract, mock, ns);
            r.values.contains_key(var) == s.values.contains_key(var) && r.values[var]
                == s.values[var] && r.numbers.contains_key(var) == s.numbers.contains_key(var)
                && r.numbers[var] == s.numbers[var]
        }),
    decreases extract.len(),
{
    if extract.len() > 0 {
        lemma_others_keep(s, extract.drop_last(), mock, ns, var);
    }
}

/// Where the configuration asks for made-up numbers, every variable of a plugin shows something;
/// nothing else does.
pub proof fn law_every_variable_is_shown(
    def: PluginDef,
    numbers: Map<Seq<char>, i64>,
    ns: u32,
    var: Seq<char>,
)
    ensures
        simulated(def, numbers, ns, true).values.contains_key(var) <==> ((exists|i: int|
            0 <= i < def.mock@.len() && (#[trigger] def.mock@[i]).0@ == var) || (exists|i: int|
            0 <= i < def.extract@.len() && (#[trigger] def.extract@[i]).var@ == var)),
{
    let start = SimView { numbers, values: Map::empty() };
    lemma_shown(start, def.mock@, ns, var);
    lemma_others_shown(with_mock(start, def.mock@, ns), def.extract@, def.mock@, ns, var);
}

proof fn lemma_shown(s: SimView, mock: Seq<(String, MockValue)>, ns: u32, var: Seq<char>)
    ensures
        with_mock(s, mock, ns).values.contains_key(var) <==> (s.values.contains_key(var) || has_mock(
            mock,
            var,
        )),
    decreases mock.len(),
{
    if mock.len() > 0 {
        let front = mock.drop_last();
        lemma_shown(s, front, ns, var);
        assert(mock.last() == mock[mock.len() - 1]);
        if has_mock(mock, var) {
            let i = choose|i: int| 0 <= i < mock.len() && (#[trigger] mock[i]).0@ == var;
            if i < front.len() {
                assert(front[i].0@ == var);
            }
        }
        if has_mock(front, var) {
            let i = choose|i: int| 0 <= i < front.len() && (#[trigger] front[i]).0@ == var;
            assert(mock[i].0@ == var);
        }
    }
}

proof fn lemma_others_shown(
    s: SimView,
    extract: Seq<Extractor>,
    mock: Seq<(String, MockValue)>,
    ns: u32,
    var: Seq<char>,
)
    requires
        has_mock(mock, var) ==> s.values.contains_key(var),
    ensures
        with_others(s, extract, mock, ns).values.contains_key(var) <==> (s.values.contains_key(var)
            || exists|i: int| 0 <= i < extract.len() && (#[trigger] extract[i]).var@ == var),
    decreases extract.len(),
{
    if extract.len() > 0 {
        let front = extract.drop_last();
        lemma_others_shown(s, front, mock, ns, var);
        assert(extract.last() == extract[extract.len() - 1]);
        if exists|i: int| 0 <= i < extract.len() && (#[trigger] extract[i]).var@ == var {
            let i = choose|i: int| 0 <= i < extract.len() && (#[trigger] extract[i]).var@ == var;
            if i < front.len() {
                assert(front[i].var@ == var);
            }
        }
        if exists|i: int| 0 <= i < front.len() && (#[trigger] front[i]).var@ == var {
            let i = choose|i: int| 0 <= i < front.len() && (#[trigger] front[i]).var@ == var;
            assert(extract[i].var@ == var);
        }
    }
}

/// Of the moments, told apart for each variable, two in five let a number grow.
pub proof fn law_two_moments_in_five_grow(k: u32, var: Seq<char>)
    ensures
        grows(k ^ name_hash(encode_utf8(var)).wrapping_mul(2_654_435_761), var) <==> k % 5 < 2,
{
    let h = name_hash(encode_utf8(var)).wrapping_mul(2_654_435_761);
    assert((k ^ h) ^ h == k) by (bit_vector);
}

/// A number that was shown before counts on from there; another starts where it is told to.
pub proof fn law_number_counts_on(
    sim: Map<Seq<char>, i64>,
    var: Seq<char>,
    start: i64,
    ns: u32,
)
    requires
        sim.contains_key(var) ==> sim[var] < i64::MAX,
        start < i64::MAX,
    ensures
        sim.contains_key(var) && grows(ns, var) ==> next_number(sim, var, start, ns) == sim[var] + 1,
        sim.contains_key(var) && !grows(ns, var) ==> next_number(sim, var, start, ns) == sim[var],
        !sim.contains_key(var) && grows(ns, var) ==> next_number(sim, var, start, ns) == start + 1,
        !sim.contains_key(var) && !grows(ns, var) ==> next_number(sim, var, start, ns) == start,
{
}

/// A plugin is known exactly where one of that name was loaded.
pub proof fn law_plugins_are_known_by_name(defs: Seq<PluginDef>, d: PluginDef, name: Seq<char>)
    ensures
        is_known(defs.push(d), d.name@),
        name != d.name@ ==> (is_known(defs.push(d), name) <==> is_known(defs, name)),
        !is_known(Seq::empty(), name),
{
    let all = defs.push(d);
    assert(all[defs.len() as int].name@ == d.name@);
    if is_known(all, name) && name != d.name@ {
        let i = choose|i: int| 0 <= i < all.len() && (#[trigger] all[i]).name@ == name;
        assert(defs[i].name@ == name);
    }
    if is_known(defs, name) {
        let i = choose|i: int| 0 <= i < defs.len() && (#[trigger] defs[i]).name@ == name;
        assert(all[i].name@ == name);
    }
}

/// The larger of two numbers is one of them and not below either.
pub proof fn law_larger_of_two(a: u64, b: u64)
    ensures
        larger(a, b) >= a,
        larger(a, b) >= b,
        larger(a, b) == a || larger(a, b) == b,
{
}

} // verus!
