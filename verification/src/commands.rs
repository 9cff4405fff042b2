//! The command line's subcommands: their arguments and the decisions they
//! make between reading the user's data and printing the outcome.

use vstd::prelude::*;
use vstd::multiset::Multiset;
use crate::execution::{command_line, command_text, ExecutionContext};
use crate::session::{is_current, touched, SessionManager};
use crate::text::{
    chars_equal, chars_of, clip_bytes, clipped, concat_strs, contains_seq, decimal, decimal_string, first_line, first_line_of,
    join_seqs, join_strings, lemma_lex_lt_irreflexive, lemma_lex_lt_transitive, lex_lt, str_contains, str_less,
    string_from_chars, strip_prefixes, strip_prefixes_from, trim, trim_bounds, trim_str, utf8_len,
    is_boundary, views,
};

verus! {

/// Errors that the commands report to the user.
#[derive(Debug, Clone)]
pub enum InteractiveError {
    /// The commands directory could not be read.
    CommandDiscovery(String),
    /// An argument or a configuration value was not accepted.
    InvalidInput(String),
    /// No session has the given name or id.
    SessionNotFound(String),
}

/// The view of an optional string.
pub open spec fn opt_view(o: Option<String>) -> Option<Seq<char>> {
    match o {
        Some(s) => Some(s@),
        None => None,
    }
}

// ---------------------------------------------------------------- list

/// List available commands.
#[derive(Debug, Clone)]
pub struct ListCommand {
    /// Keep only the commands whose name contains this text.
    pub filter: Option<String>,
    /// Show descriptions and paths too.
    pub detailed: bool,
}

/// One command found in the commands directory.
#[derive(Debug, Clone)]
pub struct CommandEntry {
    /// The file name without its extension.
    pub name: String,
    /// The description taken from the file's first line.
    pub description: String,
    /// Where the file is.
    pub path: String,
}

/// Whether a command called `name` passes `filter`.
pub open spec fn passes_filter(filter: Option<Seq<char>>, name: Seq<char>) -> bool {
    match filter {
        None => true,
        Some(f) => contains_seq(name, f),
    }
}

/// The filter is a substring test: a name passes exactly when the filter
/// text occurs somewhere in it, at its start, its end or in between; with
/// no filter every name passes.
pub proof fn law_filter_finds_text_anywhere(f: Seq<char>, before: Seq<char>, after: Seq<char>, name: Seq<char>)
    ensures
        passes_filter(Some(f), before + f + after),
        passes_filter(Some(f), name) <==> exists|i: int|
            0 <= i <= name.len() - f.len() && #[trigger] name.subrange(i, i + f.len()) == f,
        passes_filter(None, name),
{
    let n = before + f + after;
    assert(n.subrange(before.len() as int, (before.len() + f.len()) as int) =~= f);
}

/// The entries of `s` that pass `filter`, counted with multiplicity.
pub open spec fn passing_entries(s: Seq<CommandEntry>, filter: Option<Seq<char>>) -> Multiset<
    CommandEntry,
>
    decreases s.len(),
{
    if s.len() == 0 {
        Multiset::empty()
    } else if passes_filter(filter, s.last().name@) {
        passing_entries(s.drop_last(), filter).insert(s.last())
    } else {
        passing_entries(s.drop_last(), filter)
    }
}

/// Whether the entries are in ascending order of name.
pub open spec fn sorted_by_name(s: Seq<CommandEntry>) -> bool {
    forall|i: int, j: int| 0 <= i < j < s.len() ==> !lex_lt(s[j].name@, s[i].name@)
}

/// The first position from `j` on whose name is greater than `name`
/// (`s.len()` when there is none).
pub open spec fn first_greater(s: Seq<CommandEntry>, name: Seq<char>, j: int) -> int
    decreases s.len() - j,
{
    if j < 0 || j >= s.len() {
        s.len() as int
    } else if lex_lt(name, s[j].name@) {
        j
    } else {
        first_greater(s, name, j + 1)
    }
}

/// The entries of `s` that pass `filter`, each put after every earlier one
/// whose name is not greater: sorted by name, equal names in the order
/// they come in `s`.
pub open spec fn listed_entries(s: Seq<CommandEntry>, filter: Option<Seq<char>>) -> Seq<CommandEntry>
    decreases s.len(),
{
    if s.len() == 0 {
        Seq::empty()
    } else {
        let r = listed_entries(s.drop_last(), filter);
        if passes_filter(filter, s.last().name@) {
            r.insert(first_greater(r, s.last().name@, 0), s.last())
        } else {
            r
        }
    }
}

/// The description shown for a command file: the first line of its content
/// with leading `#` and `//` markers and surrounding white space removed;
/// fixed texts for an empty file and for one that could not be read.
pub open spec fn description_text(content: Option<Seq<char>>) -> Seq<char> {
    match content {
        None => "Unable to read description"@,
        Some(c) => match first_line(c) {
            None => "No description available"@,
            Some(line) => trim(strip_prefixes(strip_prefixes(line, seq!['#']), seq!['/', '/'])),
        },
    }
}

/// The description of a command file whose content is `content` (`None`
/// when the file could not be read).
pub fn command_description(content: Option<&str>) -> (d: String)
    ensures
        d@ == description_text(opt_str_view(content)),
{
    match content {
        None => String::from_str("Unable to read description"),
        Some(c) => match first_line_of(c) {
            None => String::from_str("No description available"),
            Some(line) => {
                let v = chars_of(line.as_str());
                let mut hash: Vec<char> = Vec::new();
                hash.push('#');
                let a = strip_prefixes_from(&v, &hash);
                let rest = string_from_chars(&v, a, v.len());
                assert(v@.subrange(a as int, v.len() as int) =~= v@.skip(a as int));
                let w = chars_of(rest.as_str());
                let mut slashes: Vec<char> = Vec::new();
                slashes.push('/');
                slashes.push('/');
                assert(hash@ =~= seq!['#']);
                assert(slashes@ =~= seq!['/', '/']);
                let b = strip_prefixes_from(&w, &slashes);
                let rest2 = string_from_chars(&w, b, w.len());
                assert(w@.subrange(b as int, w.len() as int) =~= w@.skip(b as int));
                trim_str(rest2.as_str())
            },
        },
    }
}

/// The view of an optional string slice.
pub open spec fn opt_str_view(o: Option<&str>) -> Option<Seq<char>> {
    match o {
        Some(s) => Some(s@),
        None => None,
    }
}

impl ListCommand {
    /// The filter as a character sequence.
    pub open spec fn filter_view(&self) -> Option<Seq<char>> {
        opt_view(self.filter)
    }

    /// Whether a command called `name` is listed: always without a filter,
    /// else when the name contains the filter text.
    pub fn accepts(&self, name: &str) -> (b: bool)
        ensures
            b == passes_filter(self.filter_view(), name@),
    {
        match &self.filter {
            None => true,
            Some(f) => str_contains(name, f.as_str()),
        }
    }

    /// The commands to list out of those found: the ones that pass the
    /// filter, in ascending order of name (equal names keep the order in
    /// which they were found).
    pub fn select(&self, found: Vec<CommandEntry>) -> (listed: Vec<CommandEntry>)
        ensures
            listed@ == listed_entries(found@, self.filter_view()),
            sorted_by_name(listed@),
            listed@.to_multiset() == passing_entries(found@, self.filter_view()),
    {
        broadcast use vstd::seq_lib::group_to_multiset_ensures;

        let ghost orig = found@;
        let mut rest = found;
        let mut listed: Vec<CommandEntry> = Vec::new();
        let mut done: usize = 0;
        let total = rest.len();
        while rest.len() > 0
            invariant
                done + rest.len() == total,
                orig.len() == total,
                rest@ == orig.skip(done as int),
                sorted_by_name(listed@),
                listed@ == listed_entries(orig.take(done as int), self.filter_view()),
                listed@.to_multiset() == passing_entries(orig.take(done as int), self.filter_view()),
            decreases rest.len(),
        {
            let e = rest.remove(0);
            assert(e == orig[done as int]);
            assert(orig.take(done + 1).drop_last() =~= orig.take(done as int));
            assert(rest@ =~= orig.skip(done + 1));
            assert(orig.take(done + 1).last() == e);
            let ghost before = listed@;
            if self.accepts(e.name.as_str()) {
                let pos = insertion_point(&listed, e.name.as_str());
                proof {
                    let s = listed@.insert(pos as int, e);
                    assert forall|i: int, j: int| 0 <= i < j < s.len() implies !lex_lt(
                        #[trigger] s[j].name@,
                        #[trigger] s[i].name@,
                    ) by {
                        if j == pos {
                            assert(s[i] == listed@[i]);
                        } else if i == pos {
                            assert(s[j] == listed@[j - 1]);
                            if lex_lt(s[j].name@, e.name@) {
                                lemma_lex_lt_transitive(
                                    s[j].name@,
                                    e.name@,
                                    listed@[pos as int].name@,
                                );
                                if j - 1 == pos {
                                    lemma_lex_lt_irreflexive(listed@[pos as int].name@);
                                }
                            }
                        } else if j < pos {
                            assert(s[i] == listed@[i] && s[j] == listed@[j]);
                        } else if i < pos {
                            assert(s[i] == listed@[i] && s[j] == listed@[j - 1]);
                        } else {
                            assert(s[i] == listed@[i - 1] && s[j] == listed@[j - 1]);
                        }
                    }
                }
                listed.insert(pos, e);
                proof {
                    vstd::seq_lib::to_multiset_insert(before, pos as int, e);
                }
                assert(passing_entries(orig.take(done + 1), self.filter_view()) == passing_entries(
                    orig.take(done as int),
                    self.filter_view(),
                ).insert(e));
            } else {
                assert(passing_entries(orig.take(done + 1), self.filter_view()) == passing_entries(
                    orig.take(done as int),
                    self.filter_view(),
                ));
            }
            done += 1;
        }
        assert(orig.take(orig.len() as int) =~= orig);
        listed
    }

    /// The message shown when no command is listed; `commands_dir` is the
    /// commands directory as shown to the user.
    pub fn empty_message(&self, commands_dir: &str) -> (m: String)
        ensures
            match self.filter {
                Some(f) => m@ == "No commands found matching filter '"@ + f@ + "'"@,
                None => m@ == "No commands found in "@ + commands_dir@ + " directory"@,
            },
    {
        match &self.filter {
            Some(f) => {
                let mut m = concat_strs("No commands found matching filter '", f.as_str());
                m.append("'");
                m
            },
            None => {
                let mut m = concat_strs("No commands found in ", commands_dir);
                m.append(" directory");
                m
            },
        }
    }

    /// Whether the short listing ends with the usage tip: only when no
    /// filter was given.
    pub fn shows_tip(&self) -> (b: bool)
        ensures
            b == (!self.detailed && self.filter is None),
    {
        !self.detailed && self.filter.is_none()
    }
}

/// The position at which an entry called `name` goes into the sorted list
/// `listed` so that it follows every entry whose name is not greater.
pub fn insertion_point(listed: &Vec<CommandEntry>, name: &str) -> (pos: usize)
    requires
        sorted_by_name(listed@),
    ensures
        pos <= listed.len(),
        pos == first_greater(listed@, name@, 0),
        forall|i: int| 0 <= i < pos ==> !lex_lt(name@, #[trigger] listed@[i].name@),
        pos < listed.len() ==> lex_lt(name@, listed@[pos as int].name@),
{
    let mut pos: usize = 0;
    while pos < listed.len() && !str_less(name, listed[pos].name.as_str())
        invariant
            pos <= listed.len(),
            first_greater(listed@, name@, 0) == first_greater(listed@, name@, pos as int),
            forall|i: int| 0 <= i < pos ==> !lex_lt(name@, #[trigger] listed@[i].name@),
        decreases listed.len() - pos,
    {
        pos += 1;
    }
    pos
}

/// The heading of the short listing: `Available commands (<count>)`.
pub fn listing_header(count: usize) -> (h: String)
    ensures
        h@ == "Available commands ("@ + decimal(count as nat) + ")"@,
{
    let mut h = String::from_str("Available commands (");
    let n = decimal_string(count as u64);
    h.append(n.as_str());
    h.append(")");
    h
}

// ---------------------------------------------------------------- sessions

/// Session management actions.
#[derive(Debug, Clone)]
pub enum SessionAction {
    /// Create a new session.
    Create { name: String, description: Option<String> },
    /// Delete an existing session.
    Delete { session: String, force: bool },
    /// List all sessions.
    List { detailed: bool },
    /// Switch to a different session.
    Switch { session: String },
}

/// Whether a prompt answer confirms: `y` or `Y` once surrounding white space
/// is removed.
pub open spec fn confirms(answer: Seq<char>) -> bool {
    trim(answer) == seq!['y'] || trim(answer) == seq!['Y']
}

/// Whether the answer to a `[y/N]` prompt confirms the action
/// (`answer.trim().eq_ignore_ascii_case("y")`).
pub fn is_confirmed(answer: &str) -> (b: bool)
    ensures
        b == confirms(answer@),
{
    let v = chars_of(answer);
    let (a, z) = trim_bounds(&v);
    assert(trim(answer@) =~= v@.subrange(a as int, z as int));
    if z - a == 1 {
        let c = v[a];
        assert(trim(answer@) =~= seq![c]);
        assert(seq![c][0] == c && seq!['y'][0] == 'y' && seq!['Y'][0] == 'Y');
        c == 'y' || c == 'Y'
    } else {
        assert(seq!['y'].len() == 1 && seq!['Y'].len() == 1);
        false
    }
}

impl SessionAction {
    /// Whether the action asks the user before it goes ahead: only a delete
    /// without `force` does.
    pub fn needs_confirmation(&self) -> (b: bool)
        ensures
            b == (*self matches SessionAction::Delete { force: false, .. }),
    {
        match self {
            SessionAction::Delete { force, .. } => !*force,
            _ => false,
        }
    }
}

// ---------------------------------------------------------------- run

/// Run a command.
#[derive(Debug, Clone)]
pub struct RunCommand {
    /// Command name to execute.
    pub command: String,
    /// Command arguments.
    pub args: Vec<String>,
    /// Session to run in.
    pub session: Option<String>,
    /// Enable parallel execution.
    pub parallel: bool,
    /// Number of parallel agents.
    pub agents: usize,
}

/// Which session a run uses.
#[derive(Debug, Clone)]
pub enum SessionRequest {
    /// The session with this name; the run fails if there is none.
    Named(String),
    /// The current session, or a new one with this name and description
    /// when there is none.
    CurrentOrNew { name: String, description: String },
}

impl RunCommand {
    /// The session the run asks for.
    pub fn session_request(&self) -> (r: SessionRequest)
        ensures
            match self.session {
                Some(name) => r matches SessionRequest::Named(n) && n@ == name@,
                None => {
                    &&& r matches SessionRequest::CurrentOrNew { name, description }
                    &&& name@ == "default"@
                    &&& description@ == "Default session created automatically"@
                },
            },
    {
        match &self.session {
            Some(name) => SessionRequest::Named(name.clone()),
            None => SessionRequest::CurrentOrNew {
                name: String::from_str("default"),
                description: String::from_str("Default session created automatically"),
            },
        }
    }

    /// Whether the command runs on several agents at once: parallel mode
    /// with more than one agent.
    pub fn runs_in_parallel(&self) -> (b: bool)
        ensures
            b == (self.parallel && self.agents > 1),
    {
        self.parallel && self.agents > 1
    }

    /// The execution context of this run in session `session_id`.
    pub fn context(&self, session_id: u128) -> (c: ExecutionContext)
        ensures
            c.session_id == Some(session_id),
            c.command_name@ == self.command@,
            c.args@ == self.args@,
            c.parallel == self.parallel,
            c.agent_count == self.agents,
    {
        ExecutionContext {
            session_id: Some(session_id),
            command_name: self.command.clone(),
            args: clone_strings(&self.args),
            parallel: self.parallel,
            agent_count: self.agents,
        }
    }

    /// One context per agent for a parallel run.
    pub fn agent_contexts(&self, session_id: u128) -> (cs: Vec<ExecutionContext>)
        ensures
            cs.len() == self.agents,
            forall|i: int|
                0 <= i < cs.len() ==> {
                    &&& (#[trigger] cs@[i]).session_id == Some(session_id)
                    &&& cs@[i].command_name@ == self.command@
                    &&& cs@[i].args@ == self.args@
                    &&& cs@[i].parallel == self.parallel
                    &&& cs@[i].agent_count == self.agents
                },
    {
        let mut cs: Vec<ExecutionContext> = Vec::new();
        let mut k: usize = 0;
        while k < self.agents
            invariant
                k <= self.agents,
                cs.len() == k,
                forall|i: int|
                    0 <= i < cs.len() ==> {
                        &&& (#[trigger] cs@[i]).session_id == Some(session_id)
                        &&& cs@[i].command_name@ == self.command@
                        &&& cs@[i].args@ == self.args@
                        &&& cs@[i].parallel == self.parallel
                        &&& cs@[i].agent_count == self.agents
                    },
            decreases self.agents - k,
        {
            cs.push(self.context(session_id));
            k += 1;
        }
        cs
    }

    /// The line announcing a single run: `🚀 Running: <command> <args>`.
    pub fn running_message(&self) -> (m: String)
        ensures
            m@ == "🚀 Running: "@ + self.command@ + " "@ + join_seqs(views(self.args@), " "@),
    {
        let mut m = concat_strs("🚀 Running: ", self.command.as_str());
        m.append(" ");
        let a = join_strings(&self.args, " ");
        m.append(a.as_str());
        m
    }

    /// The line announcing a parallel run.
    pub fn parallel_message(&self) -> (m: String)
        ensures
            m@ == "🚀 Running "@ + self.command@ + " in parallel with "@ + decimal(
                self.agents as nat,
            ) + " agents"@,
    {
        let mut m = concat_strs("🚀 Running ", self.command.as_str());
        m.append(" in parallel with ");
        let n = decimal_string(self.agents as u64);
        m.append(n.as_str());
        m.append(" agents");
        m
    }
}

/// Finds the session a run uses. A named session must exist: it is found
/// by name and marked accessed, or the run fails with `SessionNotFound`.
/// Otherwise the current session is used; with no session at all, one is
/// created with the requested name and description, then marked accessed.
pub fn resolve_session(req: &SessionRequest, m: &mut SessionManager) -> (r: Result<u128, InteractiveError>)
    ensures
        final(m).spec_data_dir() == old(m).spec_data_dir(),
        match *req {
            SessionRequest::Named(n) => match r {
                Ok(id) => {
                    &&& old(m).view_map().contains_key(id)
                    &&& old(m).view_map()[id].name@ == n@
                    &&& exists|t: i64| final(m).view_map() == touched(old(m).view_map(), id, t)
                },
                Err(e) => {
                    &&& e matches InteractiveError::SessionNotFound(msg) && msg@ == n@
                    &&& final(m).view_map() == old(m).view_map()
                    &&& forall|id: u128| #[trigger] old(m).view_map().contains_key(id)
                        ==> old(m).view_map()[id].name@ != n@
                },
            },
            SessionRequest::CurrentOrNew { name, description } => match r {
                Ok(id) => if old(m).view_map().dom() != Set::<u128>::empty() {
                    &&& is_current(old(m).view_map(), id)
                    &&& final(m).view_map() == old(m).view_map()
                } else {
                    &&& final(m).view_map().dom() == set![id]
                    &&& final(m).view_map()[id].name@ == name@
                    &&& final(m).view_map()[id].description == Some(description)
                },
                Err(_) => false,
            },
        },
{
    match req {
        SessionRequest::Named(n) => {
            let found = match m.get_session_by_name(n.as_str()) {
                Some(s) => Some(s.id),
                None => None,
            };
            match found {
                Some(id) => Ok(id),
                None => Err(InteractiveError::SessionNotFound(n.clone())),
            }
        },
        SessionRequest::CurrentOrNew { name, description } => {
            match m.current_session_id() {
                Some(id) => Ok(id),
                None => {
                    let id = m.create_session(name.clone(), Some(description.clone()));
                    let ghost created = m.view_map();
                    let _ = m.get_session(id);
                    proof {
                        assert(created.dom() =~= set![id]);
                        let t = choose|t: i64| m.view_map() == touched(created, id, t);
                        assert(m.view_map().dom() =~= set![id]);
                    }
                    Ok(id)
                },
            }
        },
    }
}

/// A copy of a list of strings.
pub fn clone_strings(v: &Vec<String>) -> (c: Vec<String>)
    ensures
        c@ == v@,
{
    let mut c: Vec<String> = Vec::new();
    let mut i: usize = 0;
    while i < v.len()
        invariant
            i <= v.len(),
            c@ == v@.take(i as int),
        decreases v.len() - i,
    {
        c.push(v[i].clone());
        assert(c@ =~= v@.take(i + 1));
        i += 1;
    }
    assert(v@.take(v.len() as int) =~= v@);
    c
}

// ---------------------------------------------------------------- export

/// The file formats data can be exported in.
#[derive(Debug, Clone, Copy, PartialEq, Eq, Structural)]
pub enum ExportFormat {
    Json,
    Csv,
}

/// The export format named `name`, or `None` when the name is neither
/// `json` nor `csv`.
pub open spec fn export_format_named(name: Seq<char>) -> Option<ExportFormat> {
    if name == "json"@ {
        Some(ExportFormat::Json)
    } else if name == "csv"@ {
        Some(ExportFormat::Csv)
    } else {
        None
    }
}

/// The export format asked for with `--export`: `json` or `csv`; any other
/// name is refused.
pub fn parse_export_format(name: &str) -> (r: Result<ExportFormat, InteractiveError>)
    ensures
        match r {
            Ok(f) => export_format_named(name@) == Some(f),
            Err(e) => {
                &&& export_format_named(name@) is None
                &&& e matches InteractiveError::InvalidInput(m)
                &&& m@ == "Invalid export format. Use 'json' or 'csv'."@
            },
        },
{
    let v = chars_of(name);
    let json = chars_of("json");
    let csv = chars_of("csv");
    if chars_equal(&v, &json) {
        Ok(ExportFormat::Json)
    } else if chars_equal(&v, &csv) {
        Ok(ExportFormat::Csv)
    } else {
        Err(InteractiveError::InvalidInput(String::from_str("Invalid export format. Use 'json' or 'csv'.")))
    }
}

impl ExportFormat {
    /// The file cost data is exported to in this format.
    pub fn cost_file_name(&self) -> (n: &'static str)
        ensures
            *self == ExportFormat::Json ==> n@ == "cost_export.json"@,
            *self == ExportFormat::Csv ==> n@ == "cost_export.csv"@,
    {
        match self {
            ExportFormat::Json => "cost_export.json",
            ExportFormat::Csv => "cost_export.csv",
        }
    }

    /// The file history is exported to in this format.
    pub fn history_file_name(&self) -> (n: &'static str)
        ensures
            *self == ExportFormat::Json ==> n@ == "history_export.json"@,
            *self == ExportFormat::Csv ==> n@ == "history_export.csv"@,
    {
        match self {
            ExportFormat::Json => "history_export.json",
            ExportFormat::Csv => "history_export.csv",
        }
    }
}


// ---------------------------------------------------------------- cost

/// View cost information.
#[derive(Debug, Clone)]
pub struct CostCommand {
    /// Session to show costs for.
    pub session: Option<String>,
    /// Show a breakdown by command.
    pub breakdown: bool,
    /// Only costs from this day on (`YYYY-MM-DD`).
    pub since: Option<String>,
    /// Export format (`json` or `csv`).
    pub export: Option<String>,
}

/// A day of the proleptic Gregorian calendar.
#[derive(Debug, Clone, Copy, PartialEq, Eq, Structural)]
pub struct CalendarDate {
    pub year: i32,
    pub month: u32,
    pub day: u32,
}

/// The day that `chrono::NaiveDate::parse_from_str(s, "%Y-%m-%d")` reads
/// from `s`, if it reads one.
pub uninterp spec fn parsed_ymd(s: Seq<char>) -> Option<CalendarDate>;

/// `chrono::NaiveDate::parse_from_str(s, "%Y-%m-%d")`, the day it parses
/// taken apart into year, month and day. The result is named by `parsed_ymd`;
/// chrono only yields valid days, so month and day are in their ranges.
#[verifier::external_body]
fn parse_ymd(s: &str) -> (r: Option<CalendarDate>)
    ensures
        r == parsed_ymd(s@),
        r matches Some(d) ==> 1 <= d.month <= 12 && 1 <= d.day <= 31,
{
    match chrono::NaiveDate::parse_from_str(s, "%Y-%m-%d") {
        Ok(d) => Some(CalendarDate {
            year: chrono::Datelike::year(&d),
            month: chrono::Datelike::month(&d),
            day: chrono::Datelike::day(&d),
        }),
        Err(_) => None,
    }
}

/// The message for a `--since` value that is not a date.
pub open spec fn bad_date_message() -> Seq<char> {
    "Invalid date format. Please use YYYY-MM-DD format."@
}

/// The first day of the cost filter, from what parsing `--since` gave.
pub fn since_from_parsed(parsed: Option<CalendarDate>) -> (r: Result<CalendarDate, InteractiveError>)
    ensures
        match parsed {
            Some(d) => r == Ok::<CalendarDate, InteractiveError>(d),
            None => r matches Err(InteractiveError::InvalidInput(m)) && m@ == bad_date_message(),
        },
{
    match parsed {
        Some(d) => Ok(d),
        None => Err(InteractiveError::InvalidInput(String::from_str("Invalid date format. Please use YYYY-MM-DD format."))),
    }
}

/// How many commands the cost breakdown shows at most.
pub const BREAKDOWN_ROWS: usize = 20;

impl CostCommand {
    /// The first day whose costs are shown: none without `--since`, else
    /// the day given, which must be a `YYYY-MM-DD` date.
    pub fn since_date(&self) -> (r: Result<Option<CalendarDate>, InteractiveError>)
        ensures
            match self.since {
                None => r == Ok::<Option<CalendarDate>, InteractiveError>(None),
                Some(s) => match parsed_ymd(s@) {
                    Some(d) => r == Ok::<Option<CalendarDate>, InteractiveError>(Some(d)),
                    None => r matches Err(InteractiveError::InvalidInput(m)) && m@
                        == bad_date_message(),
                },
            },
    {
        match &self.since {
            None => Ok(None),
            Some(s) => match since_from_parsed(parse_ymd(s.as_str())) {
                Ok(d) => Ok(Some(d)),
                Err(e) => Err(e),
            },
        }
    }

    /// The export format asked for, if any.
    pub fn export_format(&self) -> (r: Result<Option<ExportFormat>, InteractiveError>)
        ensures
            match self.export {
                None => r == Ok::<Option<ExportFormat>, InteractiveError>(None),
                Some(name) => match export_format_named(name@) {
                    Some(f) => r == Ok::<Option<ExportFormat>, InteractiveError>(Some(f)),
                    None => r matches Err(InteractiveError::InvalidInput(m)) && m@
                        == "Invalid export format. Use 'json' or 'csv'."@,
                },
            },
    {
        optional_export_format(&self.export)
    }
}

/// The export format named by an optional `--export` value.
pub fn optional_export_format(export: &Option<String>) -> (r: Result<
    Option<ExportFormat>,
    InteractiveError,
>)
    ensures
        match *export {
            None => r == Ok::<Option<ExportFormat>, InteractiveError>(None),
            Some(name) => match export_format_named(name@) {
                Some(f) => r == Ok::<Option<ExportFormat>, InteractiveError>(Some(f)),
                None => r matches Err(InteractiveError::InvalidInput(m)) && m@
                    == "Invalid export format. Use 'json' or 'csv'."@,
            },
        },
{
    match export {
        None => Ok(None),
        Some(name) => match parse_export_format(name.as_str()) {
            Ok(f) => Ok(Some(f)),
            Err(e) => Err(e),
        },
    }
}

// ---------------------------------------------------------------- history

/// Search command history.
#[derive(Debug, Clone)]
pub struct HistoryCommand {
    /// Search pattern.
    pub search: Option<String>,
    /// Session to search in.
    pub session: Option<String>,
    /// Number of entries to show.
    pub limit: usize,
    /// Show command outputs.
    pub output: bool,
    /// Export format (`json` or `csv`).
    pub export: Option<String>,
}

/// What a history search looks for.
#[derive(Debug, Clone)]
pub struct HistoryQuery {
    /// The most entries returned.
    pub limit: usize,
    /// Text the command must contain.
    pub command_pattern: Option<String>,
    /// Text the output must contain.
    pub output_pattern: Option<String>,
    /// The session the entries belong to.
    pub session_id: Option<u128>,
}

impl HistoryCommand {
    /// The search this command makes in the session `session_id` (found
    /// from `--session`): the pattern applies to commands and outputs alike.
    pub fn query(&self, session_id: Option<u128>) -> (q: HistoryQuery)
        ensures
            q.limit == self.limit,
            opt_view(q.command_pattern) == opt_view(self.search),
            opt_view(q.output_pattern) == opt_view(self.search),
            q.session_id == session_id,
    {
        HistoryQuery {
            limit: self.limit,
            command_pattern: clone_opt(&self.search),
            output_pattern: clone_opt(&self.search),
            session_id,
        }
    }

    /// Whether the listing ends with the hint that more entries may exist:
    /// when exactly `limit` entries were shown.
    pub fn shows_more_hint(&self, shown: usize) -> (b: bool)
        ensures
            b == (shown == self.limit),
    {
        shown == self.limit
    }

    /// The export format asked for, if any.
    pub fn export_format(&self) -> (r: Result<Option<ExportFormat>, InteractiveError>)
        ensures
            match self.export {
                None => r == Ok::<Option<ExportFormat>, InteractiveError>(None),
                Some(name) => match export_format_named(name@) {
                    Some(f) => r == Ok::<Option<ExportFormat>, InteractiveError>(Some(f)),
                    None => r matches Err(InteractiveError::InvalidInput(m)) && m@
                        == "Invalid export format. Use 'json' or 'csv'."@,
                },
            },
    {
        optional_export_format(&self.export)
    }
}

/// A copy of an optional string.
pub fn clone_opt(o: &Option<String>) -> (c: Option<String>)
    ensures
        c == *o,
{
    match o {
        Some(s) => Some(s.clone()),
        None => None,
    }
}

/// The command column of the history table: the command and its
/// arguments, as they were run.
pub fn history_command_text(name: &str, args: &Vec<String>) -> (s: String)
    ensures
        s@ == command_text(name@, views(args@)),
{
    command_line(name, args)
}

/// The longest output shown in the history table, in bytes.
pub const OUTPUT_PREVIEW_BYTES: usize = 100;

/// The output column of the history table: the error when the command
/// failed, else the trimmed output cut to 100 bytes and marked with `...`
/// when longer; the cut must fall between characters.
pub fn output_preview(error: Option<&str>, output: &str) -> (p: String)
    requires
        error is None && utf8_len(trim(output@)) > 100 ==> is_boundary(trim(output@), 100),
    ensures
        match error {
            Some(e) => p@ == "Error: "@ + e@,
            None => utf8_len(trim(output@)) <= 100 ==> p@ == trim(output@),
        },
        error is None && utf8_len(trim(output@)) > 100 ==> exists|k: int|
            0 <= k <= trim(output@).len() && utf8_len(trim(output@).take(k)) == 100 && p@
                == trim(output@).take(k) + "..."@,
{
    match error {
        Some(e) => concat_strs("Error: ", e),
        None => {
            let t = trim_str(output);
            clip_bytes(t.as_str(), OUTPUT_PREVIEW_BYTES)
        },
    }
}

/// The duration column: the milliseconds followed by `ms`.
pub fn duration_text(ms: u64) -> (s: String)
    ensures
        s@ == decimal(ms as nat) + "ms"@,
{
    let mut s = decimal_string(ms);
    s.append("ms");
    s
}

/// The status column: a check mark for success, a cross for failure.
pub fn status_mark(success: bool) -> (m: &'static str)
    ensures
        success ==> m@ == "✓"@,
        !success ==> m@ == "✗"@,
{
    if success {
        "✓"
    } else {
        "✗"
    }
}

} // verus!
