//! Output styles, progress tracking, the formatter's settings, and messages
//! and agent output as shown without colours.

use vstd::prelude::*;
use std::collections::HashMap;
use crate::wrapping::{byte_len, char_views, lines_of, split_lines, wrap_text, wrapped};
use crate::text::{chars_of, decimal, decimal_string, join_seqs, join_strings, push_char, string_from_chars, utf8_len, views};

verus! {

/// Output formatting styles
#[derive(Debug, Clone, Copy, PartialEq, Eq, Structural)]
pub enum OutputStyle {
    Plain,
    Success,
    Error,
    Warning,
    Info,
    Debug,
    Header,
    Highlight,
}

/// The prefix symbol of each style.
pub open spec fn style_symbol(style: OutputStyle) -> Seq<char> {
    match style {
        OutputStyle::Plain => ""@,
        OutputStyle::Success => "✓"@,
        OutputStyle::Error => "✗"@,
        OutputStyle::Warning => "⚠"@,
        OutputStyle::Info => "ℹ"@,
        OutputStyle::Debug => "🐛"@,
        OutputStyle::Header => "📋"@,
        OutputStyle::Highlight => "→"@,
    }
}

/// The terminal colours the output uses.
#[derive(Debug, Clone, Copy, PartialEq, Eq, Structural)]
pub enum Color {
    White,
    Green,
    Red,
    Yellow,
    Blue,
    Magenta,
    Cyan,
    BrightWhite,
    BrightBlack,
}

/// The colour of each style.
pub open spec fn style_color(style: OutputStyle) -> Color {
    match style {
        OutputStyle::Plain => Color::White,
        OutputStyle::Success => Color::Green,
        OutputStyle::Error => Color::Red,
        OutputStyle::Warning => Color::Yellow,
        OutputStyle::Info => Color::Blue,
        OutputStyle::Debug => Color::Magenta,
        OutputStyle::Header => Color::Cyan,
        OutputStyle::Highlight => Color::BrightWhite,
    }
}

impl OutputStyle {
    /// Get the color associated with this style
    pub fn color(&self) -> (c: Color)
        ensures
            c == style_color(*self),
    {
        match self {
            Self::Plain => Color::White,
            Self::Success => Color::Green,
            Self::Error => Color::Red,
            Self::Warning => Color::Yellow,
            Self::Info => Color::Blue,
            Self::Debug => Color::Magenta,
            Self::Header => Color::Cyan,
            Self::Highlight => Color::BrightWhite,
        }
    }

    /// Get the prefix symbol for this style
    pub fn symbol(&self) -> (s: &'static str)
        ensures
            s@ == style_symbol(*self),
    {
        match self {
            Self::Plain => "",
            Self::Success => "✓",
            Self::Error => "✗",
            Self::Warning => "⚠",
            Self::Info => "ℹ",
            Self::Debug => "🐛",
            Self::Header => "📋",
            Self::Highlight => "→",
        }
    }
}

/// The style a success rate (in whole percent) is shown in: success from
/// 90, warning from 70, error below.
pub fn rate_style(success_rate: usize) -> (s: OutputStyle)
    ensures
        success_rate >= 90 ==> s == OutputStyle::Success,
        70 <= success_rate < 90 ==> s == OutputStyle::Warning,
        success_rate < 70 ==> s == OutputStyle::Error,
{
    if success_rate >= 90 {
        OutputStyle::Success
    } else if success_rate >= 70 {
        OutputStyle::Warning
    } else {
        OutputStyle::Error
    }
}

/// Configuration for output formatting.
#[derive(Debug, Clone, Copy, PartialEq, Eq, Structural)]
pub struct FormatterConfig {
    /// Whether to use colors in output.
    pub use_colors: bool,
    /// Whether to show timestamps.
    pub show_timestamps: bool,
    /// Whether to show agent IDs.
    pub show_agent_ids: bool,
    /// Maximum width for output lines.
    pub max_width: Option<usize>,
    /// Indentation level.
    pub indent_level: usize,
    /// Whether to show cost information.
    pub show_costs: bool,
}

/// The default settings: colours, timestamps, agent ids and costs shown,
/// lines up to 120 bytes, no indentation.
pub open spec fn default_formatter_config() -> FormatterConfig {
    FormatterConfig {
        use_colors: true,
        show_timestamps: true,
        show_agent_ids: true,
        max_width: Some(120),
        indent_level: 0,
        show_costs: true,
    }
}

impl Default for FormatterConfig {
    fn default() -> (c: Self)
        ensures
            c == default_formatter_config(),
    {
        FormatterConfig {
            use_colors: true,
            show_timestamps: true,
            show_agent_ids: true,
            max_width: Some(120),
            indent_level: 0,
            show_costs: true,
        }
    }
}

/// Progress of a long-running operation towards a total.
#[derive(Debug)]
pub struct ProgressIndicator {
    current: usize,
    total: usize,
    label: String,
    width: usize,
}

impl ProgressIndicator {
    /// The progress made.
    pub closed spec fn spec_current(&self) -> usize {
        self.current
    }

    /// The total to reach.
    pub closed spec fn spec_total(&self) -> usize {
        self.total
    }

    /// The label shown before the bar.
    pub closed spec fn spec_label(&self) -> Seq<char> {
        self.label@
    }

    /// The width of the bar in characters.
    pub closed spec fn spec_width(&self) -> usize {
        self.width
    }

    /// A progress indicator at zero with a bar of 50 characters.
    pub fn new(total: usize, label: String) -> (p: Self)
        ensures
            p.spec_current() == 0,
            p.spec_total() == total,
            p.spec_label() == label@,
            p.spec_width() == 50,
    {
        ProgressIndicator { current: 0, total, label, width: 50 }
    }

    /// Sets the progress made.
    pub fn update(&mut self, current: usize)
        ensures
            final(self).spec_current() == current,
            final(self).spec_total() == old(self).spec_total(),
            final(self).spec_label() == old(self).spec_label(),
            final(self).spec_width() == old(self).spec_width(),
    {
        self.current = current;
    }

    /// One step more, never beyond the total.
    pub fn increment(&mut self)
        ensures
            final(self).spec_current() == if old(self).spec_current() < old(self).spec_total() {
                old(self).spec_current() + 1
            } else {
                old(self).spec_current() as int
            },
            final(self).spec_total() == old(self).spec_total(),
            final(self).spec_label() == old(self).spec_label(),
            final(self).spec_width() == old(self).spec_width(),
    {
        if self.current < self.total {
            self.current += 1;
        }
    }

    /// Whether the total is reached.
    pub fn is_complete(&self) -> (b: bool)
        ensures
            b == (self.spec_current() >= self.spec_total()),
    {
        self.current >= self.total
    }

    /// The progress made.
    pub fn current(&self) -> (c: usize)
        ensures
            c == self.spec_current(),
    {
        self.current
    }

    /// The total to reach.
    pub fn total(&self) -> (t: usize)
        ensures
            t == self.spec_total(),
    {
        self.total
    }

    /// The label shown before the bar.
    pub fn label(&self) -> (l: &str)
        ensures
            l@ == self.spec_label(),
    {
        self.label.as_str()
    }

    /// The width of the bar.
    pub fn width(&self) -> (w: usize)
        ensures
            w == self.spec_width(),
    {
        self.width
    }
}

/// Incrementing never passes the total: from any progress at or below the
/// total, `n` increments reach `min(start + n, total)`.
pub proof fn law_increments_stop_at_total(start: nat, total: nat, n: nat)
    requires
        start <= total,
    ensures
        increments(start, total, n) == if start + n <= total { start + n } else { total },
    decreases n,
{
    if n > 0 {
        law_increments_stop_at_total(start, total, (n - 1) as nat);
    }
}

/// The progress after `n` increments from `start`.
pub open spec fn increments(start: nat, total: nat, n: nat) -> nat
    decreases n,
{
    if n == 0 {
        start
    } else {
        let before = increments(start, total, (n - 1) as nat);
        if before < total {
            before + 1
        } else {
            before
        }
    }
}

/// Formats command output: its settings, and the colour each agent's
/// output is shown in.
pub struct OutputFormatter {
    config: FormatterConfig,
    agent_colors: HashMap<usize, Color>,
}

impl OutputFormatter {
    /// The settings.
    pub closed spec fn spec_config(&self) -> FormatterConfig {
        self.config
    }

    /// The colour given to each agent so far.
    pub closed spec fn colors(&self) -> Map<usize, Color> {
        self.agent_colors@
    }

    /// A formatter with the default settings.
    pub fn new() -> (f: Self)
        ensures
            f.spec_config() == default_formatter_config(),
            f.colors() == Map::<usize, Color>::empty(),
    {
        OutputFormatter { config: FormatterConfig::default(), agent_colors: HashMap::new() }
    }

    /// A formatter with the given settings.
    pub fn with_config(config: FormatterConfig) -> (f: Self)
        ensures
            f.spec_config() == config,
            f.colors() == Map::<usize, Color>::empty(),
    {
        OutputFormatter { config, agent_colors: HashMap::new() }
    }

    /// The colour of `agent`'s output: the one it was given before, or
    /// `assigned`, which it keeps from now on.
    pub fn agent_color(&mut self, agent: usize, assigned: Color) -> (c: Color)
        ensures
            old(self).colors().contains_key(agent) ==> c == old(self).colors()[agent] && final(self).colors()
                == old(self).colors(),
            !old(self).colors().contains_key(agent) ==> c == assigned && final(self).colors()
                == old(self).colors().insert(agent, assigned),
            final(self).spec_config() == old(self).spec_config(),
    {
        broadcast use vstd::std_specs::hash::group_hash_axioms;
        match self.agent_colors.get(&agent) {
            Some(c) => *c,
            None => {
                self.agent_colors.insert(agent, assigned);
                assigned
            },
        }
    }

    /// `text` word-wrapped to `width` bytes (see `wrap_text`).
    pub fn wrap_text(&self, text: &str, width: usize) -> (r: String)
        ensures
            r@ == wrapped(text@, width as nat),
    {
        wrap_text(text, width)
    }

    /// A progress indicator for an operation of `total` steps.
    pub fn create_progress(&self, total: usize, label: &str) -> (p: ProgressIndicator)
        ensures
            p.spec_current() == 0,
            p.spec_total() == total,
            p.spec_label() == label@,
            p.spec_width() == 50,
    {
        ProgressIndicator::new(total, String::from_str(label))
    }

    /// The settings.
    pub fn config(&self) -> (c: &FormatterConfig)
        ensures
            *c == self.spec_config(),
    {
        &self.config
    }

    /// Replaces the settings.
    pub fn set_config(&mut self, config: FormatterConfig)
        ensures
            final(self).spec_config() == config,
            final(self).colors() == old(self).colors(),
    {
        self.config = config;
    }

    /// Forgets the colours given to agents.
    pub fn reset_agent_colors(&mut self)
        ensures
            final(self).colors() == Map::<usize, Color>::empty(),
            final(self).spec_config() == old(self).spec_config(),
    {
        self.agent_colors.clear();
    }
}

/// `n` spaces.
pub open spec fn spaces(n: nat) -> Seq<char> {
    Seq::new(n, |i: int| ' ')
}

/// The start of a message shown without colours: two spaces per level of
/// indentation, the time in brackets when timestamps are shown, and the
/// style's symbol and a space when the style has one.
pub open spec fn plain_prefix(config: FormatterConfig, timestamp: Seq<char>, style: OutputStyle) -> Seq<char> {
    spaces(2 * config.indent_level as nat) + (if config.show_timestamps {
        "["@ + timestamp + "] "@
    } else {
        Seq::<char>::empty()
    }) + (if style_symbol(style).len() > 0 {
        style_symbol(style) + " "@
    } else {
        Seq::<char>::empty()
    })
}

/// A message shown without colours: the prefix, then the message wrapped to
/// the width the prefix leaves, when a width is set.
pub open spec fn plain_message_text(
    config: FormatterConfig,
    timestamp: Seq<char>,
    message: Seq<char>,
    style: OutputStyle,
) -> Seq<char> {
    let prefix = plain_prefix(config, timestamp, style);
    prefix + match config.max_width {
        Some(w) => wrapped(message, (w - utf8_len(prefix)) as nat),
        None => message,
    }
}

impl OutputFormatter {
    /// `message` in `style` as shown without colours, `timestamp` being the
    /// time text shown when timestamps are on. The indentation must fit a
    /// `usize`, and so must the width left after the prefix.
    pub fn plain_message(&self, timestamp: &str, message: &str, style: OutputStyle) -> (m: String)
        requires
            2 * self.spec_config().indent_level <= usize::MAX,
            self.spec_config().max_width matches Some(w) ==> utf8_len(
                plain_prefix(self.spec_config(), timestamp@, style),
            ) <= w,
        ensures
            m@ == plain_message_text(self.spec_config(), timestamp@, message@, style),
    {
        let config = self.config;
        let mut m = String::new();
        let n = 2 * config.indent_level;
        let mut i: usize = 0;
        while i < n
            invariant
                i <= n,
                m@ == spaces(i as nat),
            decreases n - i,
        {
            push_char(&mut m, ' ');
            assert(m@ =~= spaces((i + 1) as nat));
            i += 1;
        }
        let ghost indent = m@;
        if config.show_timestamps {
            m.append("[");
            m.append(timestamp);
            m.append("] ");
        }
        let ghost stamped = m@;
        let symbol = style.symbol();
        let sv = chars_of(symbol);
        if sv.len() > 0 {
            m.append(symbol);
            m.append(" ");
        }
        proof {
            if config.show_timestamps {
                assert(stamped =~= indent + ("["@ + timestamp@ + "] "@));
            } else {
                assert(stamped =~= indent + Seq::<char>::empty());
            }
            if sv.len() > 0 {
                assert(m@ =~= stamped + (style_symbol(style) + " "@));
            } else {
                assert(m@ =~= stamped + Seq::<char>::empty());
            }
        }
        let ghost prefix = m@;
        match config.max_width {
            Some(w) => {
                let pv = chars_of(m.as_str());
                let plen = byte_len(&pv);
                let left = (w as u128 - plen) as usize;
                let content = wrap_text(message, left);
                m.append(content.as_str());
            },
            None => {
                m.append(message);
            },
        }
        m
    }
}

/// The start of each line of an agent's output shown without colours: the
/// indentation, the time in brackets when timestamps are shown, and
/// `[Agent <id>] ` when agent ids are shown.
pub open spec fn agent_prefix(config: FormatterConfig, timestamp: Seq<char>, agent_id: usize) -> Seq<char> {
    spaces(2 * config.indent_level as nat) + (if config.show_timestamps {
        "["@ + timestamp + "] "@
    } else {
        Seq::<char>::empty()
    }) + (if config.show_agent_ids {
        "[Agent "@ + decimal(agent_id as nat) + "] "@
    } else {
        Seq::<char>::empty()
    })
}

/// The lines of an agent's output, each after the prefix, joined by
/// `'\n'`.
pub open spec fn agent_output_text(config: FormatterConfig, timestamp: Seq<char>, output: Seq<char>, agent_id: usize) -> Seq<char> {
    join_seqs(
        lines_of(output).map_values(|l: Seq<char>| agent_prefix(config, timestamp, agent_id) + l),
        "\n"@,
    )
}

impl OutputFormatter {
    /// An agent's output as shown without colours, each line marked with
    /// the agent; the agent keeps the colour it was given, or gets
    /// `assigned`. `timestamp` is the time text. The indentation must fit
    /// a `usize`.
    pub fn plain_agent_output(&mut self, timestamp: &str, output: &str, agent_id: usize, assigned: Color) -> (r: String)
        requires
            2 * old(self).spec_config().indent_level <= usize::MAX,
        ensures
            r@ == agent_output_text(old(self).spec_config(), timestamp@, output@, agent_id),
            old(self).colors().contains_key(agent_id) ==> final(self).colors() == old(self).colors(),
            !old(self).colors().contains_key(agent_id) ==> final(self).colors() == old(self).colors().insert(
                agent_id,
                assigned,
            ),
            final(self).spec_config() == old(self).spec_config(),
    {
        self.agent_color(agent_id, assigned);
        let config = self.config;
        let mut prefix = String::new();
        let n = 2 * config.indent_level;
        let mut i: usize = 0;
        while i < n
            invariant
                i <= n,
                prefix@ == spaces(i as nat),
            decreases n - i,
        {
            push_char(&mut prefix, ' ');
            assert(prefix@ =~= spaces((i + 1) as nat));
            i += 1;
        }
        let ghost indent = prefix@;
        if config.show_timestamps {
            prefix.append("[");
            prefix.append(timestamp);
            prefix.append("] ");
        }
        let ghost stamped = prefix@;
        if config.show_agent_ids {
            prefix.append("[Agent ");
            let id = decimal_string(agent_id as u64);
            prefix.append(id.as_str());
            prefix.append("] ");
        }
        proof {
            if config.show_timestamps {
                assert(stamped =~= indent + ("["@ + timestamp@ + "] "@));
            } else {
                assert(stamped =~= indent + Seq::<char>::empty());
            }
            if config.show_agent_ids {
                assert(prefix@ =~= stamped + ("[Agent "@ + decimal(agent_id as nat) + "] "@));
            } else {
                assert(prefix@ =~= stamped + Seq::<char>::empty());
            }
        }
        let v = chars_of(output);
        let lines = split_lines(&v);
        let ghost ls = char_views(lines@);
        let ghost p = prefix@;
        let mut out: Vec<String> = Vec::new();
        let mut k: usize = 0;
        while k < lines.len()
            invariant
                ls == char_views(lines@),
                p == prefix@,
                k <= lines.len(),
                views(out@) == ls.take(k as int).map_values(|l: Seq<char>| p + l),
            decreases lines.len() - k,
        {
            let mut line = String::new();
            line.append(prefix.as_str());
            let body = string_from_chars(&lines[k], 0, lines[k].len());
            line.append(body.as_str());
            let ghost before = views(out@);
            out.push(line);
            proof {
                assert(lines[k as int]@.subrange(0, lines[k as int]@.len() as int) =~= lines[k as int]@);
                assert(ls[k as int] == lines[k as int]@);
                assert(views(out@) =~= before.push(p + ls[k as int]));
                assert(ls.take(k + 1).map_values(|l: Seq<char>| p + l) =~= ls.take(k as int).map_values(
                    |l: Seq<char>| p + l,
                ).push(p + ls[k as int]));
            }
            k += 1;
        }
        assert(ls.take(ls.len() as int) =~= ls);
        join_strings(&out, "\n")
    }
}

impl Default for OutputFormatter {
    fn default() -> (f: Self)
        ensures
            f.spec_config() == default_formatter_config(),
            f.colors() == Map::<usize, Color>::empty(),
    {
        OutputFormatter::new()
    }
}

} // verus!
