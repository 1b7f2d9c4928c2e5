//! The corner table and the grammar of the configuration text that fills it.

use crate::corner::Corner;
use crate::text::{find_char, first_index, starts_with, to_chars, trim, trim_bounds};
use vstd::prelude::*;

verus! {

/// What one corner does: the command it runs and whether it is armed.
#[derive(Clone, Debug)]
pub struct CornerConfig {
    pub command: String,
    pub enabled: bool,
}

/// Mathematical value of a `CornerConfig`.
pub ghost struct SlotView {
    pub command: Seq<char>,
    pub enabled: bool,
}

impl View for CornerConfig {
    type V = SlotView;

    open spec fn view(&self) -> SlotView {
        SlotView { command: self.command@, enabled: self.enabled }
    }
}

/// `s` without one pair of surrounding double quotes, if it has one.
pub open spec fn strip_quotes(s: Seq<char>) -> Seq<char> {
    if s.len() >= 2 && s[0] == '"' && s.last() == '"' {
        s.subrange(1, s.len() - 1)
    } else {
        s
    }
}

/// Meaning of the text after a key: it splits at its first comma into a command
/// field and an enabled field; without a comma it defines nothing.
pub open spec fn parse_value(v: Seq<char>) -> Option<SlotView> {
    let i = first_index(v, ',');
    if 0 <= i < v.len() {
        Some(
            SlotView {
                command: strip_quotes(trim(v.subrange(0, i))),
                enabled: trim(v.subrange(i + 1, v.len() as int)) == seq!['1'],
            },
        )
    } else {
        None
    }
}

/// Parses `v[lo..hi]` as a value. On success returns the bounds of the command
/// inside `v` together with the enabled flag.
fn parse_value_span(v: &Vec<char>, lo: usize, hi: usize) -> (r: Option<(usize, usize, bool)>)
    requires
        lo <= hi <= v.len(),
    ensures
        match r {
            Some((a, b, enabled)) => lo <= a <= b <= hi && parse_value(
                v@.subrange(lo as int, hi as int),
            ) == Some(SlotView { command: v@.subrange(a as int, b as int), enabled }),
            None => parse_value(v@.subrange(lo as int, hi as int)) is None,
        },
{
    let ghost whole = v@.subrange(lo as int, hi as int);
    let comma = find_char(v, lo, hi, ',');
    if comma == hi {
        return None;
    }
    let (a, b) = trim_bounds(v, lo, comma);
    let (c, d) = trim_bounds(v, comma + 1, hi);
    assert(whole.subrange(0, comma - lo) =~= v@.subrange(lo as int, comma as int));
    assert(whole.subrange(comma - lo + 1, whole.len() as int) =~= v@.subrange(
        comma as int + 1,
        hi as int,
    ));
    let enabled = d - c == 1 && v[c] == '1';
    assert(enabled == (v@.subrange(c as int, d as int) == seq!['1'])) by {
        let f = v@.subrange(c as int, d as int);
        if enabled {
            assert(f =~= seq!['1']);
        } else if f == seq!['1'] {
            assert(f.len() == 1);
            assert(f[0] == '1');
        }
    }
    if b - a >= 2 && v[a] == '"' && v[b - 1] == '"' {
        assert(v@.subrange(a as int, b as int).subrange(1, b - a - 1) =~= v@.subrange(
            a as int + 1,
            b as int - 1,
        ));
        Some((a + 1, b - 1, enabled))
    } else {
        Some((a, b, enabled))
    }
}

/// Mathematical value of an optional slot.
pub open spec fn slot_view(slot: Option<CornerConfig>) -> Option<SlotView> {
    match slot {
        Some(c) => Some(c@),
        None => None,
    }
}

/// Parses the value part of a configuration entry, such as `"xterm",1`.
pub fn parse_config_line(line: &str) -> (r: Option<CornerConfig>)
    ensures
        slot_view(r) == parse_value(line@),
{
    let chars = to_chars(line);
    assert(chars@.subrange(0, chars@.len() as int) =~= line@);
    match parse_value_span(&chars, 0, chars.len()) {
        Some((a, b, enabled)) => {
            let command = line.substring_char(a, b).to_owned();
            Some(CornerConfig { command, enabled })
        },
        None => None,
    }
}

/// The four slots, one per corner. A table only exists complete.
#[derive(Clone, Debug)]
pub struct HCornerConfig {
    pub top_left: CornerConfig,
    pub top_right: CornerConfig,
    pub bottom_left: CornerConfig,
    pub bottom_right: CornerConfig,
}

/// Mathematical value of an `HCornerConfig`.
pub ghost struct TableView {
    pub top_left: SlotView,
    pub top_right: SlotView,
    pub bottom_left: SlotView,
    pub bottom_right: SlotView,
}

impl TableView {
    /// The slot of corner `c`.
    pub open spec fn slot(self, c: Corner) -> SlotView {
        match c {
            Corner::TopLeft => self.top_left,
            Corner::TopRight => self.top_right,
            Corner::BottomLeft => self.bottom_left,
            Corner::BottomRight => self.bottom_right,
        }
    }
}

impl View for HCornerConfig {
    type V = TableView;

    open spec fn view(&self) -> TableView {
        TableView {
            top_left: self.top_left@,
            top_right: self.top_right@,
            bottom_left: self.bottom_left@,
            bottom_right: self.bottom_right@,
        }
    }
}

impl HCornerConfig {
    /// The slot of corner `c`.
    pub fn slot(&self, c: Corner) -> (r: &CornerConfig)
        ensures
            r@ == self@.slot(c),
    {
        match c {
            Corner::TopLeft => &self.top_left,
            Corner::TopRight => &self.top_right,
            Corner::BottomLeft => &self.bottom_left,
            Corner::BottomRight => &self.bottom_right,
        }
    }
}

/// Why no corner table could be produced.
#[derive(Clone, Copy, Debug, PartialEq, Eq, Structural)]
pub enum ConfigError {
    /// The per-user configuration directory could not be determined.
    DirectoryUnavailable,
    /// The configuration file could not be read.
    ReadFailure,
    /// At least one corner is still undefined after the last line.
    Incomplete,
}

/// If the trimmed line `l` starts with a key, the corner it names and the text after the key.
pub open spec fn key_match(l: Seq<char>) -> Option<(Corner, Seq<char>)> {
    if "TOP_LEFT="@.is_prefix_of(l) {
        Some((Corner::TopLeft, l.skip("TOP_LEFT="@.len() as int)))
    } else if "LEFT_CORNER="@.is_prefix_of(l) {
        Some((Corner::TopLeft, l.skip("LEFT_CORNER="@.len() as int)))
    } else if "TOP_RIGHT="@.is_prefix_of(l) {
        Some((Corner::TopRight, l.skip("TOP_RIGHT="@.len() as int)))
    } else if "RIGHT_CORNER="@.is_prefix_of(l) {
        Some((Corner::TopRight, l.skip("RIGHT_CORNER="@.len() as int)))
    } else if "BOTTOM_LEFT="@.is_prefix_of(l) {
        Some((Corner::BottomLeft, l.skip("BOTTOM_LEFT="@.len() as int)))
    } else if "BOTTOM_RIGHT="@.is_prefix_of(l) {
        Some((Corner::BottomRight, l.skip("BOTTOM_RIGHT="@.len() as int)))
    } else {
        None
    }
}

/// Whether a line is blank or a comment once trimmed.
pub open spec fn is_ignored(line: Seq<char>) -> bool {
    let l = trim(line);
    l.len() == 0 || l[0] == '#'
}

/// What one line of the configuration text assigns: nothing, or a corner together
/// with the slot it receives (`None` when the value is malformed).
pub open spec fn line_entry(line: Seq<char>) -> Option<(Corner, Option<SlotView>)> {
    if is_ignored(line) {
        None
    } else {
        match key_match(trim(line)) {
            Some((c, value)) => Some((c, parse_value(value))),
            None => None,
        }
    }
}

/// The lines of a text: the pieces between newline characters.
pub open spec fn split_lines(s: Seq<char>) -> Seq<Seq<char>>
    decreases s.len(),
{
    let i = first_index(s, '\n');
    if 0 <= i < s.len() {
        seq![s.subrange(0, i)] + split_lines(s.subrange(i + 1, s.len() as int))
    } else {
        seq![s]
    }
}

/// The slot that `lines` leave corner `c` with: the one assigned by the last
/// line that names `c`, or `None` when no line does.
pub open spec fn slot_of(lines: Seq<Seq<char>>, c: Corner) -> Option<SlotView>
    decreases lines.len(),
{
    if lines.len() == 0 {
        None
    } else {
        match line_entry(lines.last()) {
            Some((k, slot)) if k == c => slot,
            _ => slot_of(lines.drop_last(), c),
        }
    }
}

/// The table that a sequence of lines defines.
pub open spec fn table_of_lines(lines: Seq<Seq<char>>) -> Result<TableView, ConfigError> {
    match (
        slot_of(lines, Corner::TopLeft),
        slot_of(lines, Corner::TopRight),
        slot_of(lines, Corner::BottomLeft),
        slot_of(lines, Corner::BottomRight),
    ) {
        (Some(top_left), Some(top_right), Some(bottom_left), Some(bottom_right)) => Ok(
            TableView { top_left, top_right, bottom_left, bottom_right },
        ),
        _ => Err(ConfigError::Incomplete),
    }
}

/// The table that a configuration text defines.
pub open spec fn table_of(text: Seq<char>) -> Result<TableView, ConfigError> {
    table_of_lines(split_lines(text))
}

/// Mathematical value of a load result.
pub open spec fn result_view(r: Result<HCornerConfig, ConfigError>) -> Result<
    TableView,
    ConfigError,
> {
    match r {
        Ok(t) => Ok(t@),
        Err(e) => Err(e),
    }
}

/// Where `v[lo..hi]` continues after `key`, if it starts with it.
fn after_key(v: &Vec<char>, lo: usize, hi: usize, key: &str) -> (r: Option<usize>)
    requires
        lo <= hi <= v.len(),
    ensures
        r is Some == key@.is_prefix_of(v@.subrange(lo as int, hi as int)),
        r matches Some(start) ==> lo <= start <= hi && start == lo + key@.len() && v@.subrange(
            start as int,
            hi as int,
        ) == v@.subrange(lo as int, hi as int).skip(key@.len() as int),
{
    if starts_with(v, lo, hi, key) {
        let start = lo + key.unicode_len();
        assert(v@.subrange(start as int, hi as int) =~= v@.subrange(lo as int, hi as int).skip(
            key@.len() as int,
        ));
        Some(start)
    } else {
        None
    }
}

/// Recognises the key at the start of `v[lo..hi]`.
fn match_key(v: &Vec<char>, lo: usize, hi: usize) -> (r: Option<(Corner, usize)>)
    requires
        lo <= hi <= v.len(),
    ensures
        match r {
            Some((c, start)) => lo <= start <= hi && key_match(v@.subrange(lo as int, hi as int))
                == Some((c, v@.subrange(start as int, hi as int))),
            None => key_match(v@.subrange(lo as int, hi as int)) is None,
        },
{
    if let Some(start) = after_key(v, lo, hi, "TOP_LEFT=") {
        Some((Corner::TopLeft, start))
    } else if let Some(start) = after_key(v, lo, hi, "LEFT_CORNER=") {
        Some((Corner::TopLeft, start))
    } else if let Some(start) = after_key(v, lo, hi, "TOP_RIGHT=") {
        Some((Corner::TopRight, start))
    } else if let Some(start) = after_key(v, lo, hi, "RIGHT_CORNER=") {
        Some((Corner::TopRight, start))
    } else if let Some(start) = after_key(v, lo, hi, "BOTTOM_LEFT=") {
        Some((Corner::BottomLeft, start))
    } else if let Some(start) = after_key(v, lo, hi, "BOTTOM_RIGHT=") {
        Some((Corner::BottomRight, start))
    } else {
        None
    }
}

/// A slot as bounds of its command inside the text, with its flag.
spec fn span_view(text: Seq<char>, span: Option<(usize, usize, bool)>) -> Option<
    SlotView,
> {
    match span {
        Some((a, b, enabled)) => Some(
            SlotView { command: text.subrange(a as int, b as int), enabled },
        ),
        None => None,
    }
}

/// Whether the bounds of a span lie inside a text of `len` characters.
spec fn span_within(span: Option<(usize, usize, bool)>, len: nat) -> bool {
    span matches Some((a, b, _)) ==> a <= b <= len
}

/// Reads the line `v[lo..hi]`.
fn read_line(v: &Vec<char>, lo: usize, hi: usize) -> (r: Option<
    (Corner, Option<(usize, usize, bool)>),
>)
    requires
        lo <= hi <= v.len(),
    ensures
        match r {
            Some((c, span)) => span_within(span, v@.len()) && line_entry(
                v@.subrange(lo as int, hi as int),
            ) == Some((c, span_view(v@, span))),
            None => line_entry(v@.subrange(lo as int, hi as int)) is None,
        },
{
    let (a, b) = trim_bounds(v, lo, hi);
    if a == b || v[a] == '#' {
        return None;
    }
    assert(v@.subrange(a as int, b as int)[0] == v@[a as int]);
    match match_key(v, a, b) {
        Some((c, start)) => Some((c, parse_value_span(v, start, b))),
        None => None,
    }
}

/// The owned slot for a span of `text`.
fn make_slot(text: &str, a: usize, b: usize, enabled: bool) -> (r: CornerConfig)
    requires
        a <= b <= text@.len(),
    ensures
        r@ == (SlotView { command: text@.subrange(a as int, b as int), enabled }),
{
    CornerConfig { command: text.substring_char(a, b).to_owned(), enabled }
}

/// Parses a whole configuration text into the corner table.
///
/// Every line is trimmed; blank lines and lines starting with `#` are skipped.
/// A line starting with a key assigns that key's corner, a later line
/// overriding an earlier one. The result is `Incomplete` exactly when some
/// corner is left without a slot.
pub fn parse_config(contents: &str) -> (r: Result<HCornerConfig, ConfigError>)
    ensures
        result_view(r) == table_of(contents@),
{
    let v = to_chars(contents);
    let n = v.len();
    let mut top_left: Option<(usize, usize, bool)> = None;
    let mut top_right: Option<(usize, usize, bool)> = None;
    let mut bottom_left: Option<(usize, usize, bool)> = None;
    let mut bottom_right: Option<(usize, usize, bool)> = None;
    let mut pos: usize = 0;
    let mut finished = false;
    let ghost mut done: Seq<Seq<char>> = Seq::empty();
    proof {
        assert(v@.subrange(0, n as int) =~= v@);
    }
    while !finished
        invariant
            v@ == contents@,
            n == v.len(),
            pos <= n,
            !finished ==> split_lines(v@) == done + split_lines(v@.subrange(pos as int, n as int)),
            finished ==> split_lines(v@) == done,
            span_within(top_left, v@.len()),
            span_within(top_right, v@.len()),
            span_within(bottom_left, v@.len()),
            span_within(bottom_right, v@.len()),
            span_view(v@, top_left) == slot_of(done, Corner::TopLeft),
            span_view(v@, top_right) == slot_of(done, Corner::TopRight),
            span_view(v@, bottom_left) == slot_of(done, Corner::BottomLeft),
            span_view(v@, bottom_right) == slot_of(done, Corner::BottomRight),
        decreases
                if finished {
                    0
                } else {
                    n - pos + 1
                },
    {
        let end = find_char(&v, pos, n, '\n');
        let ghost rest = v@.subrange(pos as int, n as int);
        let ghost line = v@.subrange(pos as int, end as int);
        let ghost grown = done.push(line);
        proof {
            assert(rest.subrange(0, end - pos) =~= line);
            assert(grown.last() == line);
            assert(grown.drop_last() =~= done);
        }
        match read_line(&v, pos, end) {
            Some((c, span)) => {
                match c {
                    Corner::TopLeft => {
                        top_left = span;
                    },
                    Corner::TopRight => {
                        top_right = span;
                    },
                    Corner::BottomLeft => {
                        bottom_left = span;
                    },
                    Corner::BottomRight => {
                        bottom_right = span;
                    },
                }
            },
            None => {},
        }
        proof {
            if end == n {
                assert(rest =~= line);
                assert(done + seq![rest] =~= grown);
            } else {
                assert(rest.subrange(end - pos + 1, rest.len() as int) =~= v@.subrange(
                    end as int + 1,
                    n as int,
                ));
                assert(done + (seq![line] + split_lines(v@.subrange(end as int + 1, n as int)))
                    =~= grown + split_lines(v@.subrange(end as int + 1, n as int)));
            }
            done = grown;
        }
        if end == n {
            finished = true;
        } else {
            pos = end + 1;
        }
    }
    match (top_left, top_right, bottom_left, bottom_right) {
        (Some(tl), Some(tr), Some(bl), Some(br)) => Ok(
            HCornerConfig {
                top_left: make_slot(contents, tl.0, tl.1, tl.2),
                top_right: make_slot(contents, tr.0, tr.1, tr.2),
                bottom_left: make_slot(contents, bl.0, bl.1, bl.2),
                bottom_right: make_slot(contents, br.0, br.1, br.2),
            },
        ),
        _ => Err(ConfigError::Incomplete),
    }
}

/// Name of the configuration file inside the per-user configuration directory.
pub const CONFIG_FILE_NAME: &'static str = "hcorner.conf";

/// What locating and reading the configuration file produced.
#[derive(Clone, Debug)]
pub enum ConfigSource {
    /// No per-user configuration directory is known.
    NoDirectory,
    /// The directory is known but the file in it could not be read.
    Unreadable,
    /// The contents of the file.
    Text(String),
}

/// The outcome that a configuration source determines.
pub open spec fn load_of(source: ConfigSource) -> Result<TableView, ConfigError> {
    match source {
        ConfigSource::NoDirectory => Err(ConfigError::DirectoryUnavailable),
        ConfigSource::Unreadable => Err(ConfigError::ReadFailure),
        ConfigSource::Text(text) => table_of(text@),
    }
}

/// Produces the corner table from what was found on disk, or the reason there is none.
pub fn load_config(source: &ConfigSource) -> (r: Result<HCornerConfig, ConfigError>)
    ensures
        result_view(r) == load_of(*source),
{
    match source {
        ConfigSource::NoDirectory => Err(ConfigError::DirectoryUnavailable),
        ConfigSource::Unreadable => Err(ConfigError::ReadFailure),
        ConfigSource::Text(text) => parse_config(text.as_str()),
    }
}

} // verus!
