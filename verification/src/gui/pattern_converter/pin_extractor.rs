//! Pin tables from engineers' files: column roles, delimiters, pin
//! directions, and the pin/signal pairs of datasheet text.
//!
//! Voltages stay text here: a channel or supply keeps the text of its
//! voltage cell, and the front end reads it as a number.

use vstd::prelude::*;
use crate::text::{
    all_ascii, chars_of, dec_chars, eq_lower, eq_str, int_chars, lines, push_decimal, push_int, push_str, split_lines, is_alnum, is_alpha, is_digit, is_whitespace, is_ws, lower_seq, parse_i32,
    parse_signed, slice_range, split_words, starts_with, str_to_lowercase, string_from_chars,
    to_lowercase_string, trim, trimmed, words,
};

verus! {

// -----------------------------------------------------------------------------
// Records
// -----------------------------------------------------------------------------

/// One pin of an extracted table.
#[derive(Debug, Clone)]
pub struct ExtractedChannel {
    pub signal_name: String,
    pub channel: i32,
    /// `IO`, `Input` or `Output`.
    pub direction: String,
    /// The text of the voltage cell, when the table has one.
    pub voltage: Option<String>,
    pub group: Option<String>,
}

/// A supply of an extracted table.
#[derive(Debug, Clone)]
pub struct ExtractedSupply {
    pub core_name: String,
    /// The text of the voltage cell, when the table has one.
    pub voltage: Option<String>,
    pub sequence_order: i32,
    /// The text of the ramp delay cell (ms), when the table has one.
    pub ramp_delay_ms: Option<String>,
}

/// A pin table as extracted, before the front end reads its voltages.
#[derive(Debug, Clone)]
pub struct ExtractedPinTable {
    pub device_name: String,
    /// `csv`, `xlsx` or `pdf`.
    pub source_format: String,
    pub channels: Vec<ExtractedChannel>,
    pub supplies: Vec<ExtractedSupply>,
    pub warnings: Vec<String>,
}

/// A difference between two tables for one signal.
#[derive(Debug, Clone)]
pub struct PinMismatch {
    pub signal_name: String,
    /// `channel`, `direction`, `voltage` or `missing`.
    pub field: String,
    pub primary_value: String,
    pub secondary_value: String,
}

// -----------------------------------------------------------------------------
// Column roles, delimiters, directions
// -----------------------------------------------------------------------------

/// What a column of a pin table holds.
#[derive(Debug, Clone, Copy, PartialEq, Eq, Structural)]
pub enum ColRole {
    Signal,
    Channel,
    Direction,
    Voltage,
    Group,
    CoreName,
    Sequence,
    RampDelay,
    Unknown,
}

/// The role a (lower-cased, trimmed) header names.
pub open spec fn role_of(h: Seq<char>) -> ColRole {
    if h == "signal"@ || h == "signal_name"@ || h == "pin_name"@ || h == "net"@ || h == "net_name"@
        || h == "name"@ || h == "pin"@ {
        ColRole::Signal
    } else if h == "channel"@ || h == "ch"@ || h == "gpio"@ || h == "pin_number"@ || h == "pin_num"@
        || h == "pin_no"@ || h == "number"@ {
        ColRole::Channel
    } else if h == "direction"@ || h == "dir"@ || h == "type"@ || h == "io"@ || h == "io_type"@
        || h == "pin_type"@ {
        ColRole::Direction
    } else if h == "voltage"@ || h == "v"@ || h == "vcc"@ || h == "level"@ || h == "bank_voltage"@
        || h == "io_voltage"@ {
        ColRole::Voltage
    } else if h == "group"@ || h == "bank"@ || h == "bus"@ || h == "interface"@ {
        ColRole::Group
    } else if h == "core"@ || h == "core_name"@ || h == "supply"@ || h == "rail"@ {
        ColRole::CoreName
    } else if h == "sequence"@ || h == "sequence_order"@ || h == "order"@ || h == "seq"@ {
        ColRole::Sequence
    } else if h == "ramp"@ || h == "ramp_delay"@ || h == "ramp_delay_ms"@ || h == "delay"@
        || h == "ramp_ms"@ {
        ColRole::RampDelay
    } else {
        ColRole::Unknown
    }
}

/// The role of a column, from its header: lower-cased, then trimmed.
pub fn classify_column(header: &str) -> (r: ColRole)
    ensures
        r == role_of(trim(str_to_lowercase(header@))),
{
    let l = to_lowercase_string(header);
    let lv = chars_of(l.as_str());
    let h = trimmed(lv.as_slice());
    let t = h.as_slice();
    if eq_str(t, "signal") || eq_str(t, "signal_name") || eq_str(t, "pin_name") || eq_str(t, "net")
        || eq_str(t, "net_name") || eq_str(t, "name") || eq_str(t, "pin") {
        ColRole::Signal
    } else if eq_str(t, "channel") || eq_str(t, "ch") || eq_str(t, "gpio") || eq_str(t, "pin_number")
        || eq_str(t, "pin_num") || eq_str(t, "pin_no") || eq_str(t, "number") {
        ColRole::Channel
    } else if eq_str(t, "direction") || eq_str(t, "dir") || eq_str(t, "type") || eq_str(t, "io")
        || eq_str(t, "io_type") || eq_str(t, "pin_type") {
        ColRole::Direction
    } else if eq_str(t, "voltage") || eq_str(t, "v") || eq_str(t, "vcc") || eq_str(t, "level")
        || eq_str(t, "bank_voltage") || eq_str(t, "io_voltage") {
        ColRole::Voltage
    } else if eq_str(t, "group") || eq_str(t, "bank") || eq_str(t, "bus") || eq_str(t, "interface") {
        ColRole::Group
    } else if eq_str(t, "core") || eq_str(t, "core_name") || eq_str(t, "supply") || eq_str(t, "rail") {
        ColRole::CoreName
    } else if eq_str(t, "sequence") || eq_str(t, "sequence_order") || eq_str(t, "order") || eq_str(t, "seq") {
        ColRole::Sequence
    } else if eq_str(t, "ramp") || eq_str(t, "ramp_delay") || eq_str(t, "ramp_delay_ms") || eq_str(t, "delay")
        || eq_str(t, "ramp_ms") {
        ColRole::RampDelay
    } else {
        ColRole::Unknown
    }
}

/// How many times `c` occurs in `s`.
pub open spec fn count_of(s: Seq<char>, c: char) -> nat
    decreases s.len(),
{
    if s.len() == 0 {
        0
    } else {
        count_of(s.drop_last(), c) + if s.last() == c { 1nat } else { 0nat }
    }
}

/// The delimiter a line uses: tab when tabs are at least as many as commas
/// and semicolons (and there are some), else semicolon when there are more
/// of them than commas, else comma.
pub open spec fn delimiter_of(line: Seq<char>) -> u8 {
    let commas = count_of(line, ',');
    let tabs = count_of(line, '\t');
    let semis = count_of(line, ';');
    if tabs >= commas && tabs >= semis && tabs > 0 {
        9
    } else if semis > commas && semis > 0 {
        59
    } else {
        44
    }
}

/// The field delimiter of a delimited text line (as a byte).
pub fn detect_delimiter(line: &str) -> (r: u8)
    ensures
        r == delimiter_of(line@),
{
    let v = chars_of(line);
    let mut commas: usize = 0;
    let mut tabs: usize = 0;
    let mut semis: usize = 0;
    let mut i: usize = 0;
    while i < v.len()
        invariant
            i <= v@.len(),
            v@ == line@,
            commas == count_of(v@.take(i as int), ','),
            tabs == count_of(v@.take(i as int), '\t'),
            semis == count_of(v@.take(i as int), ';'),
            commas <= i && tabs <= i && semis <= i,
        decreases v.len() - i,
    {
        assert(v@.take(i + 1).drop_last() =~= v@.take(i as int));
        if v[i] == ',' {
            commas = commas + 1;
        } else if v[i] == '\t' {
            tabs = tabs + 1;
        } else if v[i] == ';' {
            semis = semis + 1;
        }
        i = i + 1;
    }
    assert(v@.take(v@.len() as int) =~= v@);
    if tabs >= commas && tabs >= semis && tabs > 0 {
        9
    } else if semis > commas && semis > 0 {
        59
    } else {
        44
    }
}

/// The direction a (trimmed, lower-cased) cell names; anything unknown is
/// bidirectional.
pub open spec fn direction_of(d: Seq<char>) -> Seq<char> {
    if d == "io"@ || d == "bi"@ || d == "bidirectional"@ || d == "bidir"@ || d == "inout"@ || d == "0"@ {
        "IO"@
    } else if d == "in"@ || d == "input"@ || d == "i"@ || d == "1"@ {
        "Input"@
    } else if d == "out"@ || d == "output"@ || d == "o"@ || d == "2"@ {
        "Output"@
    } else {
        "IO"@
    }
}

/// The words of each direction: a cell naming an output (`out`, `output`,
/// `o`, `2`) reads as `Output`, one naming an input (`in`, `input`, `i`,
/// `1`) as `Input`, and every cell reads as one of `IO`, `Input` and
/// `Output`; `Output` comes only from an output word and `Input` only from
/// an input word.
pub proof fn lemma_direction_words(d: Seq<char>)
    ensures
        (d == "out"@ || d == "output"@ || d == "o"@ || d == "2"@) ==> direction_of(d) == "Output"@,
        (d == "in"@ || d == "input"@ || d == "i"@ || d == "1"@) ==> direction_of(d) == "Input"@,
        direction_of(d) == "Output"@ ==> (d == "out"@ || d == "output"@ || d == "o"@ || d == "2"@),
        direction_of(d) == "Input"@ ==> (d == "in"@ || d == "input"@ || d == "i"@ || d == "1"@),
        direction_of(d) == "IO"@ || direction_of(d) == "Input"@ || direction_of(d) == "Output"@,
{
    reveal_strlit("io");
    reveal_strlit("bi");
    reveal_strlit("bidirectional");
    reveal_strlit("bidir");
    reveal_strlit("inout");
    reveal_strlit("0");
    reveal_strlit("in");
    reveal_strlit("input");
    reveal_strlit("i");
    reveal_strlit("1");
    reveal_strlit("out");
    reveal_strlit("output");
    reveal_strlit("o");
    reveal_strlit("2");
    reveal_strlit("IO");
    reveal_strlit("Input");
    reveal_strlit("Output");
    assert("io"@[1] != "in"@[1]);
    assert("io"@.len() != "input"@.len());
    assert("io"@.len() != "i"@.len());
    assert("io"@.len() != "1"@.len());
    assert("bi"@[0] != "in"@[0]);
    assert("bi"@.len() != "input"@.len());
    assert("bi"@.len() != "i"@.len());
    assert("bi"@.len() != "1"@.len());
    assert("bidirectional"@.len() != "in"@.len());
    assert("bidirectional"@.len() != "input"@.len());
    assert("bidirectional"@.len() != "i"@.len());
    assert("bidirectional"@.len() != "1"@.len());
    assert("bidir"@.len() != "in"@.len());
    assert("bidir"@[0] != "input"@[0]);
    assert("bidir"@.len() != "i"@.len());
    assert("bidir"@.len() != "1"@.len());
    assert("inout"@.len() != "in"@.len());
    assert("inout"@[2] != "input"@[2]);
    assert("inout"@.len() != "i"@.len());
    assert("inout"@.len() != "1"@.len());
    assert("0"@.len() != "in"@.len());
    assert("0"@.len() != "input"@.len());
    assert("0"@[0] != "i"@[0]);
    assert("0"@[0] != "1"@[0]);
    assert("io"@.len() != "out"@.len());
    assert("io"@.len() != "output"@.len());
    assert("io"@.len() != "o"@.len());
    assert("io"@.len() != "2"@.len());
    assert("bi"@.len() != "out"@.len());
    assert("bi"@.len() != "output"@.len());
    assert("bi"@.len() != "o"@.len());
    assert("bi"@.len() != "2"@.len());
    assert("bidirectional"@.len() != "out"@.len());
    assert("bidirectional"@.len() != "output"@.len());
    assert("bidirectional"@.len() != "o"@.len());
    assert("bidirectional"@.len() != "2"@.len());
    assert("bidir"@.len() != "out"@.len());
    assert("bidir"@.len() != "output"@.len());
    assert("bidir"@.len() != "o"@.len());
    assert("bidir"@.len() != "2"@.len());
    assert("inout"@.len() != "out"@.len());
    assert("inout"@.len() != "output"@.len());
    assert("inout"@.len() != "o"@.len());
    assert("inout"@.len() != "2"@.len());
    assert("0"@.len() != "out"@.len());
    assert("0"@.len() != "output"@.len());
    assert("0"@[0] != "o"@[0]);
    assert("0"@[0] != "2"@[0]);
    assert("in"@.len() != "out"@.len());
    assert("in"@.len() != "output"@.len());
    assert("in"@.len() != "o"@.len());
    assert("in"@.len() != "2"@.len());
    assert("input"@.len() != "out"@.len());
    assert("input"@.len() != "output"@.len());
    assert("input"@.len() != "o"@.len());
    assert("input"@.len() != "2"@.len());
    assert("i"@.len() != "out"@.len());
    assert("i"@.len() != "output"@.len());
    assert("i"@[0] != "o"@[0]);
    assert("i"@[0] != "2"@[0]);
    assert("1"@.len() != "out"@.len());
    assert("1"@.len() != "output"@.len());
    assert("1"@[0] != "o"@[0]);
    assert("1"@[0] != "2"@[0]);
    assert("IO"@.len() != "Input"@.len());
    assert("IO"@.len() != "Output"@.len());
    assert("Input"@.len() != "Output"@.len());
}

/// An ASCII direction cell reading `output` in any letter case, with any
/// blanks around it, is normalized to `Output`; one reading `input` to
/// `Input`.
pub proof fn lemma_direction_cell_any_case(raw: Seq<char>)
    requires
        all_ascii(trim(raw)),
    ensures
        lower_seq(trim(raw)) == "output"@ ==> direction_of(lower_seq(trim(raw))) == "Output"@,
        lower_seq(trim(raw)) == "input"@ ==> direction_of(lower_seq(trim(raw))) == "Input"@,
{
    lemma_direction_words(lower_seq(trim(raw)));
}

/// `IO`, `Input` or `Output` for a direction cell: trimmed, then
/// lower-cased.
pub fn normalize_direction(raw: &str) -> (r: String)
    ensures
        r@ == direction_of(str_to_lowercase(trim(raw@))),
        all_ascii(trim(raw@)) ==> r@ == direction_of(lower_seq(trim(raw@))),
{
    let rv = chars_of(raw);
    let t = trimmed(rv.as_slice());
    let ts = string_from_chars(t.as_slice());
    let l = to_lowercase_string(ts.as_str());
    let dv = chars_of(l.as_str());
    let d = dv.as_slice();
    if eq_str(d, "io") || eq_str(d, "bi") || eq_str(d, "bidirectional") || eq_str(d, "bidir") || eq_str(d, "inout")
        || eq_str(d, "0") {
        "IO".to_owned()
    } else if eq_str(d, "in") || eq_str(d, "input") || eq_str(d, "i") || eq_str(d, "1") {
        "Input".to_owned()
    } else if eq_str(d, "out") || eq_str(d, "output") || eq_str(d, "o") || eq_str(d, "2") {
        "Output".to_owned()
    } else {
        "IO".to_owned()
    }
}

// -----------------------------------------------------------------------------
// File formats
// -----------------------------------------------------------------------------

/// What `Path::extension` gives for a path, as text.
pub uninterp spec fn path_extension_of(path: Seq<char>) -> Option<Seq<char>>;

/// What `Path::file_stem` gives for a path, as text.
pub uninterp spec fn path_file_stem_of(path: Seq<char>) -> Option<Seq<char>>;

/// The extension of a path.
///
/// Calls `std::path::Path::extension` (std): the part of the file name
/// after its last `.`, a function of the path's text alone. The text of a
/// `&str` path's extension is always valid UTF-8.
#[verifier::external_body]
fn path_extension(path: &str) -> (r: Option<String>)
    ensures
        match r {
            Some(e) => path_extension_of(path@) == Some(e@),
            None => path_extension_of(path@) is None,
        },
{
    match std::path::Path::new(path).extension() {
        Some(e) => e.to_str().map(|t| t.to_string()),
        None => None,
    }
}

/// The file name of a path without its extension.
///
/// Calls `std::path::Path::file_stem` (std), a function of the path's text
/// alone.
#[verifier::external_body]
fn path_file_stem(path: &str) -> (r: Option<String>)
    ensures
        match r {
            Some(e) => path_file_stem_of(path@) == Some(e@),
            None => path_file_stem_of(path@) is None,
        },
{
    match std::path::Path::new(path).file_stem() {
        Some(e) => e.to_str().map(|t| t.to_string()),
        None => None,
    }
}

/// The lower-cased extension of a path (empty when it has none).
pub open spec fn extension_lower(path: Seq<char>) -> Seq<char> {
    str_to_lowercase(
        match path_extension_of(path) {
            Some(e) => e,
            None => Seq::<char>::empty(),
        },
    )
}

/// The table format a (lower-cased) extension stands for.
pub open spec fn format_of_extension(e: Seq<char>) -> Option<Seq<char>> {
    if e == "csv"@ || e == "tsv"@ || e == "txt"@ {
        Some("csv"@)
    } else if e == "xlsx"@ || e == "xls"@ || e == "xlsm"@ || e == "xlsb"@ || e == "ods"@ {
        Some("xlsx"@)
    } else if e == "pdf"@ {
        Some("pdf"@)
    } else {
        None
    }
}

/// `csv`, `xlsx` or `pdf` for a file path, by its extension.
pub fn detect_format(path: &str) -> (r: Result<String, String>)
    ensures
        match format_of_extension(extension_lower(path@)) {
            Some(f) => r matches Ok(x) && x@ == f,
            None => r matches Err(m) && m@ == "Unsupported file format: ."@ + extension_lower(path@),
        },
{
    let e = match path_extension(path) {
        Some(x) => x,
        None => String::new(),
    };
    let l = to_lowercase_string(e.as_str());
    let lv = chars_of(l.as_str());
    let t = lv.as_slice();
    if eq_str(t, "csv") || eq_str(t, "tsv") || eq_str(t, "txt") {
        Ok("csv".to_owned())
    } else if eq_str(t, "xlsx") || eq_str(t, "xls") || eq_str(t, "xlsm") || eq_str(t, "xlsb") || eq_str(t, "ods") {
        Ok("xlsx".to_owned())
    } else if eq_str(t, "pdf") {
        Ok("pdf".to_owned())
    } else {
        let mut m: Vec<char> = chars_of("Unsupported file format: .");
        let ghost head = m@;
        let mut i: usize = 0;
        while i < lv.len()
            invariant
                i <= lv@.len(),
                m@ == head + lv@.take(i as int),
            decreases lv.len() - i,
        {
            m.push(lv[i]);
            assert(lv@.take(i + 1) =~= lv@.take(i as int).push(lv@[i as int]));
            i = i + 1;
        }
        assert(lv@.take(lv@.len() as int) =~= lv@);
        Err(string_from_chars(m.as_slice()))
    }
}

/// The device name a table takes from its file: the file stem, or
/// `Unknown`.
pub open spec fn device_name_of(path: Seq<char>) -> Seq<char> {
    match path_file_stem_of(path) {
        Some(s) => s,
        None => "Unknown"@,
    }
}

/// The device name a table takes from its file path.
pub fn device_name_from_path(path: &str) -> (r: String)
    ensures
        r@ == device_name_of(path@),
{
    match path_file_stem(path) {
        Some(s) => s,
        None => "Unknown".to_owned(),
    }
}

// -----------------------------------------------------------------------------
// Tables of rows
// -----------------------------------------------------------------------------

/// A row's cells as text.
pub open spec fn row_view(r: Vec<String>) -> Seq<Seq<char>> {
    r@.map_values(|c: String| c@)
}

/// Rows' cells as text.
pub open spec fn rows_view(rows: Seq<Vec<String>>) -> Seq<Seq<Seq<char>>> {
    rows.map_values(|r: Vec<String>| row_view(r))
}

/// The role of each cell of a row read as a header.
pub open spec fn roles_of(row: Seq<Seq<char>>) -> Seq<ColRole> {
    row.map_values(|c: Seq<char>| role_of(trim(str_to_lowercase(c))))
}

/// How many of the roles are known.
pub open spec fn known_count(roles: Seq<ColRole>) -> nat
    decreases roles.len(),
{
    if roles.len() == 0 {
        0
    } else {
        known_count(roles.drop_last()) + if roles.last() != ColRole::Unknown { 1nat } else { 0nat }
    }
}

/// The first of the first `n` rows that names two roles or more.
pub open spec fn header_row(rows: Seq<Seq<Seq<char>>>, n: int) -> Option<int>
    decreases n,
{
    if n <= 0 {
        None
    } else {
        match header_row(rows, n - 1) {
            Some(k) => Some(k),
            None => if n - 1 < rows.len() && known_count(roles_of(rows[n - 1])) >= 2 {
                Some(n - 1)
            } else {
                None
            },
        }
    }
}

/// Columns by position: signal and channel, then direction, voltage and
/// group as far as a row of width `w` reaches.
pub open spec fn positional_roles(w: int) -> Seq<ColRole> {
    let a = seq![ColRole::Signal, ColRole::Channel];
    let b = if w > 2 { a.push(ColRole::Direction) } else { a };
    let c = if w > 3 { b.push(ColRole::Voltage) } else { b };
    if w > 4 { c.push(ColRole::Group) } else { c }
}

/// The header row and the column roles of a table: the first of its first
/// ten rows that names two roles or more; else, from row 0, the columns by
/// position as wide as row 0.
pub open spec fn layout_of(rows: Seq<Seq<Seq<char>>>) -> (int, Seq<ColRole>) {
    match header_row(rows, 10) {
        Some(k) => (k, roles_of(rows[k])),
        None => (0, positional_roles(rows[0].len() as int)),
    }
}

/// The first column with a role.
pub open spec fn role_index(roles: Seq<ColRole>, role: ColRole) -> Option<int>
    decreases roles.len(),
{
    if roles.len() == 0 {
        None
    } else {
        match role_index(roles.drop_last(), role) {
            Some(k) => Some(k),
            None => if roles.last() == role {
                Some(roles.len() - 1)
            } else {
                None
            },
        }
    }
}

/// Where the columns of each role are.
#[derive(Debug, Clone, Copy)]
pub struct Columns {
    pub signal: Option<usize>,
    pub channel: Option<usize>,
    pub direction: Option<usize>,
    pub voltage: Option<usize>,
    pub group: Option<usize>,
    pub core: Option<usize>,
    pub sequence: Option<usize>,
    pub ramp: Option<usize>,
}

/// An optional column as an integer.
pub open spec fn col_int(c: Option<usize>) -> Option<int> {
    match c {
        Some(x) => Some(x as int),
        None => None,
    }
}

pub open spec fn opt_usize(o: Option<int>) -> Option<usize> {
    match o {
        Some(x) => Some(x as usize),
        None => None,
    }
}

/// The columns the roles name: the first column of each role.
pub open spec fn columns_of(roles: Seq<ColRole>) -> Columns {
    Columns {
        signal: opt_usize(role_index(roles, ColRole::Signal)),
        channel: opt_usize(role_index(roles, ColRole::Channel)),
        direction: opt_usize(role_index(roles, ColRole::Direction)),
        voltage: opt_usize(role_index(roles, ColRole::Voltage)),
        group: opt_usize(role_index(roles, ColRole::Group)),
        core: opt_usize(role_index(roles, ColRole::CoreName)),
        sequence: opt_usize(role_index(roles, ColRole::Sequence)),
        ramp: opt_usize(role_index(roles, ColRole::RampDelay)),
    }
}

impl Columns {
    /// Whether these are the columns the roles name.
    pub open spec fn of_roles(self, roles: Seq<ColRole>) -> bool {
        &&& col_int(self.signal) == role_index(roles, ColRole::Signal)
        &&& col_int(self.channel) == role_index(roles, ColRole::Channel)
        &&& col_int(self.direction) == role_index(roles, ColRole::Direction)
        &&& col_int(self.voltage) == role_index(roles, ColRole::Voltage)
        &&& col_int(self.group) == role_index(roles, ColRole::Group)
        &&& col_int(self.core) == role_index(roles, ColRole::CoreName)
        &&& col_int(self.sequence) == role_index(roles, ColRole::Sequence)
        &&& col_int(self.ramp) == role_index(roles, ColRole::RampDelay)
    }
}

/// The cell of a row in a column, if the row reaches it.
pub open spec fn cell_of(row: Seq<Seq<char>>, col: Option<usize>) -> Option<Seq<char>> {
    match col {
        Some(c) => if c < row.len() {
            Some(row[c as int])
        } else {
            None
        },
        None => None,
    }
}

/// A channel as values: signal, number, direction, voltage text, group.
pub type ChannelView = (Seq<char>, i32, Seq<char>, Option<Seq<char>>, Option<Seq<char>>);

/// A supply as values: name, voltage text, order, ramp text.
pub type SupplyView = (Seq<char>, Option<Seq<char>>, i32, Option<Seq<char>>);

/// Channels, supplies and warnings gathered so far.
pub type RowsState = (Seq<ChannelView>, Seq<SupplyView>, Seq<Seq<char>>);

pub open spec fn opt_view(o: Option<String>) -> Option<Seq<char>> {
    match o {
        Some(s) => Some(s@),
        None => None,
    }
}

impl ExtractedChannel {
    pub open spec fn view_tuple(&self) -> ChannelView {
        (self.signal_name@, self.channel, self.direction@, opt_view(self.voltage), opt_view(self.group))
    }
}

impl ExtractedSupply {
    pub open spec fn view_tuple(&self) -> SupplyView {
        (self.core_name@, opt_view(self.voltage), self.sequence_order, opt_view(self.ramp_delay_ms))
    }
}

pub open spec fn channels_view(v: Seq<ExtractedChannel>) -> Seq<ChannelView> {
    v.map_values(|c: ExtractedChannel| c.view_tuple())
}

pub open spec fn supplies_view(v: Seq<ExtractedSupply>) -> Seq<SupplyView> {
    v.map_values(|c: ExtractedSupply| c.view_tuple())
}

pub open spec fn strings_view(v: Seq<String>) -> Seq<Seq<char>> {
    v.map_values(|c: String| c@)
}

/// Whether every cell is blank.
pub open spec fn blank_row(row: Seq<Seq<char>>) -> bool {
    forall|k: int| 0 <= k < row.len() ==> trim(#[trigger] row[k]).len() == 0
}

/// Whether the row opens a supply section (`supplies`, `power`, `supply`).
pub open spec fn section_row(row: Seq<Seq<char>>) -> bool {
    row.len() > 0 && {
        let f = str_to_lowercase(trim(row[0]));
        f == "supplies"@ || f == "power"@ || f == "supply"@
    }
}

/// The trimmed core name of a supply row, if the row is one: its core
/// column is not blank and starts with `core` (any case).
pub open spec fn supply_core(row: Seq<Seq<char>>, cols: Columns) -> Option<Seq<char>> {
    match cols.core {
        Some(_) => {
            let cv = match cell_of(row, cols.core) {
                Some(c) => trim(c),
                None => Seq::<char>::empty(),
            };
            if cv.len() > 0 && crate::gui::switch::has_prefix(str_to_lowercase(cv), "core"@) {
                Some(cv)
            } else {
                None
            }
        },
        None => None,
    }
}

/// A cell read as an `i32` after trimming.
pub open spec fn cell_i32(cell: Option<Seq<char>>) -> Option<int> {
    match cell {
        Some(c) => parse_signed(trim(c), i32::MIN as int, i32::MAX as int),
        None => None,
    }
}

/// The warning for a signal row without a channel number.
pub open spec fn no_channel_warning(i: int, signal: Seq<char>, csv: bool) -> Seq<char> {
    if csv {
        "Row "@ + dec_chars((i + 1) as nat) + ": no channel number for signal '"@ + signal + "'"@
    } else {
        "Row "@ + dec_chars((i + 1) as nat) + ": no channel for '"@ + signal + "'"@
    }
}

/// One data row (row number `i`): blank rows and section titles are
/// skipped; a supply row adds a supply (its order defaults to the number of
/// supplies so far); a row with a signal adds a channel when it has a
/// channel number and a warning when not.
pub open spec fn row_step(st: RowsState, row: Seq<Seq<char>>, i: int, cols: Columns, csv: bool) -> RowsState {
    if blank_row(row) || section_row(row) {
        st
    } else {
        match supply_core(row, cols) {
            Some(cv) => {
                let order = match cell_i32(cell_of(row, cols.sequence)) {
                    Some(x) => x as i32,
                    None => st.1.len() as i32,
                };
                (st.0, st.1.push((cv, cell_of(row, cols.voltage), order, cell_of(row, cols.ramp))), st.2)
            },
            None => {
                let signal = match cell_of(row, cols.signal) {
                    Some(c) => trim(c),
                    None => Seq::<char>::empty(),
                };
                if signal.len() == 0 {
                    st
                } else {
                    match cell_i32(cell_of(row, cols.channel)) {
                        Some(ch) if ch >= 0 => {
                            let dir = match cell_of(row, cols.direction) {
                                Some(d) => direction_of(str_to_lowercase(trim(d))),
                                None => "IO"@,
                            };
                            let grp = match cell_of(row, cols.group) {
                                Some(g) => if trim(g).len() > 0 {
                                    Some(trim(g))
                                } else {
                                    None
                                },
                                None => None,
                            };
                            (st.0.push((signal, ch as i32, dir, cell_of(row, cols.voltage), grp)), st.1, st.2)
                        },
                        _ => (st.0, st.1, st.2.push(no_channel_warning(i, signal, csv))),
                    }
                }
            },
        }
    }
}

/// The rows from `start` up to `j` taken in order.
pub open spec fn rows_from(rows: Seq<Seq<Seq<char>>>, start: int, j: int, cols: Columns, csv: bool) -> RowsState
    decreases j - start,
{
    if j <= start {
        (seq![], seq![], seq![])
    } else {
        row_step(rows_from(rows, start, j - 1, cols, csv), rows[j - 1], j - 1, cols, csv)
    }
}

fn row_roles(row: &Vec<String>) -> (r: Vec<ColRole>)
    ensures
        r@ == roles_of(row_view(*row)),
{
    let mut r: Vec<ColRole> = Vec::new();
    let mut k: usize = 0;
    while k < row.len()
        invariant
            k <= row@.len(),
            r@ == roles_of(row_view(*row)).take(k as int),
        decreases row.len() - k,
    {
        let c = classify_column(row[k].as_str());
        r.push(c);
        assert(roles_of(row_view(*row)).take(k + 1) =~= roles_of(row_view(*row)).take(k as int).push(c));
        k = k + 1;
    }
    assert(roles_of(row_view(*row)).take(row@.len() as int) =~= roles_of(row_view(*row)));
    r
}

fn known_roles(roles: &Vec<ColRole>) -> (r: usize)
    ensures
        r == known_count(roles@),
{
    let mut n: usize = 0;
    let mut k: usize = 0;
    while k < roles.len()
        invariant
            k <= roles@.len(),
            n == known_count(roles@.take(k as int)),
            n <= k,
        decreases roles.len() - k,
    {
        assert(roles@.take(k + 1).drop_last() =~= roles@.take(k as int));
        if roles[k] != ColRole::Unknown {
            n = n + 1;
        }
        k = k + 1;
    }
    assert(roles@.take(roles@.len() as int) =~= roles@);
    n
}

proof fn lemma_role_index_prefix(s: Seq<ColRole>, k: int, role: ColRole)
    requires
        0 <= k <= s.len(),
        role_index(s.take(k), role) is Some,
    ensures
        role_index(s, role) == role_index(s.take(k), role),
    decreases s.len(),
{
    if k < s.len() {
        assert(s.drop_last().take(k) =~= s.take(k));
        lemma_role_index_prefix(s.drop_last(), k, role);
    } else {
        assert(s.take(k) =~= s);
    }
}

fn find_role(roles: &Vec<ColRole>, role: ColRole) -> (r: Option<usize>)
    ensures
        col_int(r) == role_index(roles@, role),
{
    let mut k: usize = 0;
    while k < roles.len()
        invariant
            k <= roles@.len(),
            role_index(roles@.take(k as int), role) is None,
        decreases roles.len() - k,
    {
        assert(roles@.take(k + 1).drop_last() =~= roles@.take(k as int));
        if roles[k] == role {
            proof {
                lemma_role_index_prefix(roles@, k + 1, role);
            }
            return Some(k);
        }
        k = k + 1;
    }
    assert(roles@.take(roles@.len() as int) =~= roles@);
    None
}

fn columns_for(roles: &Vec<ColRole>) -> (c: Columns)
    ensures
        c.of_roles(roles@),
        c == columns_of(roles@),
{
    Columns {
        signal: find_role(roles, ColRole::Signal),
        channel: find_role(roles, ColRole::Channel),
        direction: find_role(roles, ColRole::Direction),
        voltage: find_role(roles, ColRole::Voltage),
        group: find_role(roles, ColRole::Group),
        core: find_role(roles, ColRole::CoreName),
        sequence: find_role(roles, ColRole::Sequence),
        ramp: find_role(roles, ColRole::RampDelay),
    }
}

fn table_layout(rows: &[Vec<String>]) -> (r: (usize, Vec<ColRole>, bool))
    requires
        rows@.len() > 0,
    ensures
        r.0 < rows@.len(),
        (r.0 as int, r.1@) == layout_of(rows_view(rows@)),
        r.2 == header_row(rows_view(rows@), 10) is Some,
{
    let ghost rv = rows_view(rows@);
    let mut i: usize = 0;
    while i < rows.len() && i < 10
        invariant
            i <= rows@.len(),
            i <= 10,
            rv == rows_view(rows@),
            header_row(rv, i as int) is None,
        decreases rows.len() - i,
    {
        assert(rv[i as int] == row_view(rows@[i as int]));
        let roles = row_roles(&rows[i]);
        if known_roles(&roles) >= 2 {
            proof {
                lemma_header_row_from(rv, i as int + 1, 10);
            }
            return (i, roles, true);
        }
        i = i + 1;
    }
    proof {
        lemma_header_row_none(rv, i as int, 10);
    }
    let w = rows[0].len();
    assert(rv[0] == row_view(rows@[0]));
    let mut roles: Vec<ColRole> = vec![ColRole::Signal, ColRole::Channel];
    if w > 2 {
        roles.push(ColRole::Direction);
    }
    if w > 3 {
        roles.push(ColRole::Voltage);
    }
    if w > 4 {
        roles.push(ColRole::Group);
    }
    assert(roles@ =~= positional_roles(w as int));
    (0, roles, false)
}

proof fn lemma_header_row_from(rows: Seq<Seq<Seq<char>>>, m: int, n: int)
    requires
        0 < m <= n,
        header_row(rows, m) is Some,
    ensures
        header_row(rows, n) == header_row(rows, m),
    decreases n - m,
{
    if n > m {
        lemma_header_row_from(rows, m, n - 1);
    }
}

proof fn lemma_header_row_none(rows: Seq<Seq<Seq<char>>>, m: int, n: int)
    requires
        0 <= m <= n,
        header_row(rows, m) is None,
        m >= rows.len() || m >= n,
    ensures
        header_row(rows, n) is None,
    decreases n - m,
{
    if n > m {
        lemma_header_row_none(rows, m, n - 1);
    }
}

fn cell(row: &Vec<String>, col: Option<usize>) -> (r: Option<&String>)
    ensures
        match r {
            Some(s) => cell_of(row_view(*row), col) == Some(s@),
            None => cell_of(row_view(*row), col) is None,
        },
{
    match col {
        Some(c) => if c < row.len() {
            Some(&row[c])
        } else {
            None
        },
        None => None,
    }
}

fn is_blank_row(row: &Vec<String>) -> (r: bool)
    ensures
        r == blank_row(row_view(*row)),
{
    let ghost rv = row_view(*row);
    let mut k: usize = 0;
    while k < row.len()
        invariant
            k <= row@.len(),
            rv == row_view(*row),
            forall|j: int| 0 <= j < k ==> trim(#[trigger] rv[j]).len() == 0,
        decreases row.len() - k,
    {
        let cv = chars_of(row[k].as_str());
        let t = trimmed(cv.as_slice());
        if t.len() != 0 {
            assert(trim(rv[k as int]).len() != 0);
            return false;
        }
        k = k + 1;
    }
    true
}

fn is_section_row(row: &Vec<String>) -> (r: bool)
    ensures
        r == section_row(row_view(*row)),
{
    if row.len() == 0 {
        return false;
    }
    let cv = chars_of(row[0].as_str());
    let t = trimmed(cv.as_slice());
    let ts = string_from_chars(t.as_slice());
    let l = to_lowercase_string(ts.as_str());
    let lv = chars_of(l.as_str());
    eq_str(lv.as_slice(), "supplies") || eq_str(lv.as_slice(), "power") || eq_str(lv.as_slice(), "supply")
}

fn supply_core_of(row: &Vec<String>, cols: &Columns) -> (r: Option<Vec<char>>)
    ensures
        match supply_core(row_view(*row), *cols) {
            Some(cv) => r matches Some(x) && x@ == cv,
            None => r is None,
        },
{
    if cols.core.is_none() {
        return None;
    }
    let cv: Vec<char> = match cell(row, cols.core) {
        Some(c) => {
            let v = chars_of(c.as_str());
            trimmed(v.as_slice())
        },
        None => Vec::new(),
    };
    if cv.len() == 0 {
        return None;
    }
    let cs = string_from_chars(cv.as_slice());
    let l = to_lowercase_string(cs.as_str());
    let lv = chars_of(l.as_str());
    if starts_with(lv.as_slice(), "core") {
        Some(cv)
    } else {
        None
    }
}

fn cell_to_i32(c: Option<&String>) -> (r: Option<i32>)
    ensures
        match r {
            Some(x) => cell_i32(opt_ref_view(c)) == Some(x as int),
            None => cell_i32(opt_ref_view(c)) is None,
        },
{
    match c {
        Some(s) => {
            let v = chars_of(s.as_str());
            let t = trimmed(v.as_slice());
            parse_i32(t.as_slice())
        },
        None => None,
    }
}

pub open spec fn opt_ref_view(o: Option<&String>) -> Option<Seq<char>> {
    match o {
        Some(s) => Some(s@),
        None => None,
    }
}

fn opt_string(c: Option<&String>) -> (r: Option<String>)
    ensures
        opt_view(r) == opt_ref_view(c),
{
    match c {
        Some(s) => Some(s.clone()),
        None => None,
    }
}

fn warning_text(i: usize, signal: &[char], csv: bool) -> (r: String)
    requires
        i < usize::MAX,
    ensures
        r@ == no_channel_warning(i as int, signal@, csv),
{
    let mut m: Vec<char> = Vec::new();
    push_str(&mut m, "Row ");
    push_decimal(&mut m, (i + 1) as u64);
    if csv {
        push_str(&mut m, ": no channel number for signal '");
    } else {
        push_str(&mut m, ": no channel for '");
    }
    let ghost mid = m@;
    let mut k: usize = 0;
    while k < signal.len()
        invariant
            k <= signal@.len(),
            m@ == mid + signal@.take(k as int),
        decreases signal.len() - k,
    {
        m.push(signal[k]);
        assert(signal@.take(k + 1) =~= signal@.take(k as int).push(signal@[k as int]));
        k = k + 1;
    }
    assert(signal@.take(signal@.len() as int) =~= signal@);
    push_str(&mut m, "'");
    proof {
        if csv {
            assert(m@ =~= no_channel_warning(i as int, signal@, csv));
        } else {
            assert(m@ =~= no_channel_warning(i as int, signal@, csv));
        }
    }
    string_from_chars(m.as_slice())
}

pub open spec fn gathered_view(g: (Vec<ExtractedChannel>, Vec<ExtractedSupply>, Vec<String>)) -> RowsState {
    (channels_view(g.0@), supplies_view(g.1@), strings_view(g.2@))
}

/// Take data row `i` into the gathered channels, supplies and warnings.
fn take_row(
    row: &Vec<String>,
    i: usize,
    cols: &Columns,
    csv: bool,
    g: (Vec<ExtractedChannel>, Vec<ExtractedSupply>, Vec<String>),
) -> (r: (Vec<ExtractedChannel>, Vec<ExtractedSupply>, Vec<String>))
    requires
        i < usize::MAX,
    ensures
        gathered_view(r) == row_step(gathered_view(g), row_view(*row), i as int, *cols, csv),
{
    let ghost rv = row_view(*row);
    let ghost st = gathered_view(g);
    let (mut channels, mut supplies, mut warnings) = g;
    if is_blank_row(row) || is_section_row(row) {
        return (channels, supplies, warnings);
    }
    match supply_core_of(row, cols) {
        Some(cv) => {
            let order: i32 = match cell_to_i32(cell(row, cols.sequence)) {
                Some(x) => x,
                None => #[verifier::truncate] (supplies.len() as i32),
            };
            let sp = ExtractedSupply {
                core_name: string_from_chars(cv.as_slice()),
                voltage: opt_string(cell(row, cols.voltage)),
                sequence_order: order,
                ramp_delay_ms: opt_string(cell(row, cols.ramp)),
            };
            let ghost spv = sp.view_tuple();
            let ghost before = supplies@;
            supplies.push(sp);
            assert(supplies_view(supplies@) =~= supplies_view(before).push(spv));
            (channels, supplies, warnings)
        },
        None => {
            let signal: Vec<char> = match cell(row, cols.signal) {
                Some(c) => {
                    let v = chars_of(c.as_str());
                    trimmed(v.as_slice())
                },
                None => Vec::new(),
            };
            if signal.len() == 0 {
                return (channels, supplies, warnings);
            }
            let chv = cell_to_i32(cell(row, cols.channel));
            let has_channel = match chv {
                Some(ch) => ch >= 0,
                None => false,
            };
            if has_channel {
                let ch = chv.unwrap();
                let dir = match cell(row, cols.direction) {
                    Some(d) => normalize_direction(d.as_str()),
                    None => "IO".to_owned(),
                };
                let grp: Option<String> = match cell(row, cols.group) {
                    Some(gc) => {
                        let gv = chars_of(gc.as_str());
                        let gt = trimmed(gv.as_slice());
                        if gt.len() > 0 {
                            Some(string_from_chars(gt.as_slice()))
                        } else {
                            None
                        }
                    },
                    None => None,
                };
                let c = ExtractedChannel {
                    signal_name: string_from_chars(signal.as_slice()),
                    channel: ch,
                    direction: dir,
                    voltage: opt_string(cell(row, cols.voltage)),
                    group: grp,
                };
                let ghost cvw = c.view_tuple();
                proof {
                    assert((ch as int) as i32 == ch);
                }
                let ghost before = channels@;
                channels.push(c);
                assert(channels_view(channels@) =~= channels_view(before).push(cvw));
                (channels, supplies, warnings)
            } else {
                let w = warning_text(i, signal.as_slice(), csv);
                let ghost wv = w@;
                let ghost before = warnings@;
                warnings.push(w);
                assert(strings_view(warnings@) =~= strings_view(before).push(wv));
                (channels, supplies, warnings)
            }
        },
    }
}

/// The rows from `start` on, taken in order.
fn take_rows(rows: &[Vec<String>], start: usize, cols: &Columns, csv: bool) -> (r: (
    Vec<ExtractedChannel>,
    Vec<ExtractedSupply>,
    Vec<String>,
))
    ensures
        (channels_view(r.0@), supplies_view(r.1@), strings_view(r.2@)) == rows_from(
            rows_view(rows@),
            start as int,
            rows@.len() as int,
            *cols,
            csv,
        ),
{
    let ghost rv = rows_view(rows@);
    let mut channels: Vec<ExtractedChannel> = Vec::new();
    let mut supplies: Vec<ExtractedSupply> = Vec::new();
    let mut warnings: Vec<String> = Vec::new();
    assert(channels_view(channels@) =~= seq![]);
    assert(supplies_view(supplies@) =~= seq![]);
    assert(strings_view(warnings@) =~= seq![]);
    if start >= rows.len() {
        return (channels, supplies, warnings);
    }
    let mut i: usize = start;
    while i < rows.len()
        invariant
            start <= i <= rows@.len(),
            rv == rows_view(rows@),
            (channels_view(channels@), supplies_view(supplies@), strings_view(warnings@)) == rows_from(
                rv,
                start as int,
                i as int,
                *cols,
                csv,
            ),
        decreases rows.len() - i,
    {
        assert(rv[i as int] == row_view(rows@[i as int]));
        let g = take_row(&rows[i], i, cols, csv, (channels, supplies, warnings));
        channels = g.0;
        supplies = g.1;
        warnings = g.2;
        i = i + 1;
    }
    (channels, supplies, warnings)
}

/// The channels, supplies and warnings of a table's rows, with the
/// layout its header gives.
pub open spec fn rows_table(rows: Seq<Seq<Seq<char>>>, csv: bool) -> RowsState {
    let (h, roles) = layout_of(rows);
    rows_from(rows, h + 1, rows.len() as int, columns_of(roles), csv)
}

/// Whether `t` holds the gathered rows, under the device name of `path`.
pub open spec fn table_holds(t: ExtractedPinTable, path: Seq<char>, format: Seq<char>, st: RowsState) -> bool {
    &&& t.device_name@ == device_name_of(path)
    &&& t.source_format@ == format
    &&& channels_view(t.channels@) == st.0
    &&& supplies_view(t.supplies@) == st.1
    &&& strings_view(t.warnings@) == st.2
}

/// What reading rows of text cells as a pin table gives: an error for no
/// rows, an error naming `format` when no channel or supply is found, else
/// the gathered table.
pub open spec fn string_rows_result(
    rows: Seq<Seq<Seq<char>>>,
    format: Seq<char>,
    path: Seq<char>,
    r: Result<ExtractedPinTable, String>,
) -> bool {
    if rows.len() == 0 {
        r matches Err(m) && m@ == "No data rows"@
    } else {
        let st = rows_table(rows, false);
        if st.0.len() == 0 && st.1.len() == 0 {
            r matches Err(m) && m@ == "No pin data found in "@ + format + ". Check column headers."@
        } else {
            r matches Ok(t) && table_holds(t, path, format, st)
        }
    }
}

/// The pin table in rows of text cells (as an Excel sheet gives them).
///
/// The header is the first of the first ten rows that names two column
/// roles or more; without one, the columns are signal, channel, direction,
/// voltage and group by position. Every later row is taken in turn (see
/// `row_step`); a table without channels or supplies is an error.
pub fn parse_string_rows_into_table(rows: &[Vec<String>], source_format: &str, path: &str) -> (r: Result<
    ExtractedPinTable,
    String,
>)
    ensures
        string_rows_result(rows_view(rows@), source_format@, path@, r),
{
    if rows.len() == 0 {
        return Err("No data rows".to_owned());
    }
    let (header, roles, _) = table_layout(rows);
    let cols = columns_for(&roles);
    let (channels, supplies, warnings) = take_rows(rows, header + 1, &cols, false);
    if channels.len() == 0 && supplies.len() == 0 {
        let mut m: Vec<char> = Vec::new();
        push_str(&mut m, "No pin data found in ");
        push_str(&mut m, source_format);
        push_str(&mut m, ". Check column headers.");
        return Err(string_from_chars(m.as_slice()));
    }
    Ok(ExtractedPinTable {
        device_name: device_name_from_path(path),
        source_format: source_format.to_owned(),
        channels,
        supplies,
        warnings,
    })
}

// -----------------------------------------------------------------------------
// Delimited text
// -----------------------------------------------------------------------------

/// The records the `csv` crate reads from `content` with delimiter `delim`
/// (rows of any width, no header row); `None` for a record it could not
/// read.
pub uninterp spec fn csv_records_of(content: Seq<char>, delim: u8) -> Seq<Option<Seq<Seq<char>>>>;

/// The records of delimited text.
///
/// Calls the `csv` crate's reader (`ReaderBuilder` with the delimiter,
/// `flexible(true)`, `has_headers(false)`, then `records`): what it yields
/// depends on the text and the delimiter alone. Each record comes out as
/// its fields' text, or `None` where the reader reported an error.
#[verifier::external_body]
fn csv_records(content: &str, delim: u8) -> (r: Vec<Option<Vec<String>>>)
    ensures
        records_view(r@) == csv_records_of(content@, delim),
{
    let mut rdr = csv::ReaderBuilder::new().delimiter(delim).flexible(true).has_headers(false).from_reader(
        content.as_bytes(),
    );
    let mut out = Vec::new();
    for rec in rdr.records() {
        out.push(
            match rec {
                Ok(fields) => Some(fields.iter().map(String::from).collect()),
                Err(_) => None,
            },
        );
    }
    out
}

/// Records as text, where they were read.
pub open spec fn records_view(v: Seq<Option<Vec<String>>>) -> Seq<Option<Seq<Seq<char>>>> {
    v.map_values(
        |o: Option<Vec<String>>|
            match o {
                Some(x) => Some(row_view(x)),
                None => None,
            },
    )
}

/// The records that were read, in order.
pub open spec fn ok_records(s: Seq<Option<Seq<Seq<char>>>>) -> Seq<Seq<Seq<char>>>
    decreases s.len(),
{
    if s.len() == 0 {
        seq![]
    } else {
        let prev = ok_records(s.drop_last());
        match s.last() {
            Some(r) => prev.push(r),
            None => prev,
        }
    }
}

/// The first line that is not blank, or nothing.
pub open spec fn first_filled(ls: Seq<Seq<char>>) -> Seq<char>
    decreases ls.len(),
{
    if ls.len() == 0 {
        Seq::<char>::empty()
    } else if trim(ls[0]).len() > 0 {
        ls[0]
    } else {
        first_filled(ls.drop_first())
    }
}

fn first_filled_line(ls: &Vec<Vec<char>>) -> (r: Vec<char>)
    ensures
        r@ == first_filled(ls@.map_values(|l: Vec<char>| l@)),
{
    let ghost lv = ls@.map_values(|l: Vec<char>| l@);
    let mut k: usize = 0;
    assert(lv.skip(0) =~= lv);
    while k < ls.len()
        invariant
            k <= ls@.len(),
            lv == ls@.map_values(|l: Vec<char>| l@),
            first_filled(lv) == first_filled(lv.skip(k as int)),
        decreases ls.len() - k,
    {
        assert(lv.skip(k as int).drop_first() =~= lv.skip(k + 1));
        assert(lv.skip(k as int)[0] == ls@[k as int]@);
        let t = trimmed(ls[k].as_slice());
        if t.len() > 0 {
            return slice_range(ls[k].as_slice(), 0, ls[k].len());
        }
        k = k + 1;
    }
    assert(lv.skip(k as int) =~= seq![]);
    Vec::new()
}

/// The delimiter of a text: that of its first line that is not blank.
pub open spec fn text_delimiter(content: Seq<char>) -> u8 {
    delimiter_of(first_filled(lines(content)))
}

/// Whether the first record of a delimited text without a header row is
/// still a header: its channel cell (the second) is filled and is no
/// `i32`.
pub open spec fn first_record_is_header(row: Seq<Seq<char>>) -> bool {
    let c = if row.len() > 1 { row[1] } else { Seq::<char>::empty() };
    c.len() > 0 && parse_signed(c, i32::MIN as int, i32::MAX as int) is None
}

/// The record the data of a delimited text start at: the one after the
/// header row; without a header row, record 0, or record 1 when record 0
/// still looks like a header.
pub open spec fn csv_data_start(recs: Seq<Seq<Seq<char>>>) -> int {
    match header_row(recs, 10) {
        Some(k) => k + 1,
        None => if first_record_is_header(recs[0]) { 1 } else { 0 },
    }
}

/// The channels, supplies and warnings of the records of a delimited text.
pub open spec fn csv_rows_table(recs: Seq<Seq<Seq<char>>>) -> RowsState {
    let (h, roles) = layout_of(recs);
    rows_from(recs, csv_data_start(recs), recs.len() as int, columns_of(roles), true)
}

fn first_row_is_header(row: &Vec<String>) -> (r: bool)
    ensures
        r == first_record_is_header(row_view(*row)),
{
    if row.len() <= 1 {
        return false;
    }
    let c = chars_of(row[1].as_str());
    assert(row_view(*row)[1] == row@[1]@);
    c.len() > 0 && parse_i32(c.as_slice()).is_none()
}

/// What the pin table of the records of a delimited text is.
pub open spec fn csv_records_result(recs: Seq<Seq<Seq<char>>>, path: Seq<char>, r: Result<ExtractedPinTable, String>) -> bool {
    if recs.len() == 0 {
        r matches Err(m) && m@ == "No records in CSV"@
    } else {
        let st = csv_rows_table(recs);
        if st.0.len() == 0 && st.1.len() == 0 {
            r matches Err(m) && m@ == "No pin data found in CSV. Check column headers."@
        } else {
            r matches Ok(t) && table_holds(t, path, "csv"@, st)
        }
    }
}

/// The pin table in the records of a delimited text (those that were
/// read), as `parse_string_rows_into_table` reads rows, with the device
/// name of `path`.
pub fn csv_records_table(all: &Vec<Option<Vec<String>>>, path: &str) -> (r: Result<ExtractedPinTable, String>)
    ensures
        csv_records_result(ok_records(records_view(all@)), path@, r),
{
    let ghost allv = records_view(all@);
    let mut records: Vec<Vec<String>> = Vec::new();
    let mut k: usize = 0;
    while k < all.len()
        invariant
            k <= all@.len(),
            allv == records_view(all@),
            rows_view(records@) == ok_records(allv.take(k as int)),
        decreases all.len() - k,
    {
        assert(allv.take(k + 1).drop_last() =~= allv.take(k as int));
        match &all[k] {
            Some(x) => {
                let ghost before = records@;
                records.push(x.clone());
                assert(records@[records@.len() - 1]@ == x@);
                assert(row_view(records@[records@.len() - 1]) =~= row_view(*x));
                assert(rows_view(records@) =~= rows_view(before).push(row_view(*x)));
            },
            None => {},
        }
        k = k + 1;
    }
    assert(allv.take(all@.len() as int) =~= allv);
    if records.len() == 0 {
        return Err("No records in CSV".to_owned());
    }
    let (header, roles, found) = table_layout(records.as_slice());
    let cols = columns_for(&roles);
    let start = if found {
        header + 1
    } else if first_row_is_header(&records[0]) {
        1
    } else {
        0
    };
    let (channels, supplies, warnings) = take_rows(records.as_slice(), start, &cols, true);
    if channels.len() == 0 && supplies.len() == 0 {
        return Err("No pin data found in CSV. Check column headers.".to_owned());
    }
    Ok(ExtractedPinTable {
        device_name: device_name_from_path(path),
        source_format: "csv".to_owned(),
        channels,
        supplies,
        warnings,
    })
}

/// The pin table in delimited text (comma, tab or semicolon, as its first
/// filled line shows), read by the `csv` crate, with the device name of
/// `path`.
pub fn extract_from_csv_text(content: &str, path: &str) -> (r: Result<ExtractedPinTable, String>)
    ensures
        lines(content@).len() == 0 ==> (r matches Err(m) && m@ == "Empty CSV file"@),
        lines(content@).len() > 0 ==> csv_records_result(
            ok_records(csv_records_of(content@, text_delimiter(content@))),
            path@,
            r,
        ),
{
    let cv = chars_of(content);
    let ls = split_lines(cv.as_slice());
    if ls.len() == 0 {
        return Err("Empty CSV file".to_owned());
    }
    proof {
        let lv = ls@.map_values(|l: Vec<char>| l@);
        assert(lv =~= lines(content@));
    }
    let first = first_filled_line(&ls);
    let fs = string_from_chars(first.as_slice());
    let delim = detect_delimiter(fs.as_str());
    let all = csv_records(content, delim);
    csv_records_table(&all, path)
}

// -----------------------------------------------------------------------------
// Workbooks
// -----------------------------------------------------------------------------

/// A cell of a workbook sheet, one variant for each kind of value the
/// reader gives.
#[derive(Debug, Clone)]
pub enum SheetCell {
    Empty,
    Text(String),
    Int(i64),
    /// A floating-point number: its value as an `i64` when converting it
    /// there and back gives the same number, and its display text.
    Float(Option<i64>, String),
    Bool(bool),
    DateTime,
    DateTimeIso(String),
    DurationIso(String),
    Error,
}

/// The text of a cell: strings as they are, integers in decimal, a
/// number with an integral value as that integer and any other number as
/// its display text, booleans as `true` or `false`; dates, durations,
/// error and empty cells as empty text.
pub open spec fn cell_text_of(c: SheetCell) -> Seq<char> {
    match c {
        SheetCell::Text(s) => s@,
        SheetCell::Int(i) => int_chars(i as int),
        SheetCell::Float(Some(i), _) => int_chars(i as int),
        SheetCell::Float(None, t) => t@,
        SheetCell::Bool(b) => if b { "true"@ } else { "false"@ },
        _ => Seq::<char>::empty(),
    }
}

/// The text of a cell.
pub fn cell_text(c: &SheetCell) -> (r: String)
    ensures
        r@ == cell_text_of(*c),
{
    let mut m: Vec<char> = Vec::new();
    match c {
        SheetCell::Text(s) => {
            return s.clone();
        },
        SheetCell::Int(i) => push_int(&mut m, *i),
        SheetCell::Float(Some(i), _) => push_int(&mut m, *i),
        SheetCell::Float(None, t) => {
            return t.clone();
        },
        SheetCell::Bool(b) => if *b {
            push_str(&mut m, "true");
        } else {
            push_str(&mut m, "false");
        },
        _ => {},
    }
    string_from_chars(m.as_slice())
}

/// The rows of a sheet as text.
pub open spec fn sheet_text(rows: Seq<Vec<SheetCell>>) -> Seq<Seq<Seq<char>>> {
    rows.map_values(|r: Vec<SheetCell>| r@.map_values(|c: SheetCell| cell_text_of(c)))
}

fn sheet_rows_text(rows: &Vec<Vec<SheetCell>>) -> (r: Vec<Vec<String>>)
    ensures
        rows_view(r@) == sheet_text(rows@),
{
    let mut out: Vec<Vec<String>> = Vec::new();
    let mut i: usize = 0;
    while i < rows.len()
        invariant
            i <= rows@.len(),
            out@.len() == i,
            forall|k: int| 0 <= k < i ==> #[trigger] row_view(out@[k]) == rows@[k]@.map_values(
                |c: SheetCell| cell_text_of(c),
            ),
        decreases rows.len() - i,
    {
        let row = &rows[i];
        let mut cells: Vec<String> = Vec::new();
        let mut j: usize = 0;
        while j < row.len()
            invariant
                j <= row@.len(),
                cells@.len() == j,
                forall|k: int| 0 <= k < j ==> (#[trigger] cells@[k])@ == cell_text_of(row@[k]),
            decreases row.len() - j,
        {
            let t = cell_text(&row[j]);
            cells.push(t);
            j = j + 1;
        }
        assert(row_view(cells) =~= row@.map_values(|c: SheetCell| cell_text_of(c)));
        out.push(cells);
        i = i + 1;
    }
    assert(rows_view(out@) =~= sheet_text(rows@)) by {
        assert forall|k: int| 0 <= k < out@.len() implies #[trigger] rows_view(out@)[k] == sheet_text(rows@)[k] by {
            assert(row_view(out@[k]) == rows@[k]@.map_values(|c: SheetCell| cell_text_of(c)));
        }
    }
    out
}

/// What reading a workbook gave: why it could not be opened, that it has
/// no sheets, why its first sheet could not be read, or that sheet's
/// rows.
#[derive(Debug)]
pub enum WorkbookRead {
    OpenFailed(String),
    NoSheets,
    SheetFailed(String, String),
    Rows(Vec<Vec<SheetCell>>),
}

/// What reading a sheet's rows as a pin table gives: an error for an
/// empty sheet, else the table of the rows, as `xlsx`.
pub open spec fn excel_rows_result(rows: Seq<Seq<Seq<char>>>, path: Seq<char>, r: Result<
    ExtractedPinTable,
    String,
>) -> bool {
    if rows.len() == 0 {
        r matches Err(m) && m@ == "Empty Excel sheet"@
    } else {
        string_rows_result(rows, "xlsx"@, path, r)
    }
}

/// The pin table of the rows of a workbook's first sheet, as text.
pub fn excel_rows_table(rows: &Vec<Vec<String>>, path: &str) -> (r: Result<ExtractedPinTable, String>)
    ensures
        excel_rows_result(rows_view(rows@), path@, r),
{
    if rows.len() == 0 {
        return Err("Empty Excel sheet".to_owned());
    }
    parse_string_rows_into_table(rows.as_slice(), "xlsx", path)
}

/// What the pin table of a workbook read is.
pub open spec fn workbook_result(read: WorkbookRead, path: Seq<char>, r: Result<ExtractedPinTable, String>) -> bool {
    match read {
        WorkbookRead::OpenFailed(e) => r matches Err(m) && m@ == "Failed to open Excel file: "@ + e@,
        WorkbookRead::NoSheets => r matches Err(m) && m@ == "Excel file has no sheets"@,
        WorkbookRead::SheetFailed(n, e) => r matches Err(m) && m@ == "Failed to read sheet '"@ + n@ + "': "@
            + e@,
        WorkbookRead::Rows(rows) => excel_rows_result(sheet_text(rows@), path, r),
    }
}

/// The pin table of a workbook (xlsx, xls, xlsb or ods) from what reading
/// it gave: its first sheet, cells as text, read with the same column
/// rules as delimited text, under the device name of `path`.
pub fn extract_from_workbook(read: &WorkbookRead, path: &str) -> (r: Result<ExtractedPinTable, String>)
    ensures
        workbook_result(*read, path@, r),
{
    let mut m: Vec<char> = Vec::new();
    match read {
        WorkbookRead::Rows(rows) => {
            let text = sheet_rows_text(rows);
            return excel_rows_table(&text, path);
        },
        WorkbookRead::OpenFailed(e) => {
            push_str(&mut m, "Failed to open Excel file: ");
            push_str(&mut m, e.as_str());
        },
        WorkbookRead::NoSheets => {
            push_str(&mut m, "Excel file has no sheets");
        },
        WorkbookRead::SheetFailed(n, e) => {
            push_str(&mut m, "Failed to read sheet '");
            push_str(&mut m, n.as_str());
            push_str(&mut m, "': ");
            push_str(&mut m, e.as_str());
        },
    }
    Err(string_from_chars(m.as_slice()))
}

// -----------------------------------------------------------------------------
// Datasheet text: pin tables
// -----------------------------------------------------------------------------

/// Which whitespace-separated fields of a table row hold what.
#[derive(Debug, Clone, Copy)]
pub struct TablePattern {
    pub pin_field: Option<usize>,
    pub signal_field: Option<usize>,
    pub direction_field: Option<usize>,
    pub voltage_field: Option<usize>,
    pub total_fields: usize,
}

/// Pin, signal, direction and voltage fields found so far, and how many.
pub type HeaderScan = (Option<int>, Option<int>, Option<int>, Option<int>, int);

pub open spec fn is_pin_word(f: Seq<char>) -> bool {
    f == "pin"@ || f == "pin#"@ || f == "pin_no"@ || f == "number"@
}

pub open spec fn is_signal_word(f: Seq<char>) -> bool {
    f == "signal"@ || f == "name"@ || f == "net"@ || f == "function"@ || f == "signal_name"@ || f == "pin_name"@
}

pub open spec fn is_direction_word(f: Seq<char>) -> bool {
    f == "direction"@ || f == "dir"@ || f == "type"@ || f == "i/o"@
}

pub open spec fn is_voltage_word(f: Seq<char>) -> bool {
    f == "voltage"@ || f == "level"@ || f == "vcc"@
}

/// The header fields among `fs`: for each kind, the first field (lower-
/// cased) that names it.
pub open spec fn header_scan(fs: Seq<Seq<char>>) -> HeaderScan
    decreases fs.len(),
{
    if fs.len() == 0 {
        (None, None, None, None, 0)
    } else {
        let h = header_scan(fs.drop_last());
        let f = str_to_lowercase(fs.last());
        let i = fs.len() - 1;
        if is_pin_word(f) && h.0 is None {
            (Some(i), h.1, h.2, h.3, h.4 + 1)
        } else if is_signal_word(f) && h.1 is None {
            (h.0, Some(i), h.2, h.3, h.4 + 1)
        } else if is_direction_word(f) && h.2 is None {
            (h.0, h.1, Some(i), h.3, h.4 + 1)
        } else if is_voltage_word(f) && h.3 is None {
            (h.0, h.1, h.2, Some(i), h.4 + 1)
        } else {
            h
        }
    }
}

/// Whether a line is a pin table header: two fields or more, two of them
/// known, one naming the pin or the signal.
pub open spec fn table_header_of(line: Seq<char>) -> Option<HeaderScan> {
    let fs = words(line);
    let h = header_scan(fs);
    if fs.len() >= 2 && h.4 >= 2 && (h.0 is Some || h.1 is Some) {
        Some(h)
    } else {
        None
    }
}

impl TablePattern {
    /// The pattern the header fields of a line of `n` fields give.
    pub open spec fn is_scan(self, h: HeaderScan, n: int) -> bool {
        &&& col_int(self.pin_field) == h.0
        &&& col_int(self.signal_field) == h.1
        &&& col_int(self.direction_field) == h.2
        &&& col_int(self.voltage_field) == h.3
        &&& self.total_fields == n
    }
}

/// The table layout a header line names, if it is one.
pub open spec fn header_pattern(line: Seq<char>) -> Option<TablePattern> {
    match table_header_of(line) {
        Some(h) => Some(
            TablePattern {
                pin_field: opt_usize(h.0),
                signal_field: opt_usize(h.1),
                direction_field: opt_usize(h.2),
                voltage_field: opt_usize(h.3),
                total_fields: words(line).len() as usize,
            },
        ),
        None => None,
    }
}

/// The table layout a header line names, if it is one.
pub fn detect_table_header(line: &str) -> (r: Option<TablePattern>)
    ensures
        match table_header_of(line@) {
            Some(h) => r matches Some(t) && t.is_scan(h, words(line@).len() as int),
            None => r is None,
        },
        r == header_pattern(line@),
{
    let lv = chars_of(line);
    let fields = split_words(lv.as_slice());
    let ghost fs = words(line@);
    assert(fields@.len() == fs.len());
    if fields.len() < 2 {
        return None;
    }
    let mut pin: Option<usize> = None;
    let mut signal: Option<usize> = None;
    let mut direction: Option<usize> = None;
    let mut voltage: Option<usize> = None;
    let mut recognized: usize = 0;
    let mut i: usize = 0;
    while i < fields.len()
        invariant
            i <= fields@.len() == fs.len(),
            forall|k: int| 0 <= k < fields@.len() ==> (#[trigger] fields@[k])@ == fs[k],
            (col_int(pin), col_int(signal), col_int(direction), col_int(voltage), recognized as int) == header_scan(
                fs.take(i as int),
            ),
            recognized <= i,
        decreases fields.len() - i,
    {
        assert(fs.take(i + 1).drop_last() =~= fs.take(i as int));
        assert(fs.take(i + 1).last() == fields@[i as int]@);
        let fstr = string_from_chars(fields[i].as_slice());
        let l = to_lowercase_string(fstr.as_str());
        let fv = chars_of(l.as_str());
        let f = fv.as_slice();
        if (eq_str(f, "pin") || eq_str(f, "pin#") || eq_str(f, "pin_no") || eq_str(f, "number")) && pin.is_none() {
            pin = Some(i);
            recognized = recognized + 1;
        } else if (eq_str(f, "signal") || eq_str(f, "name") || eq_str(f, "net") || eq_str(f, "function")
            || eq_str(f, "signal_name") || eq_str(f, "pin_name")) && signal.is_none() {
            signal = Some(i);
            recognized = recognized + 1;
        } else if (eq_str(f, "direction") || eq_str(f, "dir") || eq_str(f, "type") || eq_str(f, "i/o"))
            && direction.is_none() {
            direction = Some(i);
            recognized = recognized + 1;
        } else if (eq_str(f, "voltage") || eq_str(f, "level") || eq_str(f, "vcc")) && voltage.is_none() {
            voltage = Some(i);
            recognized = recognized + 1;
        }
        i = i + 1;
    }
    assert(fs.take(fields@.len() as int) =~= fs);
    if recognized >= 2 && (pin.is_some() || signal.is_some()) {
        Some(TablePattern {
            pin_field: pin,
            signal_field: signal,
            direction_field: direction,
            voltage_field: voltage,
            total_fields: fields.len(),
        })
    } else {
        None
    }
}

/// The UTF-8 length of a character.
pub open spec fn utf8_width(c: char) -> nat {
    if (c as u32) < 0x80 {
        1
    } else if (c as u32) < 0x800 {
        2
    } else if (c as u32) < 0x10000 {
        3
    } else {
        4
    }
}

/// The UTF-8 length of a text (what `str::len` gives).
pub open spec fn utf8_len(s: Seq<char>) -> nat
    decreases s.len(),
{
    if s.len() == 0 {
        0
    } else {
        utf8_len(s.drop_last()) + utf8_width(s.last())
    }
}

proof fn lemma_utf8_len_mono(s: Seq<char>, i: int, j: int)
    requires
        0 <= i <= j <= s.len(),
    ensures
        utf8_len(s.take(i)) <= utf8_len(s.take(j)),
    decreases j - i,
{
    if i < j {
        assert(s.take(j).drop_last() =~= s.take(j - 1));
        lemma_utf8_len_mono(s, i, j - 1);
    }
}

/// Whether the UTF-8 length of `v` exceeds `n`.
fn utf8_longer_than(v: &[char], n: usize) -> (r: bool)
    requires
        n < usize::MAX - 4,
    ensures
        r == (utf8_len(v@) > n),
{
    let mut total: usize = 0;
    let mut i: usize = 0;
    while i < v.len()
        invariant
            i <= v@.len(),
            total == utf8_len(v@.take(i as int)),
            total <= n,
            n < usize::MAX - 4,
        decreases v.len() - i,
    {
        assert(v@.take(i + 1).drop_last() =~= v@.take(i as int));
        let u = v[i] as u32;
        let w: usize = if u < 0x80 {
            1
        } else if u < 0x800 {
            2
        } else if u < 0x10000 {
            3
        } else {
            4
        };
        total = total + w;
        i = i + 1;
        if total > n {
            proof {
                lemma_utf8_len_mono(v@, i as int, v@.len() as int);
                assert(v@.take(v@.len() as int) =~= v@);
            }
            return true;
        }
    }
    assert(v@.take(v@.len() as int) =~= v@);
    false
}

/// The channel a table row gives, as values.
pub open spec fn table_row_of(line: Seq<char>, p: TablePattern) -> Option<ChannelView> {
    let fs = words(line);
    let diff = (fs.len() as i32).wrapping_sub(p.total_fields as i32);
    if fs.len() < 2 || diff > 2 || diff < -2 {
        None
    } else {
        let signal = match cell_of(fs, p.signal_field) {
            Some(x) => x,
            None => Seq::<char>::empty(),
        };
        let channel = match cell_of(fs, p.pin_field) {
            Some(x) => match parse_signed(x, i32::MIN as int, i32::MAX as int) {
                Some(n) => n,
                None => -1,
            },
            None => -1,
        };
        if signal.len() == 0 && channel < 0 {
            None
        } else if signal.contains(' ') || utf8_len(signal) > 64 {
            None
        } else {
            let dir = match cell_of(fs, p.direction_field) {
                Some(d) => direction_of(str_to_lowercase(trim(d))),
                None => "IO"@,
            };
            let name = if signal.len() == 0 {
                "PIN_"@ + dec_chars(channel as nat)
            } else {
                signal
            };
            Some((name, channel as i32, dir, cell_of(fs, p.voltage_field), None))
        }
    }
}

/// The channel of a row of a pin table, if the row is one: about as many
/// fields as the header, a signal or a pin number, a signal without
/// spaces of at most 64 bytes. A row without a signal is named after its
/// pin.
pub fn parse_table_row(line: &str, pattern: &TablePattern) -> (r: Option<ExtractedChannel>)
    ensures
        match table_row_of(line@, *pattern) {
            Some(c) => r matches Some(x) && x.view_tuple() == c,
            None => r is None,
        },
{
    let lv = chars_of(line);
    let fields = split_words(lv.as_slice());
    let ghost fs = words(line@);
    assert(fields@.len() == fs.len());
    let n = fields.len();
    let diff: i32 = (#[verifier::truncate] (n as i32)).wrapping_sub(#[verifier::truncate] (pattern.total_fields as i32));
    if n < 2 || diff > 2 || diff < -2 {
        return None;
    }
    let signal: Vec<char> = match pattern.signal_field {
        Some(k) => if k < n {
            assert(fields@[k as int]@ == fs[k as int]);
            slice_range(fields[k].as_slice(), 0, fields[k].len())
        } else {
            Vec::new()
        },
        None => Vec::new(),
    };
    let channel: i32 = match pattern.pin_field {
        Some(k) => if k < n {
            assert(fields@[k as int]@ == fs[k as int]);
            match parse_i32(fields[k].as_slice()) {
                Some(x) => x,
                None => -1,
            }
        } else {
            -1
        },
        None => -1,
    };
    let ghost spec_signal = match cell_of(fs, pattern.signal_field) {
        Some(x) => x,
        None => Seq::<char>::empty(),
    };
    let ghost spec_channel = match cell_of(fs, pattern.pin_field) {
        Some(x) => match parse_signed(x, i32::MIN as int, i32::MAX as int) {
            Some(v) => v,
            None => -1,
        },
        None => -1,
    };
    assert(signal@ == spec_signal);
    assert(channel as int == spec_channel);
    if signal.len() == 0 && channel < 0 {
        return None;
    }
    if crate::text::contains_char(signal.as_slice(), ' ') || utf8_longer_than(signal.as_slice(), 64) {
        return None;
    }
    let direction = match pattern.direction_field {
        Some(k) => if k < n {
            assert(fields@[k as int]@ == fs[k as int]);
            let ds = string_from_chars(fields[k].as_slice());
            normalize_direction(ds.as_str())
        } else {
            "IO".to_owned()
        },
        None => "IO".to_owned(),
    };
    let voltage: Option<String> = match pattern.voltage_field {
        Some(k) => if k < n {
            assert(fields@[k as int]@ == fs[k as int]);
            Some(string_from_chars(fields[k].as_slice()))
        } else {
            None
        },
        None => None,
    };
    let name = if signal.len() == 0 {
        let mut m: Vec<char> = Vec::new();
        push_str(&mut m, "PIN_");
        push_decimal(&mut m, channel as u64);
        string_from_chars(m.as_slice())
    } else {
        string_from_chars(signal.as_slice())
    };
    Some(ExtractedChannel { signal_name: name, channel, direction, voltage, group: None })
}

// -----------------------------------------------------------------------------
// Datasheet text: pin/signal pairs
// -----------------------------------------------------------------------------

/// How many ASCII digits `s` starts with.
pub open spec fn digit_run(s: Seq<char>) -> nat
    decreases s.len(),
{
    if s.len() > 0 && is_digit(s[0]) {
        1 + digit_run(s.drop_first())
    } else {
        0
    }
}

/// The leading number of a text and the (trimmed) rest, after trimming.
pub open spec fn first_number(s: Seq<char>) -> Option<(Seq<char>, Seq<char>)> {
    let t = trim(s);
    let e = digit_run(t);
    if e == 0 {
        None
    } else {
        Some((t.take(e as int), trim(t.skip(e as int))))
    }
}

proof fn lemma_digit_run(s: Seq<char>, i: int)
    requires
        0 <= i <= digit_run(s),
    ensures
        digit_run(s) <= s.len(),
        i < digit_run(s) ==> is_digit(s[i]),
        digit_run(s) < s.len() ==> !is_digit(s[digit_run(s) as int]),
    decreases s.len(),
{
    if s.len() > 0 && is_digit(s[0]) {
        if i > 0 {
            lemma_digit_run(s.drop_first(), i - 1);
        } else {
            lemma_digit_run(s.drop_first(), 0);
        }
    }
}

fn digit_run_len(v: &[char]) -> (r: usize)
    ensures
        r == digit_run(v@),
{
    let mut i: usize = 0;
    assert(v@.skip(0) =~= v@);
    while i < v.len() && '0' <= v[i] && v[i] <= '9'
        invariant
            i <= v@.len(),
            digit_run(v@) == i + digit_run(v@.skip(i as int)),
        decreases v.len() - i,
    {
        assert(v@.skip(i as int).drop_first() =~= v@.skip(i + 1));
        i = i + 1;
    }
    i
}

/// The leading number of a text and the rest (`split_first_number`).
pub fn split_first_number(s: &[char]) -> (r: Option<(Vec<char>, Vec<char>)>)
    ensures
        match first_number(s@) {
            Some((a, b)) => r matches Some((x, y)) && x@ == a && y@ == b,
            None => r is None,
        },
{
    let t = trimmed(s);
    let e = digit_run_len(t.as_slice());
    proof {
        lemma_digit_run(t@, 0);
    }
    if e == 0 {
        return None;
    }
    let num = slice_range(t.as_slice(), 0, e);
    let rest = slice_range(t.as_slice(), e, t.len());
    assert(num@ =~= t@.take(e as int));
    assert(rest@ =~= t@.skip(e as int));
    Some((num, trimmed(rest.as_slice())))
}

/// How many of `:`, `.` and `-` a text starts with.
pub open spec fn lead_marks(s: Seq<char>) -> nat
    decreases s.len(),
{
    if s.len() > 0 && (s[0] == ':' || s[0] == '.' || s[0] == '-') {
        1 + lead_marks(s.drop_first())
    } else {
        0
    }
}

/// Where the first whitespace of a text is (its length when none).
pub open spec fn ws_index(s: Seq<char>) -> nat
    decreases s.len(),
{
    if s.len() == 0 || is_ws(s[0]) {
        0
    } else {
        1 + ws_index(s.drop_first())
    }
}

/// The signal name a text starts with: after trimming and dropping leading
/// `:`, `.` and `-`, its first word, when that starts with a letter or
/// `_`.
pub open spec fn signal_name_of(s: Seq<char>) -> Seq<char> {
    let t0 = trim(s);
    let t = trim(t0.skip(lead_marks(t0) as int));
    let tok = t.take(ws_index(t) as int);
    if tok.len() > 0 && (is_alpha(tok[0]) || tok[0] == '_') {
        tok
    } else {
        Seq::<char>::empty()
    }
}

proof fn lemma_lead_marks_bound(s: Seq<char>)
    ensures
        lead_marks(s) <= s.len(),
    decreases s.len(),
{
    if s.len() > 0 && (s[0] == ':' || s[0] == '.' || s[0] == '-') {
        lemma_lead_marks_bound(s.drop_first());
    }
}

proof fn lemma_ws_index_bound(s: Seq<char>)
    ensures
        ws_index(s) <= s.len(),
    decreases s.len(),
{
    if !(s.len() == 0 || is_ws(s[0])) {
        lemma_ws_index_bound(s.drop_first());
    }
}

/// The signal name a text starts with, or nothing.
pub fn extract_signal_name(s: &[char]) -> (r: Vec<char>)
    ensures
        r@ == signal_name_of(s@),
{
    let t0 = trimmed(s);
    let mut a: usize = 0;
    proof {
        lemma_lead_marks_bound(t0@);
    }
    assert(t0@.skip(0) =~= t0@);
    while a < t0.len() && (t0[a] == ':' || t0[a] == '.' || t0[a] == '-')
        invariant
            a <= t0@.len(),
            lead_marks(t0@) == a + lead_marks(t0@.skip(a as int)),
        decreases t0.len() - a,
    {
        assert(t0@.skip(a as int).drop_first() =~= t0@.skip(a + 1));
        a = a + 1;
    }
    let rest = slice_range(t0.as_slice(), a, t0.len());
    assert(rest@ =~= t0@.skip(a as int));
    let t = trimmed(rest.as_slice());
    let e = first_ws(t.as_slice());
    let tok = slice_range(t.as_slice(), 0, e);
    assert(tok@ =~= t@.take(e as int));
    if tok.len() > 0 && (('a' <= tok[0] && tok[0] <= 'z') || ('A' <= tok[0] && tok[0] <= 'Z') || tok[0] == '_') {
        tok
    } else {
        Vec::new()
    }
}

/// Whether a name looks like a signal: 2 to 31 characters, a letter
/// first, then letters, digits and `_`.
pub open spec fn signal_like(s: Seq<char>) -> bool {
    &&& s.len() > 1
    &&& s.len() < 32
    &&& is_alpha(s[0])
    &&& forall|k: int| 0 <= k < s.len() ==> is_alnum(#[trigger] s[k]) || s[k] == '_'
}

/// Whether a name looks like a signal.
pub fn is_signal_like(name: &[char]) -> (r: bool)
    ensures
        r == signal_like(name@),
{
    if name.len() <= 1 || name.len() >= 32 {
        return false;
    }
    if !(('a' <= name[0] && name[0] <= 'z') || ('A' <= name[0] && name[0] <= 'Z')) {
        return false;
    }
    let mut k: usize = 0;
    while k < name.len()
        invariant
            k <= name@.len(),
            forall|j: int| 0 <= j < k ==> is_alnum(#[trigger] name@[j]) || name@[j] == '_',
        decreases name.len() - k,
    {
        let c = name[k];
        if !(('a' <= c && c <= 'z') || ('A' <= c && c <= 'Z') || ('0' <= c && c <= '9') || c == '_') {
            return false;
        }
        k = k + 1;
    }
    true
}

/// Whether a text starts with `pin`, in any letter case.
pub open spec fn starts_with_pin(s: Seq<char>) -> bool {
    s.len() >= 3 && lower_seq(s.take(3)) == "pin"@
}

/// `Pin <n> <signal>`: after `pin` (any case) and blanks, a number, then a
/// signal name as written.
pub open spec fn pin_first_form(line: Seq<char>) -> Option<(int, Seq<char>)> {
    if starts_with_pin(line) {
        let r0 = line.skip(3);
        let rest = r0.skip(crate::text::lead_ws(r0) as int);
        match first_number(rest) {
            Some((num, after)) => match parse_signed(num, i32::MIN as int, i32::MAX as int) {
                Some(pin) => {
                    let sig = signal_name_of(after);
                    if sig.len() > 0 {
                        Some((pin, sig))
                    } else {
                        None
                    }
                },
                None => None,
            },
            None => None,
        }
    } else {
        None
    }
}

/// `<signal> (Pin <n>)`: a first word starting with a letter or `_`, then
/// `(`, `pin` (any case), a number and `)`.
pub open spec fn signal_first_form(line: Seq<char>) -> Option<(int, Seq<char>)> {
    let t = trim(line);
    let tok = t.take(ws_index(t) as int);
    let r = trim(t.skip(ws_index(t) as int));
    if tok.len() > 0 && (is_alpha(tok[0]) || tok[0] == '_') && r.len() > 0 && r[0] == '('
        && starts_with_pin(r.drop_first()) {
        match first_number(r.drop_first().skip(3)) {
            Some((num, after)) => if after.len() == 1 && after[0] == ')' {
                match parse_signed(num, i32::MIN as int, i32::MAX as int) {
                    Some(pin) => Some((pin, tok)),
                    None => None,
                }
            } else {
                None
            },
            None => None,
        }
    } else {
        None
    }
}

/// `<n> <signal>`: a number below 256, then a signal-like name.
pub open spec fn number_first_form(line: Seq<char>) -> Option<(int, Seq<char>)> {
    match first_number(trim(line)) {
        Some((num, after)) => match parse_signed(num, i32::MIN as int, i32::MAX as int) {
            Some(pin) => {
                let sig = signal_name_of(after);
                if pin < 256 && sig.len() > 0 && signal_like(sig) {
                    Some((pin, sig))
                } else {
                    None
                }
            },
            None => None,
        },
        None => None,
    }
}

/// The pin number and signal a datasheet line pairs, signal names kept as
/// written: `Pin <n> <signal>`, else `<signal> (Pin <n>)`, else
/// `<n> <signal>`.
pub open spec fn pin_signal_of(line: Seq<char>) -> Option<(int, Seq<char>)> {
    match pin_first_form(line) {
        Some(x) => Some(x),
        None => match signal_first_form(line) {
            Some(x) => Some(x),
            None => number_first_form(line),
        },
    }
}

fn skip_leading_ws(v: &[char]) -> (r: Vec<char>)
    ensures
        r@ == v@.skip(crate::text::lead_ws(v@) as int),
{
    let mut a: usize = 0;
    assert(v@.skip(0) =~= v@);
    while a < v.len() && is_whitespace(v[a])
        invariant
            a <= v@.len(),
            crate::text::lead_ws(v@) == a + crate::text::lead_ws(v@.skip(a as int)),
        decreases v.len() - a,
    {
        assert(v@.skip(a as int).drop_first() =~= v@.skip(a + 1));
        a = a + 1;
    }
    let r = slice_range(v, a, v.len());
    assert(r@ =~= v@.skip(a as int));
    r
}

/// Where the first whitespace of a text is.
fn first_ws(t: &[char]) -> (e: usize)
    ensures
        e == ws_index(t@),
        e <= t@.len(),
{
    let mut e: usize = 0;
    proof {
        lemma_ws_index_bound(t@);
    }
    assert(t@.skip(0) =~= t@);
    while e < t.len() && !is_whitespace(t[e])
        invariant
            e <= t@.len(),
            ws_index(t@) == e + ws_index(t@.skip(e as int)),
        decreases t.len() - e,
    {
        assert(t@.skip(e as int).drop_first() =~= t@.skip(e + 1));
        e = e + 1;
    }
    e
}

/// Whether a text starts with `pin`, in any letter case.
fn begins_with_pin(s: &[char]) -> (r: bool)
    ensures
        r == starts_with_pin(s@),
{
    if s.len() < 3 {
        return false;
    }
    let head = slice_range(s, 0, 3);
    assert(head@ =~= s@.take(3));
    eq_lower(head.as_slice(), "pin")
}

fn pin_first(line: &[char]) -> (r: Option<(i32, Vec<char>)>)
    ensures
        match pin_first_form(line@) {
            Some((pin, sig)) => r matches Some((p, s)) && p as int == pin && s@ == sig,
            None => r is None,
        },
{
    if !begins_with_pin(line) {
        return None;
    }
    let r0 = slice_range(line, 3, line.len());
    assert(r0@ =~= line@.skip(3));
    let rest = skip_leading_ws(r0.as_slice());
    match split_first_number(rest.as_slice()) {
        Some((num, after)) => match parse_i32(num.as_slice()) {
            Some(pin) => {
                let sig = extract_signal_name(after.as_slice());
                if sig.len() > 0 {
                    Some((pin, sig))
                } else {
                    None
                }
            },
            None => None,
        },
        None => None,
    }
}

fn signal_first(line: &[char]) -> (r: Option<(i32, Vec<char>)>)
    ensures
        match signal_first_form(line@) {
            Some((pin, sig)) => r matches Some((p, s)) && p as int == pin && s@ == sig,
            None => r is None,
        },
{
    let t = trimmed(line);
    let e = first_ws(t.as_slice());
    let tok = slice_range(t.as_slice(), 0, e);
    assert(tok@ =~= t@.take(e as int));
    let tail = slice_range(t.as_slice(), e, t.len());
    assert(tail@ =~= t@.skip(e as int));
    let r = trimmed(tail.as_slice());
    if tok.len() == 0 || !(('a' <= tok[0] && tok[0] <= 'z') || ('A' <= tok[0] && tok[0] <= 'Z') || tok[0] == '_') {
        return None;
    }
    if r.len() == 0 || r[0] != '(' {
        return None;
    }
    let r1 = slice_range(r.as_slice(), 1, r.len());
    assert(r1@ =~= r@.drop_first());
    if !begins_with_pin(r1.as_slice()) {
        return None;
    }
    let r2 = slice_range(r1.as_slice(), 3, r1.len());
    assert(r2@ =~= r1@.skip(3));
    match split_first_number(r2.as_slice()) {
        Some((num, after)) => {
            if after.len() == 1 && after[0] == ')' {
                match parse_i32(num.as_slice()) {
                    Some(pin) => Some((pin, tok)),
                    None => None,
                }
            } else {
                None
            }
        },
        None => None,
    }
}

fn number_first(line: &[char]) -> (r: Option<(i32, Vec<char>)>)
    ensures
        match number_first_form(line@) {
            Some((pin, sig)) => r matches Some((p, s)) && p as int == pin && s@ == sig,
            None => r is None,
        },
{
    let t = trimmed(line);
    match split_first_number(t.as_slice()) {
        Some((num, after)) => match parse_i32(num.as_slice()) {
            Some(pin) => {
                let sig = extract_signal_name(after.as_slice());
                if pin < 256 && sig.len() > 0 && is_signal_like(sig.as_slice()) {
                    Some((pin, sig))
                } else {
                    None
                }
            },
            None => None,
        },
        None => None,
    }
}

/// The pin/signal pair of a datasheet line, if it has one.
pub fn simple_pin_signal_match(line: &str) -> (r: Option<(i32, String)>)
    ensures
        match pin_signal_of(line@) {
            Some((pin, sig)) => r matches Some((p, s)) && p as int == pin && s@ == sig,
            None => r is None,
        },
{
    let lv = chars_of(line);
    let found = match pin_first(lv.as_slice()) {
        Some(x) => Some(x),
        None => match signal_first(lv.as_slice()) {
            Some(x) => Some(x),
            None => number_first(lv.as_slice()),
        },
    };
    match found {
        Some((pin, sig)) => Some((pin, string_from_chars(sig.as_slice()))),
        None => None,
    }
}

/// A pin and the signal found for it.
pub type PinPair = (int, Seq<char>);

/// `p` added to pairs sorted by pin, unless its pin is there already.
pub open spec fn insert_pin(s: Seq<PinPair>, p: PinPair) -> Seq<PinPair>
    decreases s.len(),
{
    if s.len() == 0 {
        seq![p]
    } else if s.last().0 == p.0 {
        s
    } else if s.last().0 < p.0 {
        s.push(p)
    } else {
        insert_pin(s.drop_last(), p).push(s.last())
    }
}

/// Whether the pins strictly increase.
pub open spec fn pins_increase(s: Seq<PinPair>) -> bool {
    forall|i: int, j: int| 0 <= i < j < s.len() ==> s[i].0 < s[j].0
}

/// The pin/signal pairs of datasheet lines: for each pin from 0 to 255,
/// the signal of the first line that names it, by pin.
pub open spec fn scattered_pairs(ls: Seq<Seq<char>>) -> Seq<PinPair>
    decreases ls.len(),
{
    if ls.len() == 0 {
        seq![]
    } else {
        let prev = scattered_pairs(ls.drop_last());
        let t = trim(ls.last());
        if t.len() == 0 {
            prev
        } else {
            match pin_signal_of(t) {
                Some((pin, sig)) => if 0 <= pin < 256 && sig.len() > 0 {
                    insert_pin(prev, (pin, sig))
                } else {
                    prev
                },
                None => prev,
            }
        }
    }
}

proof fn lemma_insert_pin_keeps_order(s: Seq<PinPair>, p: PinPair)
    requires
        pins_increase(s),
    ensures
        pins_increase(insert_pin(s, p)),
        forall|i: int| 0 <= i < insert_pin(s, p).len() ==> (#[trigger] insert_pin(s, p)[i] == p || s.contains(
            insert_pin(s, p)[i],
        )),
    decreases s.len(),
{
    if s.len() > 0 && s.last().0 != p.0 && !(s.last().0 < p.0) {
        let d = s.drop_last();
        assert forall|i: int, j: int| 0 <= i < j < d.len() implies d[i].0 < d[j].0 by {
            assert(d[i] == s[i] && d[j] == s[j]);
        }
        lemma_insert_pin_keeps_order(d, p);
        let q = insert_pin(d, p);
        assert forall|i: int| 0 <= i < q.len() implies #[trigger] q[i].0 < s.last().0 by {
            if q[i] != p {
                assert(d.contains(q[i]));
                let k = choose|k: int| 0 <= k < d.len() && d[k] == q[i];
                assert(s[k] == d[k]);
                assert(s[k].0 < s[s.len() - 1].0);
            }
        }
        assert forall|i: int| 0 <= i < q.len() implies (#[trigger] q[i] == p || s.contains(q[i])) by {
            if q[i] != p {
                assert(d.contains(q[i]));
                let k = choose|k: int| 0 <= k < d.len() && d[k] == q[i];
                assert(s[k] == d[k]);
            }
        }
        assert(s.contains(s.last())) by {
            assert(s[s.len() - 1] == s.last());
        }
    } else if s.len() > 0 && s.last().0 < p.0 {
        assert forall|i: int| 0 <= i < s.len() implies #[trigger] s[i].0 < p.0 by {
            if i < s.len() - 1 {
                assert(s[i].0 < s[s.len() - 1].0);
            }
        }
        assert forall|i: int| 0 <= i < s.len() implies s.contains(#[trigger] s[i]) by {
        }
    } else if s.len() > 0 {
        assert forall|i: int| 0 <= i < s.len() implies s.contains(#[trigger] s[i]) by {
        }
    }
}

/// The pairs found in datasheet text come out by strictly increasing pin,
/// so no pin appears twice.
pub proof fn lemma_scattered_pairs_increase(ls: Seq<Seq<char>>)
    ensures
        pins_increase(scattered_pairs(ls)),
    decreases ls.len(),
{
    if ls.len() > 0 {
        lemma_scattered_pairs_increase(ls.drop_last());
        let prev = scattered_pairs(ls.drop_last());
        let t = trim(ls.last());
        if t.len() > 0 {
            match pin_signal_of(t) {
                Some((pin, sig)) => if 0 <= pin < 256 && sig.len() > 0 {
                    lemma_insert_pin_keeps_order(prev, (pin, sig));
                },
                None => {},
            }
        }
    }
}

/// A found pair as a channel: bidirectional, no voltage or group.
pub open spec fn pair_channel(p: PinPair) -> ChannelView {
    (p.1, p.0 as i32, "IO"@, None, None)
}

pub open spec fn pairs_channels(s: Seq<PinPair>) -> Seq<ChannelView> {
    s.map_values(|p: PinPair| pair_channel(p))
}

/// Insert a found pair, as a channel, into channels sorted by pin.
fn insert_pair(v: &mut Vec<ExtractedChannel>, pin: i32, sig: String, Ghost(s): Ghost<Seq<PinPair>>)
    requires
        channels_view(old(v)@) == pairs_channels(s),
        pins_increase(s),
        forall|k: int| 0 <= k < s.len() ==> 0 <= #[trigger] s[k].0 < 256,
        0 <= pin < 256,
    ensures
        channels_view(final(v)@) == pairs_channels(insert_pin(s, (pin as int, sig@))),
{
    let ghost p = (pin as int, sig@);
    let mut k = v.len();
    assert(channels_view(v@).len() == v@.len());
    assert(v@.len() == s.len());
    assert(s.take(k as int) =~= s);
    assert(s.skip(k as int) =~= seq![]);
    assert(insert_pin(s, p) =~= insert_pin(s.take(k as int), p) + s.skip(k as int));
    while k > 0 && v[k - 1].channel > pin
        invariant
            k <= v@.len() == s.len(),
            p == (pin as int, sig@),
            channels_view(v@) == pairs_channels(s),
            forall|j: int| 0 <= j < s.len() ==> 0 <= #[trigger] s[j].0 < 256,
            insert_pin(s, p) == insert_pin(s.take(k as int), p) + s.skip(k as int),
        decreases k,
    {
        proof {
            let t = s.take(k as int);
            assert(channels_view(v@)[k - 1] == pair_channel(s[k - 1]));
            assert(v@[k - 1].channel == s[k - 1].0 as i32);
            assert(0 <= s[k - 1].0 < 256);
            assert((s[k - 1].0 as i32) as int == s[k - 1].0);
            assert(s[k - 1].0 > p.0);
            assert(t.last() == s[k - 1]);
            assert(t.drop_last() =~= s.take(k - 1));
            assert(insert_pin(t, p) == insert_pin(s.take(k - 1), p).push(s[k - 1]));
            assert(insert_pin(s.take(k - 1), p).push(s[k - 1]) + s.skip(k as int)
                =~= insert_pin(s.take(k - 1), p) + s.skip(k - 1));
        }
        k = k - 1;
    }
    if k > 0 && v[k - 1].channel == pin {
        proof {
            assert(channels_view(v@)[k - 1] == pair_channel(s[k - 1]));
            let t = s.take(k as int);
            assert(t.last() == s[k - 1]);
            assert(t + s.skip(k as int) =~= s);
        }
        return;
    }
    proof {
        let t = s.take(k as int);
        if k > 0 {
            assert(channels_view(v@)[k - 1] == pair_channel(s[k - 1]));
            assert(t.last() == s[k - 1]);
        } else {
            assert(t =~= Seq::<PinPair>::empty());
        }
    }
    let c = ExtractedChannel { signal_name: sig, channel: pin, direction: "IO".to_owned(), voltage: None, group: None };
    let ghost cv = c.view_tuple();
    assert(cv == pair_channel(p));
    let ghost before = v@;
    v.insert(k, c);
    let ghost want = s.take(k as int).push(p) + s.skip(k as int);
    assert(v@ == before.insert(k as int, c));
    assert forall|j: int| 0 <= j < v@.len() implies #[trigger] channels_view(v@)[j] == pairs_channels(want)[j] by {
        assert(channels_view(before)[j] == pairs_channels(s)[j] || j >= before.len());
        if j < k {
            assert(channels_view(before)[j] == pair_channel(s[j]));
            assert(want[j] == s[j]);
        } else if j == k {
            assert(want[j] == p);
        } else {
            assert(channels_view(before)[j - 1] == pair_channel(s[j - 1]));
            assert(want[j] == s[j - 1]);
        }
    }
    assert(channels_view(v@) =~= pairs_channels(want));
}

/// The pin/signal pairs of datasheet lines as channels sorted by pin
/// (each pin with the signal of the first line naming it); a warning is
/// added when there are none.
fn extract_scattered_pins(ls: &Vec<Vec<char>>, warnings: &mut Vec<String>) -> (r: Vec<ExtractedChannel>)
    ensures
        channels_view(r@) == pairs_channels(scattered_pairs(ls@.map_values(|l: Vec<char>| l@))),
        strings_view(final(warnings)@) == strings_view(old(warnings)@) + (if r@.len() == 0 {
            seq!["No pin/signal patterns found in PDF text"@]
        } else {
            seq![]
        }),
{
    let ghost lv = ls@.map_values(|l: Vec<char>| l@);
    let mut out: Vec<ExtractedChannel> = Vec::new();
    let mut k: usize = 0;
    assert(channels_view(out@) =~= pairs_channels(scattered_pairs(lv.take(0))));
    while k < ls.len()
        invariant
            k <= ls@.len(),
            lv == ls@.map_values(|l: Vec<char>| l@),
            channels_view(out@) == pairs_channels(scattered_pairs(lv.take(k as int))),
            pins_increase(scattered_pairs(lv.take(k as int))),
            forall|j: int|
                0 <= j < scattered_pairs(lv.take(k as int)).len() ==> 0 <= #[trigger] scattered_pairs(
                    lv.take(k as int),
                )[j].0 < 256,
        decreases ls.len() - k,
    {
        assert(lv.take(k + 1).drop_last() =~= lv.take(k as int));
        assert(lv.take(k + 1).last() == ls@[k as int]@);
        let ghost prev = scattered_pairs(lv.take(k as int));
        let t = trimmed(ls[k].as_slice());
        if t.len() > 0 {
            let ts = string_from_chars(t.as_slice());
            match simple_pin_signal_match(ts.as_str()) {
                Some((pin, sig)) => {
                    if pin >= 0 && pin < 256 && chars_of(sig.as_str()).len() > 0 {
                        proof {
                            lemma_insert_pin_keeps_order(prev, (pin as int, sig@));
                            let q = insert_pin(prev, (pin as int, sig@));
                            assert forall|j: int| 0 <= j < q.len() implies 0 <= #[trigger] q[j].0 < 256 by {
                                if q[j] != (pin as int, sig@) {
                                    let i0 = choose|i0: int| 0 <= i0 < prev.len() && prev[i0] == q[j];
                                    assert(0 <= prev[i0].0 < 256);
                                }
                            }
                        }
                        insert_pair(&mut out, pin, sig, Ghost(prev));
                    }
                },
                None => {},
            }
        }
        k = k + 1;
    }
    assert(lv.take(ls@.len() as int) =~= lv);
    if out.len() == 0 {
        let ghost before = warnings@;
        warnings.push("No pin/signal patterns found in PDF text".to_owned());
        assert(strings_view(warnings@) =~= strings_view(before) + seq!["No pin/signal patterns found in PDF text"@]);
    } else {
        assert(strings_view(warnings@) =~= strings_view(old(warnings)@) + seq![]);
    }
    out
}

// -----------------------------------------------------------------------------
// Datasheet text: the whole flow
// -----------------------------------------------------------------------------

/// Whether a table is open, its layout, and the channels read so far.
pub type PdfState = (bool, Option<TablePattern>, Seq<ChannelView>);

/// One line of datasheet text: blank lines are skipped; outside a table a
/// header line opens one; inside, a row adds its channel, and a line that
/// is no row closes the table once it has more than two channels.
pub open spec fn pdf_step(st: PdfState, line: Seq<char>) -> PdfState {
    let t = trim(line);
    if t.len() == 0 {
        st
    } else if !st.0 && header_pattern(t) is Some {
        (true, header_pattern(t), st.2)
    } else if st.0 {
        match st.1 {
            Some(p) => match table_row_of(t, p) {
                Some(c) => (st.0, st.1, st.2.push(c)),
                None => if st.2.len() > 2 {
                    (false, st.1, st.2)
                } else {
                    st
                },
            },
            None => st,
        }
    } else {
        st
    }
}

/// The lines of datasheet text taken in order.
pub open spec fn pdf_lines(ls: Seq<Seq<char>>) -> PdfState
    decreases ls.len(),
{
    if ls.len() == 0 {
        (false, None, seq![])
    } else {
        pdf_step(pdf_lines(ls.drop_last()), ls.last())
    }
}

/// The channels and warnings that datasheet text gives before the count
/// warning: its tables' rows; without any, the pin/signal pairs found in
/// its lines, after a warning (and another when there are none).
pub open spec fn pdf_found(text: Seq<char>) -> (Seq<ChannelView>, Seq<Seq<char>>) {
    let ls = lines(text);
    let tab = pdf_lines(ls).2;
    if tab.len() > 0 {
        (tab, seq![])
    } else {
        let sc = pairs_channels(scattered_pairs(ls));
        (
            sc,
            seq!["No pin table found. Trying pattern extraction..."@] + if sc.len() == 0 {
                seq!["No pin/signal patterns found in PDF text"@]
            } else {
                seq![]
            },
        )
    }
}

/// What the pin table of datasheet text `text` from file `path` is.
pub open spec fn pdf_text_result(text: Seq<char>, path: Seq<char>, r: Result<ExtractedPinTable, String>) -> bool {
    &&& trim(text).len() == 0 ==> (r matches Err(m) && m@ == "PDF contains no extractable text (may be scanned/raster)"@)
    &&& trim(text).len() > 0 ==> {
        let (chs, ws) = pdf_found(text);
        if chs.len() == 0 {
            r matches Err(m) && m@ == "Could not extract pin data from PDF. Try CSV or Excel instead."@
        } else {
            r matches Ok(t) && t.device_name@ == device_name_of(path) && t.source_format@ == "pdf"@
                && channels_view(t.channels@) == chs && t.supplies@.len() == 0 && strings_view(t.warnings@)
                == ws.push("PDF extraction found "@ + dec_chars(chs.len()) + " pins. Verify and edit before generating."@)
        }
    }
}

/// The pin table in the text of a datasheet, with the device name of
/// `path`: its pin tables, else the pin/signal pairs in its lines; a
/// warning reports how many pins were found.
pub fn extract_from_pdf_text(text: &str, path: &str) -> (r: Result<ExtractedPinTable, String>)
    ensures
        pdf_text_result(text@, path@, r),
{
    let tv = chars_of(text);
    let tt = trimmed(tv.as_slice());
    if tt.len() == 0 {
        return Err("PDF contains no extractable text (may be scanned/raster)".to_owned());
    }
    let ls = split_lines(tv.as_slice());
    let ghost lv = ls@.map_values(|l: Vec<char>| l@);
    assert(lv =~= lines(text@));
    let mut warnings: Vec<String> = Vec::new();
    let mut channels: Vec<ExtractedChannel> = Vec::new();
    let mut in_table = false;
    let mut pattern: Option<TablePattern> = None;
    let mut k: usize = 0;
    assert(channels_view(channels@) =~= seq![]);
    while k < ls.len()
        invariant
            k <= ls@.len(),
            lv == ls@.map_values(|l: Vec<char>| l@),
            (in_table, pattern, channels_view(channels@)) == pdf_lines(lv.take(k as int)),
        decreases ls.len() - k,
    {
        assert(lv.take(k + 1).drop_last() =~= lv.take(k as int));
        assert(lv.take(k + 1).last() == ls@[k as int]@);
        let t = trimmed(ls[k].as_slice());
        if t.len() > 0 {
            let ts = string_from_chars(t.as_slice());
            let mut opened = false;
            if !in_table {
                match detect_table_header(ts.as_str()) {
                    Some(p) => {
                        in_table = true;
                        pattern = Some(p);
                        opened = true;
                    },
                    None => {},
                }
            }
            if !opened && in_table {
                match pattern {
                    Some(p) => match parse_table_row(ts.as_str(), &p) {
                        Some(c) => {
                            let ghost cv = c.view_tuple();
                            let ghost before = channels@;
                            channels.push(c);
                            assert(channels_view(channels@) =~= channels_view(before).push(cv));
                        },
                        None => {
                            if channels.len() > 2 {
                                in_table = false;
                            }
                        },
                    },
                    None => {},
                }
            }
        }
        k = k + 1;
    }
    assert(lv.take(ls@.len() as int) =~= lv);
    if channels.len() == 0 {
        warnings.push("No pin table found. Trying pattern extraction...".to_owned());
        let ghost w0 = strings_view(warnings@);
        assert(w0 =~= seq!["No pin table found. Trying pattern extraction..."@]);
        channels = extract_scattered_pins(&ls, &mut warnings);
    } else {
        assert(strings_view(warnings@) =~= seq![]);
    }
    if channels.len() == 0 {
        return Err("Could not extract pin data from PDF. Try CSV or Excel instead.".to_owned());
    }
    assert(channels_view(channels@).len() == channels@.len());
    let mut m: Vec<char> = Vec::new();
    push_str(&mut m, "PDF extraction found ");
    push_decimal(&mut m, channels.len() as u64);
    push_str(&mut m, " pins. Verify and edit before generating.");
    let ghost before = warnings@;
    let w = string_from_chars(m.as_slice());
    let ghost wv = w@;
    warnings.push(w);
    assert(strings_view(warnings@) =~= strings_view(before).push(wv));
    Ok(ExtractedPinTable {
        device_name: device_name_from_path(path),
        source_format: "pdf".to_owned(),
        channels,
        supplies: Vec::new(),
        warnings,
    })
}

/// The pin table of a PDF file from the outcome of extracting its text:
/// the extractor's error as a message, else the text read as
/// `extract_from_pdf_text` reads it.
pub fn extract_from_pdf_extraction(text: &Result<String, String>, path: &str) -> (r: Result<
    ExtractedPinTable,
    String,
>)
    ensures
        match text {
            Err(e) => r matches Err(m) && m@ == "Failed to extract PDF text: "@ + e@,
            Ok(t) => pdf_text_result(t@, path@, r),
        },
{
    match text {
        Ok(t) => extract_from_pdf_text(t.as_str(), path),
        Err(e) => {
            let mut m: Vec<char> = Vec::new();
            push_str(&mut m, "Failed to extract PDF text: ");
            push_str(&mut m, e.as_str());
            Err(string_from_chars(m.as_slice()))
        },
    }
}

} // verus!
