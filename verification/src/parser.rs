//! The line-by-line state machine that reads a link map.
//!
//! A link map is a run of blocks, each opened by a line that begins with `#`.
//! The parser keeps the block it is in as its phase, reads each line as a
//! record of that block, and then looks at the line once more as a header.

use vstd::prelude::*;
use crate::demangle::{demangle_symbol, demangled_name, may_be_rust_symbol};
use crate::number::{all_digits, digit_of, digits_value};
use crate::record::{
    four_fields, hex_field, lemma_dead_symbol_is_unplaced, lemma_few_fields_carry_nothing,
    lemma_object_file_line, lemma_section_line, lemma_symbol_line, object_file_of,
    parse_object_file_line, parse_section_line, parse_symbol_line, section_of, symbol_of,
    three_fields, LineError, LineErrorView, LinkMap, LinkMapView, ObjectFileView, SectionView,
    SymbolObject, SymbolView,
};
use crate::text::{count_of, is_space, lemma_split_at_first_count, split_at_first, starts_with};

verus! {

/// The block of the link map that the next line belongs to.
#[derive(Debug, Clone, Copy, PartialEq, Eq, Structural)]
pub enum ParsingPhase {
    /// No block: lines are looked at as headers only.
    Unknown,
    ObjectFiles,
    /// The next line is the column titles of the sections block.
    SectionsHeader,
    Sections,
    /// The next line is the column titles of the symbols block.
    SymbolsHeader,
    Symbols,
    /// The next line is the column titles of the dead-stripped symbols block.
    DeadStrippedSymbolsHeader,
    DeadStrippedSymbols,
}

/// What the parser has to say about a line it has read.
#[derive(Debug, PartialEq, Eq)]
pub struct LineReport {
    /// Why the line gave no record, where the phase asked for one.
    pub skipped: Option<LineError>,
    /// The line begins with `#` and is none of the known headers.
    pub unrecognized_header: bool,
}

pub ghost struct LineReportView {
    pub skipped: Option<LineErrorView>,
    pub unrecognized_header: bool,
}

impl View for LineReport {
    type V = LineReportView;

    open spec fn view(&self) -> LineReportView {
        LineReportView {
            skipped: match self.skipped {
                Some(e) => Some(e@),
                None => None,
            },
            unrecognized_header: self.unrecognized_header,
        }
    }
}

/// A parser between two lines: its phase and what it has gathered.
pub ghost struct ParserState {
    pub phase: ParsingPhase,
    pub linkmap: LinkMapView,
}

/// A link map parser that is fed one line at a time.
#[derive(Debug)]
pub struct LinkMapParser {
    pub phase: ParsingPhase,
    pub linkmap: LinkMap,
    /// Whether symbol names are stored demangled.
    pub demangle: bool,
}

impl View for LinkMapParser {
    type V = ParserState;

    open spec fn view(&self) -> ParserState {
        ParserState { phase: self.phase, linkmap: self.linkmap@ }
    }
}

impl ParserState {
    /// The state before the first line.
    pub open spec fn initial() -> ParserState {
        ParserState { phase: ParsingPhase::Unknown, linkmap: LinkMapView::empty() }
    }
}

/// The name under which a symbol written as `raw` is stored: the demangled
/// one where demangling is asked for and `raw` may be a Rust symbol, else
/// `raw` itself.
pub open spec fn stored_name(raw: Seq<char>, demangle: bool) -> Seq<char> {
    if demangle && may_be_rust_symbol(raw) {
        demangled_name(raw)
    } else {
        raw
    }
}

/// `symbol` under the name it is stored with.
pub open spec fn stored_symbol(symbol: SymbolView, demangle: bool) -> SymbolView {
    SymbolView { name: stored_name(symbol.name, demangle), ..symbol }
}

/// `map` with the record that `line` carries in `phase` added at the end of
/// its sequence; `map` itself where the line carries none.
pub open spec fn with_record(
    map: LinkMapView,
    phase: ParsingPhase,
    line: Seq<char>,
    demangle: bool,
) -> LinkMapView {
    match phase {
        ParsingPhase::ObjectFiles => match object_file_of(line) {
            Ok(file) => LinkMapView { object_files: map.object_files.push(file), ..map },
            Err(_) => map,
        },
        ParsingPhase::Sections => match section_of(line) {
            Ok(section) => LinkMapView { sections: map.sections.push(section), ..map },
            Err(_) => map,
        },
        ParsingPhase::Symbols => match symbol_of(line, true) {
            Ok(symbol) => LinkMapView {
                symbols: map.symbols.push(stored_symbol(symbol, demangle)),
                ..map
            },
            Err(_) => map,
        },
        ParsingPhase::DeadStrippedSymbols => match symbol_of(line, false) {
            Ok(symbol) => LinkMapView {
                dead_stripped_symbols: map.dead_stripped_symbols.push(
                    stored_symbol(symbol, demangle),
                ),
                ..map
            },
            Err(_) => map,
        },
        _ => map,
    }
}

/// Why `line` gives no record in `phase`, where the phase asks for one.
pub open spec fn record_error(phase: ParsingPhase, line: Seq<char>) -> Option<LineErrorView> {
    match phase {
        ParsingPhase::ObjectFiles => match object_file_of(line) {
            Ok(_) => None,
            Err(e) => Some(e),
        },
        ParsingPhase::Sections => match section_of(line) {
            Ok(_) => None,
            Err(e) => Some(e),
        },
        ParsingPhase::Symbols => match symbol_of(line, true) {
            Ok(_) => None,
            Err(e) => Some(e),
        },
        ParsingPhase::DeadStrippedSymbols => match symbol_of(line, false) {
            Ok(_) => None,
            Err(e) => Some(e),
        },
        _ => None,
    }
}

/// `line` begins with `#`.
pub open spec fn is_header(line: Seq<char>) -> bool {
    "#"@.is_prefix_of(line)
}

/// `line` begins with `#` and is none of the six known headers.
pub open spec fn is_unrecognized_header(line: Seq<char>) -> bool {
    &&& is_header(line)
    &&& !"# Path: "@.is_prefix_of(line)
    &&& !"# Arch: "@.is_prefix_of(line)
    &&& !"# Object files:"@.is_prefix_of(line)
    &&& !"# Sections:"@.is_prefix_of(line)
    &&& !"# Symbols:"@.is_prefix_of(line)
    &&& !"# Dead Stripped Symbols:"@.is_prefix_of(line)
}

/// The state after `line` has been looked at as a header. A path or an
/// architecture line stores what follows its marker and keeps the phase; a
/// block header sets the phase; any other line with `#` resets it.
pub open spec fn with_header(state: ParserState, line: Seq<char>) -> ParserState {
    if !is_header(line) {
        state
    } else if "# Path: "@.is_prefix_of(line) {
        ParserState {
            linkmap: LinkMapView { path: line.skip("# Path: "@.len() as int), ..state.linkmap },
            ..state
        }
    } else if "# Arch: "@.is_prefix_of(line) {
        ParserState {
            linkmap: LinkMapView { arch: line.skip("# Arch: "@.len() as int), ..state.linkmap },
            ..state
        }
    } else if "# Object files:"@.is_prefix_of(line) {
        ParserState { phase: ParsingPhase::ObjectFiles, ..state }
    } else if "# Sections:"@.is_prefix_of(line) {
        ParserState { phase: ParsingPhase::SectionsHeader, ..state }
    } else if "# Symbols:"@.is_prefix_of(line) {
        ParserState { phase: ParsingPhase::SymbolsHeader, ..state }
    } else if "# Dead Stripped Symbols:"@.is_prefix_of(line) {
        ParserState { phase: ParsingPhase::DeadStrippedSymbolsHeader, ..state }
    } else {
        ParserState { phase: ParsingPhase::Unknown, ..state }
    }
}

/// The state after one line. After a block header that is followed by column
/// titles, the line is consumed unread. Otherwise it is read as a record of
/// the current phase first and as a header second.
pub open spec fn step(state: ParserState, line: Seq<char>, demangle: bool) -> ParserState {
    match state.phase {
        ParsingPhase::SectionsHeader => ParserState { phase: ParsingPhase::Sections, ..state },
        ParsingPhase::SymbolsHeader => ParserState { phase: ParsingPhase::Symbols, ..state },
        ParsingPhase::DeadStrippedSymbolsHeader => ParserState {
            phase: ParsingPhase::DeadStrippedSymbols,
            ..state
        },
        _ => with_header(
            ParserState {
                phase: state.phase,
                linkmap: with_record(state.linkmap, state.phase, line, demangle),
            },
            line,
        ),
    }
}

/// What is reported of `line` when it is read in `phase`.
pub open spec fn report_of(phase: ParsingPhase, line: Seq<char>) -> LineReportView {
    match phase {
        ParsingPhase::SectionsHeader
        | ParsingPhase::SymbolsHeader
        | ParsingPhase::DeadStrippedSymbolsHeader => LineReportView {
            skipped: None,
            unrecognized_header: false,
        },
        _ => LineReportView {
            skipped: record_error(phase, line),
            unrecognized_header: is_unrecognized_header(line),
        },
    }
}

/// The state after all of `lines`, read in order from the initial state.
pub open spec fn run(lines: Seq<Seq<char>>, demangle: bool) -> ParserState
    decreases lines.len(),
{
    if lines.len() == 0 {
        ParserState::initial()
    } else {
        step(run(lines.drop_last(), demangle), lines.last(), demangle)
    }
}

/// The character sequences of `lines`.
pub open spec fn texts(lines: Seq<String>) -> Seq<Seq<char>> {
    lines.map_values(|line: String| line@)
}

/// Every dead-stripped symbol of `map` has address zero.
pub open spec fn dead_symbols_unplaced(map: LinkMapView) -> bool {
    forall|i: int|
        0 <= i < map.dead_stripped_symbols.len() ==> (
        #[trigger] map.dead_stripped_symbols[i]).address == 0
}

/// `later` holds every record of `earlier`, unchanged and at the same
/// position, and any further records behind them.
pub open spec fn extends(later: LinkMapView, earlier: LinkMapView) -> bool {
    &&& earlier.object_files.is_prefix_of(later.object_files)
    &&& earlier.sections.is_prefix_of(later.sections)
    &&& earlier.symbols.is_prefix_of(later.symbols)
    &&& earlier.dead_stripped_symbols.is_prefix_of(later.dead_stripped_symbols)
}

/// The number of tab-separated fields of `line`.
pub open spec fn field_count(line: Seq<char>) -> nat {
    count_of(line, '\t') + 1
}

/// The number of tab-separated fields that a record of `phase` is made of;
/// zero where the phase reads no such record.
pub open spec fn fields_required(phase: ParsingPhase) -> nat {
    match phase {
        ParsingPhase::Sections => 4,
        ParsingPhase::Symbols | ParsingPhase::DeadStrippedSymbols => 3,
        _ => 0,
    }
}

/// `line` is no header and has fewer fields than a record of `phase` needs.
pub open spec fn is_short_for(phase: ParsingPhase, line: Seq<char>) -> bool {
    &&& !is_header(line)
    &&& field_count(line) < fields_required(phase)
}

/// The line at position `i` of `lines` is short for the phase in which it is read.
pub open spec fn is_short_at(lines: Seq<Seq<char>>, i: int, demangle: bool) -> bool {
    &&& 0 <= i < lines.len()
    &&& is_short_for(run(lines.take(i), demangle).phase, lines[i])
}

/// `lines` without the lines at the positions in `removed`.
pub open spec fn without_lines(lines: Seq<Seq<char>>, removed: Set<int>) -> Seq<Seq<char>>
    decreases lines.len(),
{
    if lines.len() == 0 {
        lines
    } else if removed.contains(lines.len() - 1) {
        without_lines(lines.drop_last(), removed)
    } else {
        without_lines(lines.drop_last(), removed).push(lines.last())
    }
}

impl LinkMapParser {
    /// A parser that has read nothing yet.
    pub fn new(demangle: bool) -> (parser: LinkMapParser)
        ensures
            parser@ == ParserState::initial(),
            parser.demangle == demangle,
    {
        LinkMapParser { phase: ParsingPhase::Unknown, linkmap: LinkMap::new(), demangle }
    }

    /// Reads `line` as a record of the current phase and stores the record, if
    /// it carries one.
    fn read_record(&mut self, line: &str) -> (skipped: Option<LineError>)
        ensures
            final(self).phase == old(self).phase,
            final(self).demangle == old(self).demangle,
            final(self).linkmap@ == with_record(
                old(self).linkmap@,
                old(self).phase,
                line@,
                old(self).demangle,
            ),
            match skipped {
                Some(e) => record_error(old(self).phase, line@) == Some(e@),
                None => record_error(old(self).phase, line@) is None,
            },
    {
        match self.phase {
            ParsingPhase::ObjectFiles => match parse_object_file_line(line) {
                Ok(file) => {
                    self.linkmap.object_files.push(file);
                    assert(self.linkmap@.object_files =~= old(self).linkmap@.object_files.push(
                        file@,
                    ));
                    None
                },
                Err(e) => Some(e),
            },
            ParsingPhase::Sections => match parse_section_line(line) {
                Ok(section) => {
                    self.linkmap.sections.push(section);
                    assert(self.linkmap@.sections =~= old(self).linkmap@.sections.push(section@));
                    None
                },
                Err(e) => Some(e),
            },
            ParsingPhase::Symbols => match parse_symbol_line(line, true) {
                Ok(symbol) => {
                    let ghost written = symbol@;
                    let symbol = store_name(symbol, self.demangle);
                    self.linkmap.symbols.push(symbol);
                    assert(self.linkmap@.symbols =~= old(self).linkmap@.symbols.push(
                        stored_symbol(written, self.demangle),
                    ));
                    None
                },
                Err(e) => Some(e),
            },
            ParsingPhase::DeadStrippedSymbols => match parse_symbol_line(line, false) {
                Ok(symbol) => {
                    let ghost written = symbol@;
                    let symbol = store_name(symbol, self.demangle);
                    self.linkmap.dead_stripped_symbols.push(symbol);
                    assert(self.linkmap@.dead_stripped_symbols
                        =~= old(self).linkmap@.dead_stripped_symbols.push(
                        stored_symbol(written, self.demangle),
                    ));
                    None
                },
                Err(e) => Some(e),
            },
            _ => None,
        }
    }

    /// Looks at `line` as a header and tells whether it is an unknown one.
    fn read_header(&mut self, line: &str) -> (unrecognized: bool)
        ensures
            final(self)@ == with_header(old(self)@, line@),
            final(self).demangle == old(self).demangle,
            unrecognized == is_unrecognized_header(line@),
    {
        if !starts_with(line, "#") {
            return false;
        }
        if starts_with(line, "# Path: ") {
            proof {
                reveal_strlit("# Path: ");
            }
            let end = line.unicode_len();
            let value = line.substring_char(8, end);
            assert(value@ =~= line@.skip(8));
            self.linkmap.path = value.to_owned();
            false
        } else if starts_with(line, "# Arch: ") {
            proof {
                reveal_strlit("# Arch: ");
            }
            let end = line.unicode_len();
            let value = line.substring_char(8, end);
            assert(value@ =~= line@.skip(8));
            self.linkmap.arch = value.to_owned();
            false
        } else if starts_with(line, "# Object files:") {
            self.phase = ParsingPhase::ObjectFiles;
            false
        } else if starts_with(line, "# Sections:") {
            self.phase = ParsingPhase::SectionsHeader;
            false
        } else if starts_with(line, "# Symbols:") {
            self.phase = ParsingPhase::SymbolsHeader;
            false
        } else if starts_with(line, "# Dead Stripped Symbols:") {
            self.phase = ParsingPhase::DeadStrippedSymbolsHeader;
            false
        } else {
            self.phase = ParsingPhase::Unknown;
            true
        }
    }

    /// Reads the next line of the link map.
    pub fn feed(&mut self, line: &str) -> (report: LineReport)
        ensures
            final(self)@ == step(old(self)@, line@, old(self).demangle),
            final(self).demangle == old(self).demangle,
            report@ == report_of(old(self).phase, line@),
            extends(final(self).linkmap@, old(self).linkmap@),
            dead_symbols_unplaced(old(self).linkmap@) ==> dead_symbols_unplaced(
                final(self).linkmap@,
            ),
    {
        proof {
            lemma_step_only_appends(old(self)@, line@, old(self).demangle);
            if dead_symbols_unplaced(old(self).linkmap@) {
                lemma_step_keeps_dead_symbols_unplaced(old(self)@, line@, old(self).demangle);
            }
        }
        match self.phase {
            ParsingPhase::SectionsHeader => {
                self.phase = ParsingPhase::Sections;
                LineReport { skipped: None, unrecognized_header: false }
            },
            ParsingPhase::SymbolsHeader => {
                self.phase = ParsingPhase::Symbols;
                LineReport { skipped: None, unrecognized_header: false }
            },
            ParsingPhase::DeadStrippedSymbolsHeader => {
                self.phase = ParsingPhase::DeadStrippedSymbols;
                LineReport { skipped: None, unrecognized_header: false }
            },
            _ => {
                let skipped = self.read_record(line);
                let unrecognized_header = self.read_header(line);
                LineReport { skipped, unrecognized_header }
            },
        }
    }

    /// Hands out what has been gathered.
    pub fn finish(self) -> (map: LinkMap)
        ensures
            map == self.linkmap,
    {
        self.linkmap
    }
}

/// Gives `symbol` the name it is stored with: demangled where asked for.
fn store_name(symbol: SymbolObject, demangle: bool) -> (stored: SymbolObject)
    ensures
        stored@ == stored_symbol(symbol@, demangle),
{
    if demangle {
        let name = demangle_symbol(symbol.name.as_str());
        symbol.with_name(name)
    } else {
        symbol
    }
}

/// One line leaves every dead-stripped symbol at address zero.
pub proof fn lemma_step_keeps_dead_symbols_unplaced(
    state: ParserState,
    line: Seq<char>,
    demangle: bool,
)
    requires
        dead_symbols_unplaced(state.linkmap),
    ensures
        dead_symbols_unplaced(step(state, line, demangle).linkmap),
{
    let recorded = with_record(state.linkmap, state.phase, line, demangle);
    lemma_dead_symbol_is_unplaced(line);
    assert(dead_symbols_unplaced(recorded)) by {
        assert forall|i: int| 0 <= i < recorded.dead_stripped_symbols.len() implies (
        #[trigger] recorded.dead_stripped_symbols[i]).address == 0 by {
            if i < state.linkmap.dead_stripped_symbols.len() {
                assert(recorded.dead_stripped_symbols[i] == state.linkmap.dead_stripped_symbols[i]);
            }
        }
    }
}

/// Whatever the lines hold, every dead-stripped symbol gathered from them has
/// address zero.
pub proof fn lemma_dead_symbols_unplaced(lines: Seq<Seq<char>>, demangle: bool)
    ensures
        dead_symbols_unplaced(run(lines, demangle).linkmap),
    decreases lines.len(),
{
    if lines.len() > 0 {
        lemma_dead_symbols_unplaced(lines.drop_last(), demangle);
        lemma_step_keeps_dead_symbols_unplaced(
            run(lines.drop_last(), demangle),
            lines.last(),
            demangle,
        );
    }
}

/// In the object-files block, a line made of `[`, white space, a decimal
/// number below 2^32, `"] "` and any path adds exactly one object file, with
/// that number and that path, and changes nothing else.
pub proof fn lemma_object_file_line_is_recorded(
    state: ParserState,
    padding: Seq<char>,
    digits: Seq<char>,
    path: Seq<char>,
    demangle: bool,
)
    requires
        state.phase == ParsingPhase::ObjectFiles,
        forall|i: int| 0 <= i < padding.len() ==> is_space(padding[i]),
        digits.len() > 0,
        all_digits(digits, 10),
        digits_value(digits, 10) <= u32::MAX,
    ensures
        step(state, "["@ + padding + digits + "] "@ + path, demangle) == (ParserState {
            phase: ParsingPhase::ObjectFiles,
            linkmap: LinkMapView {
                object_files: state.linkmap.object_files.push(
                    ObjectFileView { index: digits_value(digits, 10), path },
                ),
                ..state.linkmap
            },
        }),
{
    let line = "["@ + padding + digits + "] "@ + path;
    lemma_object_file_line(padding, digits, path);
    reveal_strlit("[");
    reveal_strlit("#");
    assert(line[0] == '[');
    assert(!is_header(line)) by {
        if is_header(line) {
            assert(line.subrange(0, 1)[0] == '#');
        }
    }
}

/// In the sections block, a line made of an address, a size, a segment free
/// of tabs and a section, with tabs between them, adds exactly one section
/// with those four values and changes nothing else. The address and the
/// size are hexadecimal numbers below 2^64, each with `0x` before it or bare.
pub proof fn lemma_section_line_is_recorded(
    state: ParserState,
    address: Seq<char>,
    address_marked: bool,
    size: Seq<char>,
    size_marked: bool,
    segment: Seq<char>,
    section: Seq<char>,
    demangle: bool,
)
    requires
        state.phase == ParsingPhase::Sections,
        address.len() > 0,
        all_digits(address, 16),
        digits_value(address, 16) <= u64::MAX,
        size.len() > 0,
        all_digits(size, 16),
        digits_value(size, 16) <= u64::MAX,
        forall|i: int| 0 <= i < segment.len() ==> segment[i] != '\t',
    ensures
        step(
            state,
            hex_field(address, address_marked) + "\t"@ + hex_field(size, size_marked) + "\t"@
                + segment + "\t"@ + section,
            demangle,
        ) == (ParserState {
            phase: ParsingPhase::Sections,
            linkmap: LinkMapView {
                sections: state.linkmap.sections.push(
                    SectionView {
                        address: digits_value(address, 16),
                        size: digits_value(size, 16),
                        segment,
                        section,
                    },
                ),
                ..state.linkmap
            },
        }),
{
    let line = hex_field(address, address_marked) + "\t"@ + hex_field(size, size_marked) + "\t"@
        + segment + "\t"@ + section;
    lemma_section_line(address, address_marked, size, size_marked, segment, section);
    reveal_strlit("0x");
    reveal_strlit("#");
    assert(digit_of(address[0], 16) is Some);
    assert(line[0] == hex_field(address, address_marked)[0]);
    assert(!is_header(line)) by {
        if is_header(line) {
            assert(line.subrange(0, 1)[0] == '#');
        }
    }
}

/// In the symbols block, and in the dead-stripped symbols block, a line made
/// of an address, a size and `[`, white space, a decimal number below 2^32,
/// `"] "` and any name, with tabs between the three, adds exactly one symbol
/// and changes nothing else. The symbol has the size and the number written
/// and the name it is stored with; a live one has the address written, a
/// dead-stripped one address zero.
pub proof fn lemma_symbol_line_is_recorded(
    state: ParserState,
    address: Seq<char>,
    address_marked: bool,
    size: Seq<char>,
    size_marked: bool,
    padding: Seq<char>,
    digits: Seq<char>,
    name: Seq<char>,
    demangle: bool,
)
    requires
        state.phase == ParsingPhase::Symbols || state.phase == ParsingPhase::DeadStrippedSymbols,
        address.len() > 0,
        all_digits(address, 16),
        digits_value(address, 16) <= u64::MAX,
        size.len() > 0,
        all_digits(size, 16),
        digits_value(size, 16) <= u64::MAX,
        forall|i: int| 0 <= i < padding.len() ==> is_space(padding[i]),
        digits.len() > 0,
        all_digits(digits, 10),
        digits_value(digits, 10) <= u32::MAX,
    ensures
        ({
            let line = hex_field(address, address_marked) + "\t"@ + hex_field(size, size_marked)
                + "\t"@ + ("["@ + padding + digits + "] "@ + name);
            let symbol = SymbolView {
                address: if state.phase == ParsingPhase::Symbols {
                    digits_value(address, 16)
                } else {
                    0
                },
                size: digits_value(size, 16),
                file_index: digits_value(digits, 10),
                name: stored_name(name, demangle),
            };
            step(state, line, demangle) == (ParserState {
                phase: state.phase,
                linkmap: if state.phase == ParsingPhase::Symbols {
                    LinkMapView { symbols: state.linkmap.symbols.push(symbol), ..state.linkmap }
                } else {
                    LinkMapView {
                        dead_stripped_symbols: state.linkmap.dead_stripped_symbols.push(symbol),
                        ..state.linkmap
                    }
                },
            })
        }),
{
    let line = hex_field(address, address_marked) + "\t"@ + hex_field(size, size_marked) + "\t"@
        + ("["@ + padding + digits + "] "@ + name);
    let live = state.phase == ParsingPhase::Symbols;
    lemma_symbol_line(address, address_marked, size, size_marked, padding, digits, name, live);
    reveal_strlit("0x");
    reveal_strlit("#");
    assert(digit_of(address[0], 16) is Some);
    assert(line[0] == hex_field(address, address_marked)[0]);
    assert(!is_header(line)) by {
        if is_header(line) {
            assert(line.subrange(0, 1)[0] == '#');
        }
    }
}

/// A name that cannot be a Rust symbol is stored as written, with or without
/// demangling, so storing it a second time changes nothing.
pub proof fn lemma_other_names_are_kept(name: Seq<char>, demangle: bool)
    requires
        !may_be_rust_symbol(name),
    ensures
        stored_name(name, demangle) == name,
        stored_name(stored_name(name, demangle), demangle) == stored_name(name, demangle),
{
}

/// One line removes and changes no record, and adds at most one.
pub proof fn lemma_step_only_appends(state: ParserState, line: Seq<char>, demangle: bool)
    ensures
        extends(step(state, line, demangle).linkmap, state.linkmap),
        step(state, line, demangle).linkmap.entry_count() <= state.linkmap.entry_count() + 1,
{
    lemma_with_record_only_appends(state.linkmap, state.phase, line, demangle);
}

/// Reading a line as a record removes and changes no record, and adds at
/// most one.
proof fn lemma_with_record_only_appends(
    map: LinkMapView,
    phase: ParsingPhase,
    line: Seq<char>,
    demangle: bool,
)
    ensures
        extends(with_record(map, phase, line, demangle), map),
        with_record(map, phase, line, demangle).entry_count() <= map.entry_count() + 1,
{
    match phase {
        ParsingPhase::ObjectFiles => {
            let parsed = object_file_of(line);
            if parsed is Ok {
                assert(with_record(map, phase, line, demangle).object_files
                    == map.object_files.push(parsed->Ok_0));
            }
        },
        ParsingPhase::Sections => {
            let parsed = section_of(line);
            if parsed is Ok {
                assert(with_record(map, phase, line, demangle).sections == map.sections.push(
                    parsed->Ok_0,
                ));
            }
        },
        ParsingPhase::Symbols => {
            let parsed = symbol_of(line, true);
            if parsed is Ok {
                assert(with_record(map, phase, line, demangle).symbols == map.symbols.push(
                    stored_symbol(parsed->Ok_0, demangle),
                ));
            }
        },
        ParsingPhase::DeadStrippedSymbols => {
            let parsed = symbol_of(line, false);
            if parsed is Ok {
                assert(with_record(map, phase, line, demangle).dead_stripped_symbols
                    == map.dead_stripped_symbols.push(stored_symbol(parsed->Ok_0, demangle)));
            }
        },
        _ => {},
    }
}

/// The records gathered from the first `k` lines stay, unchanged and in
/// place, whatever lines follow.
pub proof fn lemma_run_only_appends(lines: Seq<Seq<char>>, k: int, demangle: bool)
    requires
        0 <= k <= lines.len(),
    ensures
        extends(run(lines, demangle).linkmap, run(lines.take(k), demangle).linkmap),
    decreases lines.len() - k,
{
    if k == lines.len() {
        assert(lines.take(k) =~= lines);
    } else {
        let init = lines.drop_last();
        lemma_run_only_appends(init, k, demangle);
        assert(init.take(k) =~= lines.take(k));
        lemma_step_only_appends(run(init, demangle), lines.last(), demangle);
    }
}

/// A line with fewer tab-separated fields than three has no three fields,
/// and one with fewer than four has no four.
pub proof fn lemma_few_fields(line: Seq<char>)
    ensures
        field_count(line) < 3 ==> three_fields(line) is None,
        field_count(line) < 4 ==> four_fields(line) is None,
{
    reveal_strlit("\t");
    assert("\t"@ =~= seq!['\t']);
    lemma_split_at_first_count(line, '\t');
    match split_at_first(line, "\t"@) {
        Some((_, rest1)) => {
            lemma_split_at_first_count(rest1, '\t');
            match split_at_first(rest1, "\t"@) {
                Some((_, rest2)) => {
                    lemma_split_at_first_count(rest2, '\t');
                },
                None => {},
            }
        },
        None => {},
    }
}

/// A line that is no header and has fewer tab-separated fields than the
/// phase needs is skipped: the parser is after it as it was before it.
pub proof fn lemma_short_line_is_skipped(state: ParserState, line: Seq<char>, demangle: bool)
    requires
        is_short_for(state.phase, line),
    ensures
        step(state, line, demangle) == state,
{
    lemma_few_fields(line);
    lemma_few_fields_carry_nothing(line);
}

/// Lines that are skipped for want of fields leave no trace: the parser ends
/// in the same state, with the same records in the same order, as on the
/// input from which any number of such lines have been taken away.
pub proof fn lemma_short_lines_leave_no_trace(
    lines: Seq<Seq<char>>,
    removed: Set<int>,
    demangle: bool,
)
    requires
        forall|i: int| removed.contains(i) ==> is_short_at(lines, i, demangle),
    ensures
        run(without_lines(lines, removed), demangle) == run(lines, demangle),
        run(without_lines(lines, removed), demangle).linkmap.entry_count() == run(
            lines,
            demangle,
        ).linkmap.entry_count(),
    decreases lines.len(),
{
    if lines.len() > 0 {
        let init = lines.drop_last();
        assert forall|i: int| removed.contains(i) && i < init.len() implies is_short_at(
            init,
            i,
            demangle,
        ) by {
            assert(is_short_at(lines, i, demangle));
            assert(init.take(i) =~= lines.take(i));
        }
        let earlier = removed.filter(|i: int| i < init.len());
        lemma_short_lines_leave_no_trace(init, earlier, demangle);
        lemma_without_lines_ignores_later(init, removed);
        if removed.contains(lines.len() - 1) {
            assert(is_short_at(lines, lines.len() - 1, demangle));
            assert(lines.take(lines.len() - 1) =~= init);
            lemma_short_line_is_skipped(run(init, demangle), lines.last(), demangle);
        } else {
            let kept = without_lines(init, removed).push(lines.last());
            assert(kept.drop_last() =~= without_lines(init, removed));
        }
    }
}

/// Positions past the end of `lines` have no part in `without_lines`.
proof fn lemma_without_lines_ignores_later(lines: Seq<Seq<char>>, removed: Set<int>)
    ensures
        without_lines(lines, removed) == without_lines(
            lines,
            removed.filter(|i: int| i < lines.len()),
        ),
    decreases lines.len(),
{
    if lines.len() > 0 {
        let init = lines.drop_last();
        let here = removed.filter(|i: int| i < lines.len());
        lemma_without_lines_ignores_later(init, removed);
        lemma_without_lines_ignores_later(init, here);
        assert(here.filter(|i: int| i < init.len()) =~= removed.filter(|i: int| i < init.len()));
    }
}

/// Reads a whole link map, given as its lines in order. With `demangle`,
/// symbol names are stored demangled.
pub fn parse_linkmap(lines: &[String], demangle: bool) -> (map: LinkMap)
    ensures
        map@ == run(texts(lines@), demangle).linkmap,
        dead_symbols_unplaced(map@),
{
    let mut parser = LinkMapParser::new(demangle);
    let mut i: usize = 0;
    assert(texts(lines@).take(0) =~= Seq::empty());
    while i < lines.len()
        invariant
            i <= lines.len(),
            parser.demangle == demangle,
            parser@ == run(texts(lines@).take(i as int), demangle),
        decreases lines.len() - i,
    {
        proof {
            let seen = texts(lines@).take(i + 1);
            assert(seen.drop_last() =~= texts(lines@).take(i as int));
            assert(seen.last() == lines@[i as int]@);
        }
        parser.feed(lines[i].as_str());
        i += 1;
    }
    proof {
        assert(texts(lines@).take(i as int) =~= texts(lines@));
        lemma_dead_symbols_unplaced(texts(lines@), demangle);
    }
    parser.finish()
}

} // verus!
