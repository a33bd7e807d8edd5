//! The records of a link map and the layout of the lines that carry them.
//!
//! Each kind of record has one line layout. The spec functions `object_file_of`,
//! `section_of` and `symbol_of` say which record a line carries, or why it
//! carries none; the `parse_*` functions compute exactly that.

use vstd::prelude::*;
use crate::number::{
    all_digits, decimal_u32_of, digit_of, digits_value, hex_u64_of, lemma_hex_prefix_optional,
    parse_hex_u64, parse_u32,
};
use crate::text::{
    is_space, lemma_split_at_first_joined, lemma_trimmed_padding, skip_first, split_at_first,
    split_once, trim, trimmed, without_first,
};

verus! {

/// An object file that took part in the link.
#[derive(Debug, PartialEq, Eq)]
pub struct ObjectFile {
    /// The slot number written between the brackets.
    pub index: u32,
    /// The path as written, with any suffix the toolchain added.
    pub path: String,
}

/// A section and its place in the address space.
#[derive(Debug, PartialEq, Eq)]
pub struct SectionObject {
    pub address: u64,
    pub size: u64,
    pub segment: String,
    pub section: String,
}

/// A symbol, live or dead-stripped.
#[derive(Debug, PartialEq, Eq)]
pub struct SymbolObject {
    /// The load address; zero for a dead-stripped symbol, which has none.
    pub address: u64,
    pub size: u64,
    /// The slot number of the object file the symbol came from.
    pub file_index: u32,
    pub name: String,
}

/// Everything a link map reports, in the order of the input.
#[derive(Debug, PartialEq, Eq)]
pub struct LinkMap {
    pub path: String,
    pub arch: String,
    pub object_files: Vec<ObjectFile>,
    pub sections: Vec<SectionObject>,
    pub symbols: Vec<SymbolObject>,
    pub dead_stripped_symbols: Vec<SymbolObject>,
}

/// Why a line carries no record.
#[derive(Debug, PartialEq, Eq)]
pub enum LineError {
    /// A separator of the layout, or the opening bracket of the index, is
    /// missing.
    Shape,
    /// The address or the size is no hexadecimal number of 64 bits. Holds
    /// the address field and the size field as written.
    Number(String, String),
    /// The text between the brackets is no decimal number of 32 bits. Holds
    /// that text, trimmed.
    Index(String),
}

pub ghost enum LineErrorView {
    Shape,
    Number(Seq<char>, Seq<char>),
    Index(Seq<char>),
}

impl View for LineError {
    type V = LineErrorView;

    open spec fn view(&self) -> LineErrorView {
        match self {
            LineError::Shape => LineErrorView::Shape,
            LineError::Number(address, size) => LineErrorView::Number(address@, size@),
            LineError::Index(token) => LineErrorView::Index(token@),
        }
    }
}

pub ghost struct ObjectFileView {
    pub index: nat,
    pub path: Seq<char>,
}

pub ghost struct SectionView {
    pub address: nat,
    pub size: nat,
    pub segment: Seq<char>,
    pub section: Seq<char>,
}

pub ghost struct SymbolView {
    pub address: nat,
    pub size: nat,
    pub file_index: nat,
    pub name: Seq<char>,
}

pub ghost struct LinkMapView {
    pub path: Seq<char>,
    pub arch: Seq<char>,
    pub object_files: Seq<ObjectFileView>,
    pub sections: Seq<SectionView>,
    pub symbols: Seq<SymbolView>,
    pub dead_stripped_symbols: Seq<SymbolView>,
}

impl View for ObjectFile {
    type V = ObjectFileView;

    open spec fn view(&self) -> ObjectFileView {
        ObjectFileView { index: self.index as nat, path: self.path@ }
    }
}

impl View for SectionObject {
    type V = SectionView;

    open spec fn view(&self) -> SectionView {
        SectionView {
            address: self.address as nat,
            size: self.size as nat,
            segment: self.segment@,
            section: self.section@,
        }
    }
}

impl View for SymbolObject {
    type V = SymbolView;

    open spec fn view(&self) -> SymbolView {
        SymbolView {
            address: self.address as nat,
            size: self.size as nat,
            file_index: self.file_index as nat,
            name: self.name@,
        }
    }
}

impl View for LinkMap {
    type V = LinkMapView;

    open spec fn view(&self) -> LinkMapView {
        LinkMapView {
            path: self.path@,
            arch: self.arch@,
            object_files: self.object_files@.map_values(|o: ObjectFile| o@),
            sections: self.sections@.map_values(|s: SectionObject| s@),
            symbols: self.symbols@.map_values(|s: SymbolObject| s@),
            dead_stripped_symbols: self.dead_stripped_symbols@.map_values(|s: SymbolObject| s@),
        }
    }
}

impl LinkMapView {
    /// The link map with nothing in it.
    pub open spec fn empty() -> LinkMapView {
        LinkMapView {
            path: Seq::empty(),
            arch: Seq::empty(),
            object_files: Seq::empty(),
            sections: Seq::empty(),
            symbols: Seq::empty(),
            dead_stripped_symbols: Seq::empty(),
        }
    }

    /// The number of records of all four kinds.
    pub open spec fn entry_count(self) -> nat {
        self.object_files.len() + self.sections.len() + self.symbols.len()
            + self.dead_stripped_symbols.len()
    }
}

impl LinkMap {
    /// A link map with empty path, empty architecture and no records.
    pub fn new() -> (map: LinkMap)
        ensures
            map@ == LinkMapView::empty(),
    {
        let map = LinkMap {
            path: String::new(),
            arch: String::new(),
            object_files: Vec::new(),
            sections: Vec::new(),
            symbols: Vec::new(),
            dead_stripped_symbols: Vec::new(),
        };
        assert(map@.object_files =~= Seq::empty());
        assert(map@.sections =~= Seq::empty());
        assert(map@.symbols =~= Seq::empty());
        assert(map@.dead_stripped_symbols =~= Seq::empty());
        map
    }
}

impl SymbolObject {
    /// The same symbol under another name.
    pub fn with_name(self, name: String) -> (renamed: SymbolObject)
        ensures
            renamed@ == (SymbolView { name: name@, ..self@ }),
    {
        SymbolObject { name, ..self }
    }
}

/// The first two tab-separated fields of `line` and all that follows them.
pub open spec fn three_fields(line: Seq<char>) -> Option<(Seq<char>, Seq<char>, Seq<char>)> {
    match split_at_first(line, "\t"@) {
        Some((first, rest)) => match split_at_first(rest, "\t"@) {
            Some((second, third)) => Some((first, second, third)),
            None => None,
        },
        None => None,
    }
}

/// The first three tab-separated fields of `line` and all that follows them.
pub open spec fn four_fields(line: Seq<char>) -> Option<
    (Seq<char>, Seq<char>, Seq<char>, Seq<char>),
> {
    match three_fields(line) {
        Some((first, second, rest)) => match split_at_first(rest, "\t"@) {
            Some((third, fourth)) => Some((first, second, third, fourth)),
            None => None,
        },
        None => None,
    }
}

/// The text between the brackets, trimmed of white space, where `head` is
/// what stands before `"] "`; none where `head` does not begin with `[`.
pub open spec fn index_token(head: Seq<char>) -> Option<Seq<char>> {
    if head.len() > 0 && head[0] == '[' {
        Some(trimmed(without_first(head)))
    } else {
        None
    }
}

/// The object file that a line `[<index>] <path>` carries. The line is split
/// at its first `"] "`, so the path may hold that text itself.
#[verifier::opaque]
pub open spec fn object_file_of(line: Seq<char>) -> Result<ObjectFileView, LineErrorView> {
    match split_at_first(line, "] "@) {
        None => Err(LineErrorView::Shape),
        Some((head, path)) => match index_token(head) {
            None => Err(LineErrorView::Shape),
            Some(token) => match decimal_u32_of(token) {
                None => Err(LineErrorView::Index(token)),
                Some(index) => Ok(ObjectFileView { index, path }),
            },
        },
    }
}

/// The section that a line `<address>\t<size>\t<segment>\t<section>` carries.
/// Tabs after the third stay in the section name.
#[verifier::opaque]
pub open spec fn section_of(line: Seq<char>) -> Result<SectionView, LineErrorView> {
    match four_fields(line) {
        None => Err(LineErrorView::Shape),
        Some((address, size, segment, section)) => match (hex_u64_of(address), hex_u64_of(size)) {
            (Some(address), Some(size)) => Ok(SectionView { address, size, segment, section }),
            _ => Err(LineErrorView::Number(address, size)),
        },
    }
}

/// The symbol that a line `<address>\t<size>\t[<index>] <name>` carries. A
/// live symbol has the address written; a dead-stripped one has address zero,
/// whatever is written. The layout is looked at first, the address and the
/// size second, the index last.
#[verifier::opaque]
pub open spec fn symbol_of(line: Seq<char>, live: bool) -> Result<SymbolView, LineErrorView> {
    match three_fields(line) {
        None => Err(LineErrorView::Shape),
        Some((address, size, text)) => match split_at_first(text, "] "@) {
            None => Err(LineErrorView::Shape),
            Some((head, name)) => match index_token(head) {
                None => Err(LineErrorView::Shape),
                Some(token) => {
                    let placed = if live {
                        hex_u64_of(address)
                    } else {
                        Some(0nat)
                    };
                    match (placed, hex_u64_of(size)) {
                        (Some(placed), Some(length)) => match decimal_u32_of(token) {
                            None => Err(LineErrorView::Index(token)),
                            Some(file_index) => Ok(
                                SymbolView { address: placed, size: length, file_index, name },
                            ),
                        },
                        _ => Err(LineErrorView::Number(address, size)),
                    }
                },
            },
        },
    }
}

/// A run of hexadecimal digits as a field of a line, with `0x` before it or bare.
pub open spec fn hex_field(digits: Seq<char>, marked: bool) -> Seq<char> {
    if marked {
        "0x"@ + digits
    } else {
        digits
    }
}

/// A line made of `[`, white space, a decimal number below 2^32, `"] "` and
/// any path carries the object file with that number and that path, whole,
/// whatever the path holds.
pub proof fn lemma_object_file_line(padding: Seq<char>, digits: Seq<char>, path: Seq<char>)
    requires
        forall|i: int| 0 <= i < padding.len() ==> is_space(padding[i]),
        digits.len() > 0,
        all_digits(digits, 10),
        digits_value(digits, 10) <= u32::MAX,
    ensures
        object_file_of("["@ + padding + digits + "] "@ + path) == Ok::<ObjectFileView, LineErrorView>(
            ObjectFileView { index: digits_value(digits, 10), path },
        ),
{
    reveal(object_file_of);
    lemma_bracketed_index(padding, digits, path);
    assert(digit_of(digits[0], 10) is Some);
}

/// A line made of an address, a size, a segment free of tabs and a section,
/// with tabs between them, carries the section with those four values. The
/// address and the size are hexadecimal numbers below 2^64, each with `0x`
/// before it or bare: the record is the same either way.
pub proof fn lemma_section_line(
    address: Seq<char>,
    address_marked: bool,
    size: Seq<char>,
    size_marked: bool,
    segment: Seq<char>,
    section: Seq<char>,
)
    requires
        address.len() > 0,
        all_digits(address, 16),
        digits_value(address, 16) <= u64::MAX,
        size.len() > 0,
        all_digits(size, 16),
        digits_value(size, 16) <= u64::MAX,
        forall|i: int| 0 <= i < segment.len() ==> segment[i] != '\t',
    ensures
        section_of(
            hex_field(address, address_marked) + "\t"@ + hex_field(size, size_marked) + "\t"@
                + segment + "\t"@ + section,
        ) == Ok::<SectionView, LineErrorView>(
            SectionView {
                address: digits_value(address, 16),
                size: digits_value(size, 16),
                segment,
                section,
            },
        ),
{
    reveal(section_of);
    let first = hex_field(address, address_marked);
    let second = hex_field(size, size_marked);
    lemma_hex_field(address, address_marked);
    lemma_hex_field(size, size_marked);
    assert forall|i: int| 0 <= i < segment.len() implies segment[i] != "\t"@[0] by {
        reveal_strlit("\t");
    }
    lemma_four_fields_joined(first, second, segment, section);
}

/// A line made of an address, a size and `[`, white space, a decimal number
/// below 2^32, `"] "` and any name, with tabs between the three, carries the
/// symbol with those values and that name, whole. The address and the size
/// are hexadecimal numbers below 2^64, each with `0x` before it or bare. A
/// dead-stripped symbol gets address zero in place of the one written.
pub proof fn lemma_symbol_line(
    address: Seq<char>,
    address_marked: bool,
    size: Seq<char>,
    size_marked: bool,
    padding: Seq<char>,
    digits: Seq<char>,
    name: Seq<char>,
    live: bool,
)
    requires
        address.len() > 0,
        all_digits(address, 16),
        digits_value(address, 16) <= u64::MAX,
        size.len() > 0,
        all_digits(size, 16),
        digits_value(size, 16) <= u64::MAX,
        forall|i: int| 0 <= i < padding.len() ==> is_space(padding[i]),
        digits.len() > 0,
        all_digits(digits, 10),
        digits_value(digits, 10) <= u32::MAX,
    ensures
        symbol_of(
            hex_field(address, address_marked) + "\t"@ + hex_field(size, size_marked) + "\t"@ + (
            "["@ + padding + digits + "] "@ + name),
            live,
        ) == Ok::<SymbolView, LineErrorView>(
            SymbolView {
                address: if live {
                    digits_value(address, 16)
                } else {
                    0
                },
                size: digits_value(size, 16),
                file_index: digits_value(digits, 10),
                name,
            },
        ),
{
    let first = hex_field(address, address_marked);
    let second = hex_field(size, size_marked);
    let head = "["@ + padding + digits;
    let text = head + "] "@ + name;
    let line = first + "\t"@ + second + "\t"@ + text;
    assert(three_fields(line) == Some((first, second, text))) by {
        lemma_hex_field(address, address_marked);
        lemma_hex_field(size, size_marked);
        lemma_three_fields_joined(first, second, text);
    }
    assert(hex_u64_of(first) == Some(digits_value(address, 16))) by {
        lemma_hex_field(address, address_marked);
    }
    assert(hex_u64_of(second) == Some(digits_value(size, 16))) by {
        lemma_hex_field(size, size_marked);
    }
    assert(split_at_first(text, "] "@) == Some((head, name)) && index_token(head) == Some(digits))
        by {
        lemma_bracketed_index(padding, digits, name);
    }
    assert(decimal_u32_of(digits) == Some(digits_value(digits, 10))) by {
        assert(digit_of(digits[0], 10) is Some);
    }
    lemma_symbol_of_parts(line, live, first, second, text, head, name, digits);
}

/// What `symbol_of` gives once the parts of the line are known.
proof fn lemma_symbol_of_parts(
    line: Seq<char>,
    live: bool,
    address: Seq<char>,
    size: Seq<char>,
    text: Seq<char>,
    head: Seq<char>,
    name: Seq<char>,
    token: Seq<char>,
)
    requires
        three_fields(line) == Some((address, size, text)),
        split_at_first(text, "] "@) == Some((head, name)),
        index_token(head) == Some(token),
        hex_u64_of(address) is Some,
        hex_u64_of(size) is Some,
        decimal_u32_of(token) is Some,
    ensures
        symbol_of(line, live) == Ok::<SymbolView, LineErrorView>(
            SymbolView {
                address: if live {
                    hex_u64_of(address)->0
                } else {
                    0
                },
                size: hex_u64_of(size)->0,
                file_index: decimal_u32_of(token)->0,
                name,
            },
        ),
{
    reveal(symbol_of);
}

/// A text made of `[`, white space, a decimal number, `"] "` and anything
/// splits at that `"] "`, and the text between the brackets is the number.
proof fn lemma_bracketed_index(padding: Seq<char>, digits: Seq<char>, rest: Seq<char>)
    requires
        forall|i: int| 0 <= i < padding.len() ==> is_space(padding[i]),
        digits.len() > 0,
        all_digits(digits, 10),
    ensures
        split_at_first("["@ + padding + digits + "] "@ + rest, "] "@) == Some(
            ("["@ + padding + digits, rest),
        ),
        index_token("["@ + padding + digits) == Some(digits),
{
    reveal_strlit("[");
    reveal_strlit("] ");
    let head = "["@ + padding + digits;
    assert forall|i: int| 0 <= i < head.len() implies head[i] != "] "@[0] by {
        if 1 <= i < 1 + padding.len() {
            assert(head[i] == padding[i - 1]);
        } else if i >= 1 + padding.len() {
            assert(head[i] == digits[i - 1 - padding.len()]);
            assert(digit_of(digits[i - 1 - padding.len()], 10) is Some);
        }
    }
    lemma_split_at_first_joined(head, "] "@, rest);
    assert(without_first(head) =~= padding + digits);
    assert(digit_of(digits[0], 10) is Some);
    assert(digit_of(digits.last(), 10) is Some);
    lemma_trimmed_padding(padding, digits);
}

/// Three texts joined by tabs are the three fields of the line, where
/// neither of the first two holds a tab.
pub proof fn lemma_three_fields_joined(first: Seq<char>, second: Seq<char>, third: Seq<char>)
    requires
        forall|i: int| 0 <= i < first.len() ==> first[i] != "\t"@[0],
        forall|i: int| 0 <= i < second.len() ==> second[i] != "\t"@[0],
    ensures
        three_fields(first + "\t"@ + second + "\t"@ + third) == Some((first, second, third)),
{
    reveal_strlit("\t");
    let tab = "\t"@;
    let line = first + tab + second + tab + third;
    let rest = second + tab + third;
    assert(line =~= first + tab + rest);
    lemma_split_at_first_joined(first, tab, rest);
    lemma_split_at_first_joined(second, tab, third);
}

/// Four texts joined by tabs are the four fields of the line, where none of
/// the first three holds a tab.
pub proof fn lemma_four_fields_joined(
    first: Seq<char>,
    second: Seq<char>,
    third: Seq<char>,
    fourth: Seq<char>,
)
    requires
        forall|i: int| 0 <= i < first.len() ==> first[i] != "\t"@[0],
        forall|i: int| 0 <= i < second.len() ==> second[i] != "\t"@[0],
        forall|i: int| 0 <= i < third.len() ==> third[i] != "\t"@[0],
    ensures
        four_fields(first + "\t"@ + second + "\t"@ + third + "\t"@ + fourth) == Some(
            (first, second, third, fourth),
        ),
{
    reveal_strlit("\t");
    let tab = "\t"@;
    let line = first + tab + second + tab + third + tab + fourth;
    let rest1 = second + tab + third + tab + fourth;
    let rest2 = third + tab + fourth;
    assert(line =~= first + tab + rest1);
    assert(rest1 =~= second + tab + rest2);
    lemma_split_at_first_joined(first, tab, rest1);
    lemma_split_at_first_joined(second, tab, rest2);
    lemma_split_at_first_joined(third, tab, fourth);
    assert(three_fields(line) == Some((first, second, rest2)));
}

/// A run of hexadecimal digits, marked or bare, holds no tab and writes the
/// number its digits write.
proof fn lemma_hex_field(digits: Seq<char>, marked: bool)
    requires
        digits.len() > 0,
        all_digits(digits, 16),
        digits_value(digits, 16) <= u64::MAX,
    ensures
        hex_u64_of(hex_field(digits, marked)) == Some(digits_value(digits, 16)),
        forall|i: int|
            0 <= i < hex_field(digits, marked).len() ==> hex_field(digits, marked)[i] != "\t"@[0],
{
    reveal_strlit("\t");
    reveal_strlit("0x");
    assert("0x"@ =~= seq!['0', 'x']);
    lemma_hex_prefix_optional(digits, false);
    let field = hex_field(digits, marked);
    assert forall|i: int| 0 <= i < field.len() implies field[i] != "\t"@[0] by {
        if marked {
            if i >= 2 {
                assert(field[i] == digits[i - 2]);
                assert(digit_of(digits[i - 2], 16) is Some);
            }
        } else {
            assert(digit_of(digits[i], 16) is Some);
        }
    }
}

/// A dead-stripped symbol has address zero, whatever its line holds.
pub proof fn lemma_dead_symbol_is_unplaced(line: Seq<char>)
    ensures
        symbol_of(line, false) matches Ok(symbol) ==> symbol.address == 0,
{
    reveal(symbol_of);
}

/// A line with fewer than three tab-separated fields carries no symbol, and
/// one with fewer than four carries no section.
pub proof fn lemma_few_fields_carry_nothing(line: Seq<char>)
    ensures
        three_fields(line) is None ==> symbol_of(line, true) == Err::<SymbolView, LineErrorView>(
            LineErrorView::Shape,
        ) && symbol_of(line, false) == Err::<SymbolView, LineErrorView>(LineErrorView::Shape),
        four_fields(line) is None ==> section_of(line) == Err::<SectionView, LineErrorView>(
            LineErrorView::Shape,
        ),
{
    reveal(symbol_of);
    reveal(section_of);
}

/// Splits `line` at its first two tabs.
fn split_three<'a>(line: &'a str) -> (fields: Option<(&'a str, &'a str, &'a str)>)
    ensures
        match fields {
            Some((a, b, c)) => three_fields(line@) == Some((a@, b@, c@)),
            None => three_fields(line@) is None,
        },
{
    match split_once(line, "\t") {
        Some((first, rest)) => match split_once(rest, "\t") {
            Some((second, third)) => Some((first, second, third)),
            None => None,
        },
        None => None,
    }
}

/// Takes the text between the brackets out of `head`, the part of a line
/// before `"] "`.
fn read_index_token(head: &str) -> (token: Option<&str>)
    ensures
        match token {
            Some(text) => index_token(head@) == Some(text@),
            None => index_token(head@) is None,
        },
{
    if head.unicode_len() > 0 && head.get_char(0) == '[' {
        Some(trim(skip_first(head)))
    } else {
        None
    }
}

/// Reads an object-file line.
pub fn parse_object_file_line(line: &str) -> (parsed: Result<ObjectFile, LineError>)
    ensures
        match parsed {
            Ok(file) => object_file_of(line@) == Ok::<ObjectFileView, LineErrorView>(file@),
            Err(e) => object_file_of(line@) == Err::<ObjectFileView, LineErrorView>(e@),
        },
{
    reveal(object_file_of);
    match split_once(line, "] ") {
        None => Err(LineError::Shape),
        Some((head, path)) => match read_index_token(head) {
            None => Err(LineError::Shape),
            Some(token) => match parse_u32(token) {
                None => Err(LineError::Index(token.to_owned())),
                Some(index) => Ok(ObjectFile { index, path: path.to_owned() }),
            },
        },
    }
}

/// Reads a section line.
pub fn parse_section_line(line: &str) -> (parsed: Result<SectionObject, LineError>)
    ensures
        match parsed {
            Ok(section) => section_of(line@) == Ok::<SectionView, LineErrorView>(section@),
            Err(e) => section_of(line@) == Err::<SectionView, LineErrorView>(e@),
        },
{
    reveal(section_of);
    match split_three(line) {
        None => Err(LineError::Shape),
        Some((address, size, rest)) => match split_once(rest, "\t") {
            None => Err(LineError::Shape),
            Some((segment, section)) => {
                match (parse_hex_u64(address), parse_hex_u64(size)) {
                    (Some(placed), Some(length)) => Ok(
                        SectionObject {
                            address: placed,
                            size: length,
                            segment: segment.to_owned(),
                            section: section.to_owned(),
                        },
                    ),
                    _ => Err(LineError::Number(address.to_owned(), size.to_owned())),
                }
            },
        },
    }
}

/// Reads a symbol line, live or dead-stripped. The name is kept as written.
pub fn parse_symbol_line(line: &str, live: bool) -> (parsed: Result<SymbolObject, LineError>)
    ensures
        match parsed {
            Ok(symbol) => symbol_of(line@, live) == Ok::<SymbolView, LineErrorView>(symbol@),
            Err(e) => symbol_of(line@, live) == Err::<SymbolView, LineErrorView>(e@),
        },
        !live ==> (parsed matches Ok(symbol) ==> symbol.address == 0),
{
    reveal(symbol_of);
    match split_three(line) {
        None => Err(LineError::Shape),
        Some((address, size, text)) => match split_once(text, "] ") {
            None => Err(LineError::Shape),
            Some((head, name)) => match read_index_token(head) {
                None => Err(LineError::Shape),
                Some(token) => {
                    let placed = if live {
                        parse_hex_u64(address)
                    } else {
                        Some(0)
                    };
                    match (placed, parse_hex_u64(size)) {
                        (Some(placed), Some(length)) => match parse_u32(token) {
                            None => Err(LineError::Index(token.to_owned())),
                            Some(file_index) => Ok(
                                SymbolObject {
                                    address: placed,
                                    size: length,
                                    file_index,
                                    name: name.to_owned(),
                                },
                            ),
                        },
                        _ => Err(LineError::Number(address.to_owned(), size.to_owned())),
                    }
                },
            },
        },
    }
}

} // verus!
