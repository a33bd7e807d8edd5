use linkmap::{
    parse_object_file_line, parse_section_line, parse_symbol_line, LineError, ObjectFile,
    SectionObject, SymbolObject,
};

fn object(index: u32, path: &str) -> ObjectFile {
    ObjectFile { index, path: path.to_string() }
}

fn section(address: u64, size: u64, segment: &str, name: &str) -> SectionObject {
    SectionObject { address, size, segment: segment.to_string(), section: name.to_string() }
}

fn symbol(address: u64, size: u64, file_index: u32, name: &str) -> SymbolObject {
    SymbolObject { address, size, file_index, name: name.to_string() }
}

fn bad_index(token: &str) -> LineError {
    LineError::Index(token.to_string())
}

fn bad_number(address: &str, size: &str) -> LineError {
    LineError::Number(address.to_string(), size.to_string())
}

#[test]
fn object_file_line_plain() {
    assert_eq!(parse_object_file_line("[  0] a.o"), Ok(object(0, "a.o")));
    assert_eq!(parse_object_file_line("[0] a.o"), Ok(object(0, "a.o")));
    assert_eq!(
        parse_object_file_line("[ 42] /usr/lib/libc++.tbd"),
        Ok(object(42, "/usr/lib/libc++.tbd"))
    );
}

#[test]
fn object_file_path_may_hold_the_separator() {
    assert_eq!(
        parse_object_file_line("[ 12] /tmp/odd] name] .o"),
        Ok(object(12, "/tmp/odd] name] .o"))
    );
    assert_eq!(parse_object_file_line("[  1] ] "), Ok(object(1, "] ")));
}

#[test]
fn object_file_path_is_kept_verbatim() {
    assert_eq!(parse_object_file_line("[  1]  two spaces "), Ok(object(1, " two spaces ")));
    assert_eq!(parse_object_file_line("[  1] "), Ok(object(1, "")));
    assert_eq!(
        parse_object_file_line("[  5] /lib/libfoo.a(bar.o)"),
        Ok(object(5, "/lib/libfoo.a(bar.o)"))
    );
}

#[test]
fn object_file_index_limits() {
    assert_eq!(parse_object_file_line("[4294967295] m.o"), Ok(object(4294967295, "m.o")));
    assert_eq!(parse_object_file_line("[4294967296] m.o"), Err(bad_index("4294967296")));
    assert_eq!(parse_object_file_line("[0000000000000007] m.o"), Ok(object(7, "m.o")));
    assert_eq!(parse_object_file_line("[+7] m.o"), Ok(object(7, "m.o")));
    assert_eq!(parse_object_file_line("[-7] m.o"), Err(bad_index("-7")));
}

#[test]
fn object_file_index_is_trimmed_of_any_white_space() {
    assert_eq!(parse_object_file_line("[\t 3 \u{a0}] u.o"), Ok(object(3, "u.o")));
    assert_eq!(parse_object_file_line("[\u{2003}9\u{3000}] u.o"), Ok(object(9, "u.o")));
    assert_eq!(parse_object_file_line("[ 1 2] u.o"), Err(bad_index("1 2")));
}

#[test]
fn object_file_line_needs_the_opening_bracket() {
    assert_eq!(parse_object_file_line("x12] foo"), Err(LineError::Shape));
    assert_eq!(parse_object_file_line("\u{e9}12] foo"), Err(LineError::Shape));
    assert_eq!(parse_object_file_line("12] foo"), Err(LineError::Shape));
    assert_eq!(parse_object_file_line(" [12] foo"), Err(LineError::Shape));
    assert_eq!(parse_object_file_line("# 3] weird.o"), Err(LineError::Shape));
    assert_eq!(parse_object_file_line("] a.o"), Err(LineError::Shape));
    assert_eq!(parse_object_file_line("[[12] foo"), Err(bad_index("[12")));
}

#[test]
fn object_file_line_errors() {
    assert_eq!(parse_object_file_line(""), Err(LineError::Shape));
    assert_eq!(parse_object_file_line("no separator here"), Err(LineError::Shape));
    assert_eq!(parse_object_file_line("[  0]a.o"), Err(LineError::Shape));
    assert_eq!(parse_object_file_line("[] a.o"), Err(bad_index("")));
    assert_eq!(parse_object_file_line("[   ] a.o"), Err(bad_index("")));
    assert_eq!(parse_object_file_line("[ x] a.o"), Err(bad_index("x")));
    assert_eq!(parse_object_file_line("[ 0x1] a.o"), Err(bad_index("0x1")));
    assert_eq!(parse_object_file_line("[+] a.o"), Err(bad_index("+")));
}

#[test]
fn section_line_plain() {
    assert_eq!(
        parse_section_line("0x100003F50\t0x00000066\t__TEXT\t__text"),
        Ok(section(0x100003F50, 0x66, "__TEXT", "__text"))
    );
}

#[test]
fn section_hex_prefix_is_optional() {
    let with = parse_section_line("0x1A2b\t0xff\t__DATA\t__data");
    let without = parse_section_line("1A2b\tff\t__DATA\t__data");
    let mixed = parse_section_line("0X1A2b\tff\t__DATA\t__data");
    assert_eq!(with, Ok(section(0x1A2B, 0xFF, "__DATA", "__data")));
    assert_eq!(with, without);
    assert_eq!(with, mixed);
}

#[test]
fn section_only_one_prefix_is_removed() {
    assert_eq!(parse_section_line("0x0x10\t0x1\tS\ts"), Err(bad_number("0x0x10", "0x1")));
    assert_eq!(parse_section_line("0x10\t0X0x1\tS\ts"), Err(bad_number("0x10", "0X0x1")));
    assert_eq!(parse_section_line("0x\t0x1\tS\ts"), Err(bad_number("0x", "0x1")));
    assert_eq!(parse_section_line("0x0\t0x00\tS\ts"), Ok(section(0, 0, "S", "s")));
}

#[test]
fn section_number_limits() {
    assert_eq!(
        parse_section_line("0xFFFFFFFFFFFFFFFF\t0xffffffffffffffff\tS\ts"),
        Ok(section(u64::MAX, u64::MAX, "S", "s"))
    );
    assert_eq!(
        parse_section_line("0x10000000000000000\t0x1\tS\ts"),
        Err(bad_number("0x10000000000000000", "0x1"))
    );
    assert_eq!(
        parse_section_line("0x1\t0x10000000000000000\tS\ts"),
        Err(bad_number("0x1", "0x10000000000000000"))
    );
    assert_eq!(
        parse_section_line("0x00000000000000000000001\t+2\tS\ts"),
        Ok(section(1, 2, "S", "s"))
    );
}

#[test]
fn section_line_errors() {
    assert_eq!(parse_section_line(""), Err(LineError::Shape));
    assert_eq!(parse_section_line("0x1"), Err(LineError::Shape));
    assert_eq!(parse_section_line("0x1\t0x2"), Err(LineError::Shape));
    assert_eq!(parse_section_line("0x1\t0x2\t__TEXT"), Err(LineError::Shape));
    assert_eq!(parse_section_line("zz\t0x2\t__TEXT\t__text"), Err(bad_number("zz", "0x2")));
    assert_eq!(parse_section_line("0x1\t \t__TEXT\t__text"), Err(bad_number("0x1", " ")));
    assert_eq!(parse_section_line(" 0x1\t0x2\t__TEXT\t__text"), Err(bad_number(" 0x1", "0x2")));
    assert_eq!(parse_section_line("0x1 \t0x2\t__TEXT\t__text"), Err(bad_number("0x1 ", "0x2")));
    assert_eq!(parse_section_line("-1\t0x2\t__TEXT\t__text"), Err(bad_number("-1", "0x2")));
    assert_eq!(parse_section_line("0x1_0\t0x2\t__TEXT\t__text"), Err(bad_number("0x1_0", "0x2")));
    assert_eq!(parse_section_line("\t\t\t"), Err(bad_number("", "")));
}

#[test]
fn section_name_takes_the_rest_of_the_line() {
    assert_eq!(
        parse_section_line("0x1\t0x2\t__TEXT\t__text\textra\t"),
        Ok(section(1, 2, "__TEXT", "__text\textra\t"))
    );
    assert_eq!(parse_section_line("0x1\t0x2\t\t"), Ok(section(1, 2, "", "")));
}

#[test]
fn live_symbol_line() {
    assert_eq!(
        parse_symbol_line("0x1000\t0x10\t[  0] _main", true),
        Ok(symbol(0x1000, 0x10, 0, "_main"))
    );
    assert_eq!(
        parse_symbol_line("100003F50\t30\t[ 17] -[Foo bar:baz:]", true),
        Ok(symbol(0x100003F50, 0x30, 17, "-[Foo bar:baz:]"))
    );
}

#[test]
fn symbol_name_takes_the_rest_of_the_line() {
    assert_eq!(
        parse_symbol_line("0x1\t0x2\t[  3] literal string: a] b\tc", true),
        Ok(symbol(1, 2, 3, "literal string: a] b\tc"))
    );
    assert_eq!(parse_symbol_line("0x1\t0x2\t[  3] ", true), Ok(symbol(1, 2, 3, "")));
}

#[test]
fn dead_symbol_line_ignores_the_address() {
    assert_eq!(
        parse_symbol_line("<<dead>> \t0x00000012\t[  1] _unused", false),
        Ok(symbol(0, 0x12, 1, "_unused"))
    );
    assert_eq!(
        parse_symbol_line("0xDEADBEEF\t0x12\t[  1] _unused", false),
        Ok(symbol(0, 0x12, 1, "_unused"))
    );
    assert_eq!(parse_symbol_line("\t0x12\t[  1] _unused", false), Ok(symbol(0, 0x12, 1, "_unused")));
    assert_eq!(parse_symbol_line("# any\t0x12\t[  1] _unused", false), Ok(symbol(0, 0x12, 1, "_unused")));
}

#[test]
fn live_symbol_needs_an_address() {
    assert_eq!(
        parse_symbol_line("<<dead>> \t0x00000012\t[  1] _unused", true),
        Err(bad_number("<<dead>> ", "0x00000012"))
    );
}

#[test]
fn symbol_line_errors() {
    for live in [true, false] {
        assert_eq!(parse_symbol_line("", live), Err(LineError::Shape));
        assert_eq!(parse_symbol_line("0x1\t0x2", live), Err(LineError::Shape));
        assert_eq!(parse_symbol_line("0x1\t0x2\t[  1]_main", live), Err(LineError::Shape));
        assert_eq!(parse_symbol_line("0x1\t0x2\t_main", live), Err(LineError::Shape));
        assert_eq!(parse_symbol_line("0x1\t0x2\t] _main", live), Err(LineError::Shape));
        assert_eq!(parse_symbol_line("0x1\t0x2\t 1] _main", live), Err(LineError::Shape));
        assert_eq!(parse_symbol_line("0x1\tsize\t 1] _main", live), Err(LineError::Shape));
        assert_eq!(
            parse_symbol_line("0x1\tsize\t[  1] _main", live),
            Err(bad_number("0x1", "size"))
        );
        assert_eq!(parse_symbol_line("0x1\t0x2\t[ one] _main", live), Err(bad_index("one")));
        assert_eq!(
            parse_symbol_line("0x1\tsize\t[ one] _main", live),
            Err(bad_number("0x1", "size"))
        );
    }
    assert_eq!(parse_symbol_line("addr\t0x2\t[  1] _main", true), Err(bad_number("addr", "0x2")));
    assert_eq!(parse_symbol_line("addr\t0x2\t[ one] _main", false), Err(bad_index("one")));
    assert_eq!(parse_symbol_line("addr\tsize\t[  1] _main", false), Err(bad_number("addr", "size")));
}

#[test]
fn symbol_with_another_name() {
    let renamed = symbol(0x10, 4, 2, "_Z1fv").with_name("f()".to_string());
    assert_eq!(renamed, symbol(0x10, 4, 2, "f()"));
}
